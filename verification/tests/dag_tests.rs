use nexus_chain::dag::graph::{Dag, DagConfig};
use nexus_chain::dag::vertex::{Vertex, VertexError, VertexStatus};
use nexus_chain::primitives::types::ValidatorId;

fn zero() -> nexus_chain::primitives::types::Hash {
    nexus_chain::primitives::types::Hash::zero()
}

fn create_test_dag() -> Dag {
    let mut dag = Dag::new(DagConfig::default());
    let genesis = Vertex::genesis(1337, 0);
    dag.init_genesis(genesis).unwrap();
    dag
}

#[test]
fn test_genesis_vertex() {
    let genesis = Vertex::genesis(1337, 1000);
    assert!(genesis.is_genesis());
    assert_eq!(genesis.height, 0);
    assert!(genesis.parents.is_empty());
}

#[test]
fn test_vertex_structure_validation() {
    let genesis = Vertex::genesis(1337, 1000);
    let mut invalid = genesis.clone();
    invalid.height = 1;
    assert!(matches!(invalid.verify_structure(), Err(VertexError::NoParents)));
}

#[test]
fn test_dag_genesis() {
    let dag = create_test_dag();
    assert_eq!(dag.latest_height(), 0);
    assert_eq!(dag.get_tips().len(), 1);
}

#[test]
fn test_dag_add_vertex() {
    let mut dag = create_test_dag();
    let genesis_hash = dag.get_tips()[0];
    let vertex = Vertex::new(vec![genesis_hash], 1, 1000, ValidatorId([1; 32]), vec![], zero(), zero());
    dag.add_vertex(vertex).unwrap();
    assert_eq!(dag.latest_height(), 1);
    assert_eq!(dag.get_tips().len(), 1);
}

#[test]
fn test_dag_multiple_tips() {
    let mut dag = create_test_dag();
    let genesis_hash = dag.get_tips()[0];
    let vertex1 = Vertex::new(vec![genesis_hash], 1, 1000, ValidatorId([1; 32]), vec![], zero(), zero());
    let vertex2 = Vertex::new(vec![genesis_hash], 1, 1001, ValidatorId([2; 32]), vec![], zero(), zero());
    dag.add_vertex(vertex1).unwrap();
    dag.add_vertex(vertex2).unwrap();
    assert_eq!(dag.get_tips().len(), 2);
}

#[test]
fn test_ancestor_check() {
    let mut dag = create_test_dag();
    let genesis_hash = dag.get_tips()[0];
    let vertex = Vertex::new(vec![genesis_hash], 1, 1000, ValidatorId([1; 32]), vec![], zero(), zero());
    let v1_hash = vertex.hash;
    dag.add_vertex(vertex).unwrap();
    assert!(dag.is_ancestor(&genesis_hash, &v1_hash));
    assert!(!dag.is_ancestor(&v1_hash, &genesis_hash));
}

#[test]
fn test_vertex_hash_and_root_check() {
    let g = Vertex::genesis(1, 0);
    let v = Vertex::new(vec![g.hash], 1, 5, ValidatorId([3; 32]), vec![], zero(), zero());
    assert!(v.verify_structure().is_ok());
    assert_eq!(v.weight, 1);
    let mut tampered = v.clone();
    tampered.timestamp = 6;
    assert!(matches!(tampered.verify_structure(), Err(VertexError::InvalidHash)));
    let mut bad_root = v.clone();
    bad_root.tx_root = nexus_chain::primitives::types::Hash::new([9; 32]);
    assert!(matches!(bad_root.verify_structure(), Err(VertexError::InvalidMerkleRoot)));
    let mut many = v.clone();
    many.parents = vec![g.hash; 9];
    assert!(matches!(many.verify_structure(), Err(VertexError::TooManyParents(9))));
    assert_eq!(g.extra_data, 1u64.to_be_bytes().to_vec());
    assert_eq!(v.size(), 293 + 32);
}

#[test]
fn test_dag_pending_then_cascade() {
    let mut dag = create_test_dag();
    let g = dag.get_tips()[0];
    let v1 = Vertex::new(vec![g], 1, 10, ValidatorId([1; 32]), vec![], zero(), zero());
    let v2 = Vertex::new(vec![v1.hash], 2, 20, ValidatorId([2; 32]), vec![], zero(), zero());
    let h1 = v1.hash;
    let h2 = v2.hash;
    dag.add_vertex_at(v2, 1_000).unwrap();
    assert_eq!(dag.get_status(&h2), Some(VertexStatus::AwaitingParents));
    assert!(dag.get_vertex(&h2).is_none());
    assert_eq!(dag.stats().pending_count, 1);
    dag.add_vertex_at(v1, 1_000).unwrap();
    assert!(dag.get_vertex(&h2).is_some());
    assert_eq!(dag.get_status(&h1), Some(VertexStatus::Confirmed));
    assert_eq!(dag.get_status(&h2), Some(VertexStatus::Confirmed));
    assert_eq!(dag.get_tips(), vec![h2]);
    assert_eq!(dag.latest_height(), 2);
    assert!(dag.is_ancestor(&g, &h2));
    assert_eq!(dag.get_ancestors(&h2, 10), vec![h1, g]);
    assert_eq!(dag.get_ancestors(&h2, 1), vec![h1]);
    assert_eq!(dag.calculate_weight(&g), 3);
    assert_eq!(dag.get_children(&g), vec![h1]);
    assert_eq!(dag.get_vertices_at_height(2), vec![h2]);
}

#[test]
fn test_dag_rejects_bad_height_and_future_timestamp() {
    let mut dag = create_test_dag();
    let g = dag.get_tips()[0];
    let wrong = Vertex::new(vec![g], 5, 10, ValidatorId([1; 32]), vec![], zero(), zero());
    assert!(dag.add_vertex_at(wrong, 1_000).is_err());
    let future = Vertex::new(vec![g], 1, 100_000, ValidatorId([1; 32]), vec![], zero(), zero());
    assert!(dag.add_vertex_at(future, 1_000).is_err());
    assert_eq!(dag.stats().total_vertices, 1);
    assert!(dag.init_genesis(Vertex::genesis(1, 0)).is_err());
}

#[test]
fn test_dag_finality_and_prune() {
    let mut dag = create_test_dag();
    let g = dag.get_tips()[0];
    let v1 = Vertex::new(vec![g], 1, 10, ValidatorId([1; 32]), vec![], zero(), zero());
    let h1 = v1.hash;
    dag.add_vertex_at(v1, 1_000).unwrap();
    let v2 = Vertex::new(vec![h1], 2, 20, ValidatorId([2; 32]), vec![], zero(), zero());
    dag.add_vertex_at(v2, 1_000).unwrap();
    dag.set_finalized_height(1);
    assert_eq!(dag.finalized_height(), 1);
    assert_eq!(dag.get_status(&h1), Some(VertexStatus::Finalized));
    dag.set_finalized_height(0);
    assert_eq!(dag.finalized_height(), 1);
    assert_eq!(dag.prune(1), 0);
    dag.set_finalized_height(2);
    assert_eq!(dag.prune(5), 0);
    assert_eq!(dag.prune(1), 1);
    assert!(dag.get_vertex(&g).is_none());
    assert_eq!(dag.get_status(&g), None);
    assert!(dag.get_vertex(&h1).is_some());
}

#[test]
fn added_vertex_becomes_the_confirmed_tip_and_re_adding_is_a_no_op() {
    let mut dag = create_test_dag();
    let g = dag.get_tips()[0];
    let v = Vertex::new(vec![g], 1, 1000, ValidatorId([1; 32]), vec![], zero(), zero());
    dag.add_vertex(v.clone()).unwrap();
    assert_eq!(dag.latest_height(), 1);
    let tips = dag.get_tips();
    assert_eq!(tips.len(), 1);
    assert_eq!(tips[0].0, v.hash.0);
    assert!(dag.is_ancestor(&g, &v.hash));
    assert!(!dag.is_ancestor(&v.hash, &g));
    assert_eq!(dag.get_status(&v.hash), Some(VertexStatus::Confirmed));
    let before = dag.stats();
    assert!(dag.add_vertex(v).is_ok());
    let after = dag.stats();
    assert_eq!(before.total_vertices, after.total_vertices);
    assert_eq!(before.tips_count, after.tips_count);
    assert_eq!(before.pending_count, after.pending_count);
}
