use nexus_chain::dag::graph::{Dag, DagConfig};
use nexus_chain::dag::tip_selection::{height_for_parents, validate_parents, TipSelector, TipValidationError};
use nexus_chain::dag::vertex::Vertex;
use nexus_chain::primitives::types::ValidatorId;

fn setup_dag() -> Dag {
    let mut dag = Dag::new(DagConfig::default());
    dag.init_genesis(Vertex::genesis(1337, 0)).unwrap();
    dag
}

fn zero() -> nexus_chain::primitives::types::Hash {
    nexus_chain::primitives::types::Hash::zero()
}

#[test]
fn test_parent_validation() {
    let dag = setup_dag();
    let tips = dag.get_tips();
    assert!(validate_parents(&dag, &tips).is_ok());
    assert!(matches!(validate_parents(&dag, &[]), Err(TipValidationError::NoParents)));
    assert!(matches!(
        validate_parents(&dag, &[nexus_chain::primitives::types::Hash::new([0xFF; 32])]),
        Err(TipValidationError::ParentNotFound(_))
    ));
}

#[test]
fn test_random_selection() {
    let dag = setup_dag();
    let selector = TipSelector::new();
    let parents = selector.random_selection(&dag.get_tips());
    assert!(!parents.is_empty());
    assert_eq!(height_for_parents(&dag, &parents), 1);
}

#[test]
fn test_select_count_limits() {
    let s = TipSelector::new();
    assert_eq!(s.select_count(0), 0);
    assert_eq!(s.select_count(1), 1);
    assert_eq!(s.select_count(5), 2);
    let wide = TipSelector::new().with_parent_limits(3, 20);
    assert_eq!(wide.max_parents, 8);
    assert_eq!(wide.select_count(5), 3);
}

#[test]
fn test_validation_duplicates_and_conflicts() {
    let mut dag = setup_dag();
    let g = dag.get_tips()[0];
    let v1 = Vertex::new(vec![g], 1, 10, ValidatorId([1; 32]), vec![], zero(), zero());
    let h1 = v1.hash;
    dag.add_vertex_at(v1, 1_000).unwrap();
    assert!(matches!(validate_parents(&dag, &[h1, h1]), Err(TipValidationError::DuplicateParents)));
    assert!(matches!(validate_parents(&dag, &[g, h1]), Err(TipValidationError::ConflictingParents(_, _))));
    assert!(matches!(validate_parents(&dag, &[g; 9]), Err(TipValidationError::TooManyParents)));
    let selector = TipSelector::new();
    let heavy = selector.highest_weight_selection(&dag, &[h1, g]);
    assert_eq!(heavy, vec![g, h1]);
}
