//! The DAG of vertices: vertices and their validation, the graph with its
//! tips and ancestry, tip selection and BFT finality.

pub mod vertex;
pub mod graph;
pub mod finality;
pub mod tip_selection;
