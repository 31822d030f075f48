//! Dense column-major matrices with composable, non-owning views, and two
//! graph representations, one of which keeps its arcs in such a matrix.

pub mod matrix;
pub mod view;
pub mod graph;
pub mod adj_matrix_graph;
pub mod indirection_graph;
