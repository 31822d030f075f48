use matrix_views::adj_matrix_graph::MatrixGraph;
use matrix_views::graph::{ExtendableGraph, Graph};
use matrix_views::indirection_graph::IndirectionGraph;
use matrix_views::matrix::Matrix;

fn sample_matrix_graph() -> MatrixGraph<char, u32> {
    let mut adj = Matrix::new(3, 3).fill(None);
    *adj.index_mut((0, 1)) = Some(4);
    *adj.index_mut((0, 2)) = Some(9);
    *adj.index_mut((2, 0)) = Some(1);
    MatrixGraph::new(vec!['a', 'b', 'c'], adj)
}

#[test]
fn matrix_graph_neighbours() {
    let g = sample_matrix_graph();
    assert_eq!(g.get_neighbours(0), vec![1, 2]);
    assert_eq!(g.get_neighbours(1), Vec::<usize>::new());
    assert_eq!(g.get_neighbours(2), vec![0]);
}

#[test]
fn matrix_graph_arcs() {
    let g = sample_matrix_graph();
    assert_eq!(g.get_arc(0, 2), Some(&9));
    assert_eq!(g.get_arc(2, 0), Some(&1));
    assert_eq!(g.get_arc(1, 0), None);
}

#[test]
fn matrix_graph_vertices() {
    let g = sample_matrix_graph();
    assert_eq!(g.vertices(), &vec!['a', 'b', 'c']);
    assert_eq!(g.get_first(), 0);
    assert_eq!(g.get_idx(&'c'), 2);
    assert_eq!(g.get_idx(&'a'), 0);
}

#[test]
fn indirection_graph_builds() {
    let g: IndirectionGraph<u32, &str> = IndirectionGraph::new()
        .with_start(&1)
        .with_edge(&1, &2, "x")
        .with_edge(&2, &3, "y");
    assert_eq!(g.vertices(), &vec![1, 2, 3]);
    assert_eq!(g.get_first(), 0);
    assert_eq!(g.get_neighbours(0), vec![1]);
    assert_eq!(g.get_neighbours(1), vec![2]);
    assert_eq!(g.get_neighbours(2), Vec::<usize>::new());
    assert_eq!(g.get_arc(0, 1), Some(&"x"));
    assert_eq!(g.get_arc(1, 2), Some(&"y"));
    assert_eq!(g.get_arc(1, 0), None);
}

#[test]
fn indirection_graph_last_arc_wins() {
    let mut g: IndirectionGraph<u32, u32> = IndirectionGraph::new();
    g.push_edge(5, 6, 10);
    g.push_edge(5, 6, 30);
    assert_eq!(g.vertices(), &vec![6, 5]);
    assert_eq!(g.get_arc(1, 0), Some(&30));
    assert_eq!(g.get_neighbours(1), vec![0, 0]);
}

#[test]
fn indirection_graph_start_existing_vertex() {
    let g: IndirectionGraph<u32, u32> = IndirectionGraph::new()
        .with_edge(&7, &8, 1)
        .with_start(&7);
    assert_eq!(g.vertices(), &vec![8, 7]);
    assert_eq!(g.get_first(), 1);
}

#[test]
fn indirection_graph_self_loop() {
    let g: IndirectionGraph<u32, u32> = IndirectionGraph::new().with_edge(&4, &4, 2);
    assert_eq!(g.vertices(), &vec![4]);
    assert_eq!(g.get_arc(0, 0), Some(&2));
}
