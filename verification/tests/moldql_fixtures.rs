use cognicode_explorer::moldql::compile_fixtures::{
    bfs_dual, bfs_predecessors, bfs_reachable, expected_sccs, fixture_edges, FIXTURE_NODES,
};

#[test]
fn fixture_graph_shape() {
    let edges = fixture_edges();
    assert_eq!(edges.len(), 15);
    assert_eq!(FIXTURE_NODES, 10);
    assert!(edges.iter().all(|e| e.from >= 1 && e.from <= 10 && e.to >= 1 && e.to <= 10));
    assert!(edges.iter().all(|e| e.confidence_tenths <= 10));
    assert_eq!(edges[0].provenance, "lsp");
    assert_eq!(edges[4].confidence_tenths, 0);
}

#[test]
fn expected_sccs_pair_the_cycle() {
    let sccs = expected_sccs();
    assert_eq!(sccs.len(), 9);
    assert_eq!(sccs[7], vec![8, 9]);
    assert_eq!(sccs[8], vec![10]);
}

#[test]
fn forward_walks() {
    assert_eq!(bfs_reachable(1, 0), vec![1]);
    assert_eq!(bfs_reachable(1, 1), vec![1, 2, 3, 4, 5, 6]);
    assert_eq!(bfs_reachable(7, 2), vec![7, 8, 9]);
    assert_eq!(bfs_reachable(4, 5), vec![4]);
}

#[test]
fn backward_walks() {
    assert_eq!(bfs_predecessors(4, 1), vec![1, 2, 3, 4, 6]);
    assert_eq!(bfs_predecessors(1, 3), vec![1]);
    assert_eq!(bfs_predecessors(9, 1), vec![8, 9]);
}

#[test]
fn dual_walks() {
    assert_eq!(bfs_dual(10, 3), vec![10]);
    assert_eq!(bfs_dual(8, 1), vec![7, 8, 9]);
    assert_eq!(bfs_dual(3, 1), vec![1, 2, 3, 4, 5]);
}

#[test]
fn walks_grow_with_hops_and_keep_the_root() {
    for root in 1..=10u32 {
        for k in 0..4u32 {
            for (small, big) in [
                (bfs_reachable(root, k), bfs_reachable(root, k + 1)),
                (bfs_predecessors(root, k), bfs_predecessors(root, k + 1)),
                (bfs_dual(root, k), bfs_dual(root, k + 1)),
            ] {
                assert!(small.contains(&root));
                assert!(small.iter().all(|n| big.contains(n)));
                assert!(small.windows(2).all(|w| w[0] < w[1]));
            }
            let dual = bfs_dual(root, k);
            assert!(bfs_reachable(root, k).iter().all(|n| dual.contains(n)));
            assert!(bfs_predecessors(root, k).iter().all(|n| dual.contains(n)));
        }
    }
}
