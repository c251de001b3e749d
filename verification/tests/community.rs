use ox_ontology::community::{
    chain_membership, densify_partition, emit_communities, is_singleton_partition,
    project_to_original, DetectionError,
};

#[test]
fn densify_numbers_by_first_appearance() {
    assert_eq!(densify_partition(&[7, 3, 7, 9, 3]), vec![0, 1, 0, 2, 1]);
    assert!(densify_partition(&[]).is_empty());
}

#[test]
fn singleton_partition_counts_distinct_ids() {
    assert!(is_singleton_partition(&[2, 0, 1], 3));
    assert!(!is_singleton_partition(&[0, 0, 1], 3));
    assert!(is_singleton_partition(&[], 0));
}

#[test]
fn projection_follows_the_chain_back_to_original_nodes() {
    let chain = vec![vec![0, 2], vec![1], vec![3, 4]];
    let out = project_to_original(&[5, 6, 5], &chain, 6);
    assert_eq!(out, vec![5, 6, 5, 5, 5, 0]);
}

#[test]
fn chain_membership_composes_refinement_with_chain() {
    let chain = vec![vec![0, 2], vec![1], vec![3, 4]];
    let next = chain_membership(&[1, 0, 1], &chain, 2);
    assert_eq!(next, vec![vec![1], vec![0, 2, 3, 4]]);
}

#[test]
fn emission_orders_by_size_then_lowest_member() {
    let levels = vec![vec![1, 0, 1, 2, 0, 0], vec![4, 4, 4, 9, 9, 9]];
    let out = emit_communities(&levels);
    assert_eq!(out.len(), 5);
    assert_eq!(out[0].local_id, "c-0-0");
    assert_eq!(out[0].members, vec![1, 4, 5]);
    assert_eq!(out[1].members, vec![0, 2]);
    assert_eq!(out[2].members, vec![3]);
    assert_eq!(out[2].local_id, "c-0-2");
    assert_eq!(out[3].level, 1);
    assert_eq!(out[3].local_id, "c-1-0");
    assert_eq!(out[3].members, vec![0, 1, 2]);
    assert_eq!(out[4].members, vec![3, 4, 5]);
}

#[test]
fn empty_graph_error_has_a_message() {
    assert_eq!(DetectionError::EmptyGraph.message(), "community detection input graph is empty");
}
