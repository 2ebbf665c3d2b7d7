use lunar_render::clusters::{cluster_light_table, cluster_plan, ClusterPlan, MAX_LIGHTS_PER_CLUSTER, NUM_CLUSTERS};

#[test]
fn cluster_plan_uses_compute_for_many_lights_with_indirect() {
    assert_eq!(cluster_plan(9, true, 3), (ClusterPlan::Compute, usize::MAX));
    assert_eq!(cluster_plan(9, false, 3), (ClusterPlan::UploadTable, 9));
    assert_eq!(cluster_plan(8, true, 8), (ClusterPlan::Keep, 8));
    assert_eq!(cluster_plan(5, true, usize::MAX), (ClusterPlan::UploadTable, 5));
    assert_eq!(cluster_plan(0, false, 0), (ClusterPlan::Keep, 0));
}

#[test]
fn cluster_table_lists_every_light_in_every_cluster() {
    let (counts, indices) = cluster_light_table(3);
    assert_eq!(NUM_CLUSTERS, 3456);
    assert_eq!(counts.len(), NUM_CLUSTERS);
    assert!(counts.iter().all(|&c| c == 3));
    assert_eq!(indices.len(), NUM_CLUSTERS * MAX_LIGHTS_PER_CLUSTER);
    assert_eq!(&indices[0..5], &[0, 1, 2, 0, 0]);
    let last = (NUM_CLUSTERS - 1) * MAX_LIGHTS_PER_CLUSTER;
    assert_eq!(&indices[last..last + 4], &[0, 1, 2, 0]);
    assert!(indices[last + 3..].iter().all(|&i| i == 0));
}
