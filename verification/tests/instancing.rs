use lunar_render::instancing::{instance_runs, DrawRunKey, InstanceRun};

fn k(mesh: u32, material: u32) -> DrawRunKey {
    DrawRunKey { mesh, material, lightmap: u32::MAX, dir_lightmap: u32::MAX }
}

#[test]
fn consecutive_equal_keys_share_a_call() {
    let keys = vec![k(1, 1), k(1, 1), k(2, 1), k(2, 3), k(2, 3), k(2, 3)];
    assert_eq!(
        instance_runs(&keys, 6),
        vec![
            InstanceRun { key: k(1, 1), first: 0, count: 2 },
            InstanceRun { key: k(2, 1), first: 2, count: 1 },
            InstanceRun { key: k(2, 3), first: 3, count: 3 },
        ]
    );
}

#[test]
fn walk_stops_at_the_end_index() {
    let keys = vec![k(1, 1), k(1, 1), k(9, 9)];
    assert_eq!(instance_runs(&keys, 2), vec![InstanceRun { key: k(1, 1), first: 0, count: 2 }]);
    assert!(instance_runs(&keys, 0).is_empty());
}
