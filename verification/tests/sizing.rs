use fastetcd::sizing::{
    can_report, estimate, human, report, round_up_pow2, ClusterShape, FIXED_CLUSTER_BYTES,
};

fn shape(nodes: u64) -> ClusterShape {
    ClusterShape {
        nodes,
        ..ClusterShape::default()
    }
}

#[test]
fn a_hundred_node_cluster_wants_a_gigabyte() {
    let e = estimate(shape(100));
    // Live data for 100 nodes at 30 pods each lands around 65 MiB:
    // 32 fixed + 1 node + 23 pods + 6 events.
    assert!(
        (60 * 1024 * 1024..80 * 1024 * 1024).contains(&e.live_bytes),
        "live {} outside the expected band",
        human(e.live_bytes)
    );
    // And the provisioned volume is 1 GiB — which is what the
    // snapshot-plus-backup terms do to a 65 MiB dataset.
    assert_eq!(e.provision_bytes, 1024 * 1024 * 1024, "{}", report(shape(100)));
}

#[test]
fn the_snapshot_term_roughly_doubles_the_floor() {
    // Sizing for the database alone is the mistake this module
    // exists to prevent.
    let e = estimate(shape(100));
    assert!(
        e.snapshot_bytes * 2 > e.db_bytes,
        "a snapshot ({}) must be the same order as the database ({})",
        human(e.snapshot_bytes),
        human(e.db_bytes)
    );
    assert!(
        e.working_set_bytes > e.db_bytes * 2,
        "the working set {} must dwarf the database {}",
        human(e.working_set_bytes),
        human(e.db_bytes)
    );
}

#[test]
fn a_single_node_cluster_still_pays_the_fixed_floor() {
    let e = estimate(shape(1));
    assert!(e.live_bytes > FIXED_CLUSTER_BYTES);
    // Small clusters are dominated by the fixed floor, so the
    // recommendation must not collapse to something unusable — the
    // 64 MiB volume is exactly what this prevents.
    assert!(
        e.provision_bytes >= 256 * 1024 * 1024,
        "even one node needs {} provisioned, got {}",
        human(256 * 1024 * 1024),
        human(e.provision_bytes)
    );
}

/// The ladder, pinned. Without this the model's *shape* is implied
/// rather than stated, and "does a 1000-node cluster really need
/// more than a 100-node one?" is a fair question to have to answer
/// from the code.
#[test]
fn the_sizing_ladder_is_what_the_docs_claim() {
    let ladder: Vec<(u64, u64, u64)> = [1u64, 10, 100, 500, 1000, 5000]
        .iter()
        .map(|n| {
            let e = estimate(shape(*n));
            (*n, e.recommended_volume_bytes, e.provision_bytes)
        })
        .collect();

    let mib = 1024 * 1024;
    let gib = 1024 * mib;
    let provisioned: Vec<u64> = ladder.iter().map(|(_, _, p)| *p).collect();
    assert_eq!(
        provisioned,
        vec![512 * mib, 512 * mib, gib, 2 * gib, 4 * gib, 16 * gib],
        "sizing ladder changed: {ladder:?}"
    );

    // 100 and 1000 nodes are emphatically not the same size.
    let hundred = estimate(shape(100)).recommended_volume_bytes;
    let thousand = estimate(shape(1000)).recommended_volume_bytes;
    assert!(
        thousand > hundred * 4,
        "1000 nodes ({}) must dwarf 100 nodes ({})",
        human(thousand),
        human(hundred)
    );
}

/// Small clusters *do* land in the same bucket, and that is the
/// model telling the truth rather than failing: below ~50 nodes the
/// estimate is fixed cluster overhead multiplied by the snapshot and
/// backup terms, so there is nothing to shave by counting nodes.
#[test]
fn small_clusters_are_dominated_by_fixed_cost_not_node_count() {
    let one = estimate(shape(1));
    let ten = estimate(shape(10));
    assert_eq!(
        one.provision_bytes, ten.provision_bytes,
        "1 and 10 nodes provision the same; the difference is {} of live data",
        human(ten.live_bytes - one.live_bytes)
    );
    // The node-proportional part is a rounding error at this size.
    let variable = ten.live_bytes - FIXED_CLUSTER_BYTES;
    assert!(
        variable < FIXED_CLUSTER_BYTES / 8,
        "10 nodes' variable term {} should be dwarfed by the {} floor",
        human(variable),
        human(FIXED_CLUSTER_BYTES)
    );
    // The crossover — where nodes start to matter more than the
    // floor — is around 100 nodes at default density.
    let hundred = estimate(shape(100));
    assert!(
        hundred.live_bytes - FIXED_CLUSTER_BYTES > FIXED_CLUSTER_BYTES / 2,
        "by 100 nodes the variable term {} should rival the floor",
        human(hundred.live_bytes - FIXED_CLUSTER_BYTES)
    );
}

#[test]
fn the_estimate_grows_with_the_cluster() {
    let sizes: Vec<u64> = [1u64, 10, 100, 500, 1000]
        .iter()
        .map(|n| estimate(shape(*n)).recommended_volume_bytes)
        .collect();
    for pair in sizes.windows(2) {
        assert!(pair[1] > pair[0], "estimate must be monotonic: {sizes:?}");
    }
}

#[test]
fn every_figure_follows_the_number_of_nodes() {
    for n in [1u64, 10, 100, 500, 1000] {
        let small = estimate(shape(n));
        let large = estimate(shape(n + 1));
        assert!(small.live_bytes < large.live_bytes);
        assert!(small.db_bytes < large.db_bytes);
        assert!(small.peak_bytes < large.peak_bytes);
        assert!(small.recommended_volume_bytes < large.recommended_volume_bytes);
        assert!(small.provision_bytes <= large.provision_bytes);
    }
}

#[test]
fn a_report_is_given_where_its_numbers_fit() {
    assert!(can_report(shape(0)));
    assert!(can_report(shape(1 << 40)));
    assert!(!can_report(shape(u64::MAX)));
    assert!(!can_report(ClusterShape { pods_per_node: u64::MAX, ..shape(2) }));
}

#[test]
fn pod_density_dominates_the_variable_term() {
    // Pods, not nodes, are what a Kubernetes datastore is mostly
    // made of — which is why `--pods-per-node` exists and why
    // sizing from node count alone under-reads a dense cluster.
    let sparse = estimate(shape(100));
    let dense = estimate(ClusterShape {
        nodes: 100,
        pods_per_node: 110,
        ..ClusterShape::default()
    });

    // The part that scales more than triples with density...
    let sparse_var = sparse.live_bytes - FIXED_CLUSTER_BYTES;
    let dense_var = dense.live_bytes - FIXED_CLUSTER_BYTES;
    assert!(
        dense_var > sparse_var * 3,
        "variable term should scale with density: {} -> {}",
        human(sparse_var),
        human(dense_var)
    );

    // ...while the total does not even double, because the fixed
    // cluster floor is half the estimate at this size. That floor is
    // why a small cluster cannot be given a small volume.
    assert!(
        dense.live_bytes < sparse.live_bytes * 2,
        "the fixed floor should damp the total: {} -> {}",
        human(sparse.live_bytes),
        human(dense.live_bytes)
    );
    assert!(
        FIXED_CLUSTER_BYTES > sparse.live_bytes / 3,
        "the fixed floor is a large share of a 100-node estimate"
    );
}

#[test]
fn rounding_goes_up_to_a_provisionable_size() {
    assert_eq!(round_up_pow2(1), 256 * 1024 * 1024);
    assert_eq!(round_up_pow2(300 * 1024 * 1024), 512 * 1024 * 1024);
    assert_eq!(round_up_pow2(512 * 1024 * 1024), 512 * 1024 * 1024);
    assert_eq!(round_up_pow2(513 * 1024 * 1024), 1024 * 1024 * 1024);
}

#[test]
fn sizes_read_as_an_operator_writes_them() {
    assert_eq!(human(0), "0 B");
    assert_eq!(human(1023), "1023 B");
    assert_eq!(human(1024), "1.0 KiB");
    assert_eq!(human(1536), "1.5 KiB");
    assert_eq!(human(10_240), "10.0 KiB");
    assert_eq!(human(33_554_432), "32.0 MiB");
    assert_eq!(human(1 << 30), "1.0 GiB");
    assert_eq!(human(1 << 50), "1024.0 TiB");
    assert_eq!(human(u64::MAX), "16777216.0 TiB");
}

#[test]
fn sizes_round_as_floating_point_does() {
    fn float(bytes: u64) -> String {
        let units = ["B", "KiB", "MiB", "GiB", "TiB"];
        let mut v = bytes as f64;
        let mut unit = 0;
        while v >= 1024.0 && unit < units.len() - 1 {
            v /= 1024.0;
            unit += 1;
        }
        if unit == 0 {
            format!("{bytes} B")
        } else {
            format!("{v:.1} {}", units[unit])
        }
    }
    let mut x: u64 = 1;
    for _ in 0..20_000 {
        x = x.wrapping_mul(6364136223846793005).wrapping_add(1442695040888963407);
        for shift in [0, 7, 13, 20, 33, 41, 52, 60] {
            let n = x >> shift;
            assert_eq!(human(n), float(n), "{n}");
        }
    }
    for k in 10..64u32 {
        let p = 1u64 << k;
        for n in [p - 1, p, p + 1, p + p / 20, p + p / 4, p + p / 8, p - p / 2048] {
            assert_eq!(human(n), float(n), "{n}");
        }
    }
    // Exact halves of a tenth go to the even digit.
    for n in [1280u64, 1792, 2304, 2816, 1024 * 1024 + 1024 * 256, 1024 * 1024 * 3 / 4 + 1024 * 1024] {
        assert_eq!(human(n), float(n), "{n}");
    }
}

#[test]
fn the_report_shows_its_arithmetic() {
    let text = report(shape(100));
    let first: Vec<&str> = text.lines().take(5).collect();
    assert_eq!(first[0], "Cluster shape: 100 node(s), 30 pods/node (3000 pods)");
    assert_eq!(
        first[1],
        "Store settings: --snapshot-count 5000, --max-snapshots 1, --upgrade-backup-retain 2"
    );
    assert_eq!(first[3], "What occupies the volume:");
    assert_eq!(
        first[4],
        format!(
            "  live objects              {:>10}   (32.0 MiB fixed + 10.0 KiB/node + 8.0 KiB/pod)",
            human(estimate(shape(100)).live_bytes)
        )
    );
    assert!(text.contains("PROVISION                      1.0 GiB\n"));
    assert!(text.ends_with("Sizing for the data alone is how a volume fills.\n"));
}

#[test]
fn a_hundred_nodes_give_these_terms() {
    let e = estimate(shape(100));
    assert_eq!(e.live_bytes, 33_554_432 + 100 * 10_240 + 3000 * 8_192 + 100 * 65_536);
    assert_eq!(e.history_bytes, e.live_bytes * 30 / 100);
    assert_eq!(e.log_bytes, 5000 * 2048);
    assert_eq!(e.backup_bytes, e.db_bytes);
}
