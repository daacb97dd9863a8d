use gluttony::display::{
    bar_cells, bar_scale, display_path, fmt_count, group_artifacts, human_size, list_columns,
    results_header, size_tier, table_row, Group, SizeTier, BAR_W,
};
use gluttony::scanner::{Artifact, ArtifactKind};

fn art(path: &str, kind: ArtifactKind, size: u64) -> Artifact {
    Artifact { path: path.to_string(), kind, size }
}

#[test]
fn human_size_boundaries() {
    assert_eq!(human_size(0), "0 B");
    assert_eq!(human_size(999), "999 B");
    assert_eq!(human_size(1_000), "1.00 KB");
    assert_eq!(human_size(1_500_000), "1.50 MB");
    assert_eq!(human_size(2_000_000_000), "2.00 GB");
}

#[test]
fn human_size_rounds_to_two_places() {
    assert_eq!(human_size(1_234), "1.23 KB");
    assert_eq!(human_size(1_236), "1.24 KB");
    assert_eq!(human_size(999_999), "1000.00 KB");
    assert_eq!(human_size(1_000_000), "1.00 MB");
    assert_eq!(human_size(123_456_789_012), "123.46 GB");
    assert_eq!(human_size(u64::MAX), "18446744073.71 GB");
}

#[test]
fn human_size_rounds_the_double() {
    // 1.125 is a double, so the tie goes to even; 1.015 is not, and its
    // double lies just below.
    assert_eq!(human_size(1_125), "1.12 KB");
    assert_eq!(human_size(1_135), "1.14 KB");
    assert_eq!(human_size(1_015), "1.01 KB");
    assert_eq!(human_size(1_005), "1.00 KB");
    assert_eq!(human_size(1_025), "1.02 KB");
    assert_eq!(human_size(1_024), "1.02 KB");
}

#[test]
fn human_size_matches_float_formatting() {
    let mut b: u64 = 1;
    while b < u64::MAX / 3 {
        for n in [b, b + 5, b * 3 + 5, b * 7 + 15] {
            let expected = if n >= 1_000_000_000 {
                format!("{:.2} GB", n as f64 / 1e9)
            } else if n >= 1_000_000 {
                format!("{:.2} MB", n as f64 / 1e6)
            } else if n >= 1_000 {
                format!("{:.2} KB", n as f64 / 1e3)
            } else {
                format!("{} B", n)
            };
            assert_eq!(human_size(n), expected, "{}", n);
        }
        b = b * 2 + 1;
    }
    for n in 1_000..20_000u64 {
        assert_eq!(human_size(n), format!("{:.2} KB", n as f64 / 1e3), "{}", n);
    }
}

#[test]
fn fmt_count_adds_separators() {
    assert_eq!(fmt_count(0), "0");
    assert_eq!(fmt_count(999), "999");
    assert_eq!(fmt_count(1_000), "1,000");
    assert_eq!(fmt_count(1_697), "1,697");
    assert_eq!(fmt_count(1_000_000), "1,000,000");
}

#[test]
fn fmt_count_largest_value() {
    assert_eq!(fmt_count(u64::MAX), "18,446,744,073,709,551,615");
    assert_eq!(fmt_count(1_000_001).replace(',', ""), "1000001");
}

#[test]
fn bar_cells_proportional() {
    assert_eq!(bar_cells(100, 100), BAR_W);
    assert_eq!(bar_cells(0, 100), 0);
    assert_eq!(bar_cells(50, 100), BAR_W / 2);
    assert_eq!(bar_cells(0, 0), 0);
}

#[test]
fn bar_cells_rounds_halves_up_and_saturates() {
    // 1/40 of the bar is half a cell.
    assert_eq!(bar_cells(1, 40), 1);
    assert_eq!(bar_cells(1, 41), 0);
    assert_eq!(bar_cells(200, 100), 40);
    assert_eq!(bar_cells(u64::MAX, 1), usize::MAX);
}

fn bar_in_doubles(size: u64, max: u64) -> usize {
    if max == 0 {
        return 0;
    }
    ((size as f64 / max as f64) * BAR_W as f64).round() as usize
}

#[test]
fn bar_cells_match_double_arithmetic() {
    let cases: [(u64, u64); 10] = [
        (7_706_372_238_625_160, 8_331_213_230_946_120),
        (4_052_347_270_092_702, 4_380_915_967_667_786),
        (15_237_563_951_962_310_734, 17_414_358_802_242_640_840),
        (2_872_709_865_710_263_010, 12_767_599_403_156_724_502),
        (3, 40),
        (123_456_789, 987_654_321),
        (u64::MAX, u64::MAX),
        (u64::MAX - 1, u64::MAX),
        (1, u64::MAX),
        (u64::MAX, 3),
    ];
    for (size, max) in cases {
        assert_eq!(bar_cells(size, max), bar_in_doubles(size, max), "{size} / {max}");
    }
    let mut x: u64 = 0x9E37_79B9_7F4A_7C15;
    for _ in 0..20_000 {
        x ^= x << 13;
        x ^= x >> 7;
        x ^= x << 17;
        let max = x >> (x % 60);
        let size = if max == 0 { 0 } else { (x.rotate_left(17)) % (max.saturating_add(1)) };
        let t = max / 40;
        let near = t.saturating_mul((x % 20) * 2 + 1);
        assert_eq!(bar_cells(size, max), bar_in_doubles(size, max), "{size} / {max}");
        assert_eq!(bar_cells(near, max), bar_in_doubles(near, max), "{near} / {max}");
        assert!(bar_cells(size, max) <= BAR_W);
    }
}

#[test]
fn size_tiers() {
    assert_eq!(size_tier(1_000_000_000), SizeTier::Large);
    assert_eq!(size_tier(999_999_999), SizeTier::Medium);
    assert_eq!(size_tier(100_000_000), SizeTier::Medium);
    assert_eq!(size_tier(99_999_999), SizeTier::Small);
}

#[test]
fn groups_sorted_by_total_with_counts() {
    let arts = vec![
        art("/a/node_modules", ArtifactKind::NodeModules, 10),
        art("/b/target", ArtifactKind::BuildTarget, 50),
        art("/c/node_modules", ArtifactKind::NodeModules, 30),
        art("/d/__pycache__", ArtifactKind::Pycache, 40),
    ];
    let groups = group_artifacts(&arts);
    assert_eq!(groups.len(), 3);
    assert_eq!(groups[0].kind, ArtifactKind::BuildTarget);
    assert_eq!(groups[0].total, 50);
    assert_eq!(groups[1].kind, ArtifactKind::NodeModules);
    assert_eq!(groups[1].count, 2);
    assert_eq!(groups[1].total, 40);
    assert_eq!(groups[2].kind, ArtifactKind::Pycache);
    assert_eq!(groups[2].total, 40);
}

#[test]
fn groups_add_up_to_the_whole() {
    let arts = vec![
        art("/a", ArtifactKind::NodeModules, 7),
        art("/b", ArtifactKind::GradleCache, 3),
        art("/c", ArtifactKind::NodeModules, 5),
        art("/d", ArtifactKind::DockerData, 0),
    ];
    let groups = group_artifacts(&arts);
    let total: u64 = groups.iter().map(|g| g.total).sum();
    let count: usize = groups.iter().map(|g| g.count).sum();
    assert_eq!(total, 15);
    assert_eq!(count, 4);
}

#[test]
fn groups_of_nothing() {
    assert!(group_artifacts(&[]).is_empty());
}

#[test]
fn table_row_columns_and_bar() {
    let g = Group { kind: ArtifactKind::NodeModules, count: 1234, total: 1_500_000 };
    let row = table_row(&g, 3_000_000);
    assert_eq!(row.type_col, "node_modules      ");
    assert_eq!(row.count_col, "  1,234");
    assert_eq!(row.size_col, "   1.50 MB");
    assert_eq!(row.filled, 10);
    assert_eq!(row.empty, 10);
    let small = table_row(&g, 0);
    assert_eq!(small.filled, 0);
    assert_eq!(small.empty, BAR_W);
    let over = table_row(&g, 500_000);
    assert_eq!(over.filled, BAR_W);
    assert_eq!(over.empty, 0);
}

#[test]
fn bar_scale_is_first_total() {
    assert_eq!(bar_scale(&vec![]), 0);
    let gs = vec![
        Group { kind: ArtifactKind::Pycache, count: 1, total: 9 },
        Group { kind: ArtifactKind::ToxEnv, count: 1, total: 3 },
    ];
    assert_eq!(bar_scale(&gs), 9);
}

#[test]
fn results_header_text() {
    assert_eq!(
        results_header(2_000_000_000, 1, "0.50s"),
        "  2.00 GB reclaimable — 1 artefact found in 0.50s"
    );
    assert_eq!(
        results_header(5, 1500, "1.00s"),
        "  5 B reclaimable — 1,500 artefacts found in 1.00s"
    );
}

#[test]
fn display_path_under_home() {
    assert_eq!(display_path("/home/ann/code/target", Some("/home/ann")), "~/code/target");
    assert_eq!(display_path("/home/ann", Some("/home/ann")), "~/");
    assert_eq!(display_path("/home/annex/x", Some("/home/ann")), "/home/annex/x");
    assert_eq!(display_path("/srv/x", None), "/srv/x");
    assert_eq!(display_path("C:\\work\\target", None), "C:/work/target");
}

#[test]
fn list_columns_text() {
    let a = art("/home/ann/p/node_modules", ArtifactKind::NodeModules, 1_000);
    let (pos, label, size, path) = list_columns(0, &a, Some("/home/ann"));
    assert_eq!(pos, "   1");
    assert_eq!(label, "node_modules      ");
    assert_eq!(size, "   1.00 KB");
    assert_eq!(path, "~/p/node_modules");
}

#[test]
fn one_row_per_kind_with_its_count_and_total() {
    let arts = vec![
        art("/a/node_modules", ArtifactKind::NodeModules, 5),
        art("/a/target", ArtifactKind::BuildTarget, 9),
        art("/b/node_modules", ArtifactKind::NodeModules, 7),
        art("/c/target", ArtifactKind::BuildTarget, 1),
        art("/d/.gradle", ArtifactKind::GradleCache, 3),
    ];
    let groups = group_artifacts(&arts);
    assert_eq!(groups.len(), 3);
    let row = |k: ArtifactKind| groups.iter().filter(|g| g.kind == k).map(|g| (g.count, g.total)).collect::<Vec<_>>();
    assert_eq!(row(ArtifactKind::NodeModules), vec![(2, 12)]);
    assert_eq!(row(ArtifactKind::BuildTarget), vec![(2, 10)]);
    assert_eq!(row(ArtifactKind::GradleCache), vec![(1, 3)]);
}

#[test]
fn counts_in_groups_of_three() {
    for n in [0u64, 7, 42, 999, 1_000, 12_345, 999_999, 1_000_000, 123_456_789, u64::MAX] {
        let s = fmt_count(n);
        let groups: Vec<&str> = s.split(',').collect();
        assert!((1..=3).contains(&groups[0].len()), "{s}");
        assert!(groups[1..].iter().all(|g| g.len() == 3), "{s}");
        assert_eq!(s.replace(',', ""), n.to_string());
    }
}
