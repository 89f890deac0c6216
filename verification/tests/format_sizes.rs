use uwgit::format::{empty_diff_label, human_readable_size, size_html_from_sizes, CommitDiffChange};

/// The size text as computed with floating point, unit by unit.
fn float_size(bytes: u64) -> String {
    let mut size = bytes as f64;
    let units = ["B", "KB", "MB", "GB", "TB"];
    let mut unit = 0usize;
    while size >= 1024.0 && unit < units.len() - 1 {
        size /= 1024.0;
        unit += 1;
    }
    if unit == 0 {
        format!("{} {}", bytes, units[unit])
    } else {
        format!("{:.1} {}", size, units[unit])
    }
}

#[test]
fn sizes_in_bytes() {
    assert_eq!(human_readable_size(0), "0 B");
    assert_eq!(human_readable_size(1), "1 B");
    assert_eq!(human_readable_size(512), "512 B");
    assert_eq!(human_readable_size(1023), "1023 B");
}

#[test]
fn sizes_in_larger_units() {
    assert_eq!(human_readable_size(1024), "1.0 KB");
    assert_eq!(human_readable_size(1536), "1.5 KB");
    assert_eq!(human_readable_size(1048576), "1.0 MB");
    assert_eq!(human_readable_size(1073741824), "1.0 GB");
    assert_eq!(human_readable_size(1099511627776), "1.0 TB");
    assert_eq!(human_readable_size(1024 * 1099511627776), "1024.0 TB");
}

#[test]
fn sizes_match_floating_point_formatting() {
    let mut values: Vec<u64> = Vec::new();
    for b in 0..5000u64 {
        values.push(b);
    }
    for k in 1..2000u64 {
        values.push(k * 1024 / 20);
        values.push(k * 51);
        values.push(k * 1024 + 51);
        values.push(k * 1048576 / 20);
        values.push(k * 107374182);
    }
    for shift in 0..64u32 {
        let p = 1u64 << shift;
        values.push(p);
        values.push(p.wrapping_sub(1));
        values.push(p.wrapping_add(1));
        values.push(p / 20 * 3);
    }
    let mut x: u64 = 0x9E3779B97F4A7C15;
    for _ in 0..20000 {
        x ^= x << 13;
        x ^= x >> 7;
        x ^= x << 17;
        values.push(x);
        values.push(x >> (x % 64));
    }
    values.push(u64::MAX);
    values.push(u64::MAX - 1);
    values.push(9007199254740993);
    for v in values {
        assert_eq!(human_readable_size(v), float_size(v), "size {}", v);
    }
}

#[test]
fn size_html_shapes() {
    assert_eq!(
        size_html_from_sizes(Some(1), Some(2048)),
        "<span class=\"size-old\">1 B</span> <span class=\"size-arrow\">→</span> <span class=\"size-new\">2.0 KB</span>"
    );
    assert_eq!(size_html_from_sizes(None, Some(10)), "<span class=\"size-new\">+10 B</span>");
    assert_eq!(size_html_from_sizes(Some(10), None), "<span class=\"size-old\">-10 B</span>");
    assert_eq!(size_html_from_sizes(None, None), "");
}

#[test]
fn empty_labels() {
    assert_eq!(empty_diff_label(false, false, None, Some(0), CommitDiffChange::Added), Some("empty added"));
    assert_eq!(empty_diff_label(false, false, Some(0), None, CommitDiffChange::Deleted), Some("empty deleted"));
    assert_eq!(empty_diff_label(false, false, Some(0), Some(0), CommitDiffChange::Modified), Some("empty"));
    assert_eq!(empty_diff_label(true, false, Some(0), Some(0), CommitDiffChange::Modified), None);
    assert_eq!(empty_diff_label(false, true, None, Some(0), CommitDiffChange::Added), None);
    assert_eq!(empty_diff_label(false, false, None, Some(3), CommitDiffChange::Added), None);
    assert_eq!(empty_diff_label(false, false, Some(0), Some(1), CommitDiffChange::Modified), None);
}
