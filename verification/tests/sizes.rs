use filetoolkit::commands::diskusage::format_size;

#[test]
fn test_format_size() {
    assert_eq!(format_size(0), "0 B");
    assert_eq!(format_size(1024), "1.0 KB");
    assert_eq!(format_size(1048576), "1.0 MB");
}

#[test]
fn format_size_matches_float_formatting() {
    let samples: Vec<u64> = vec![1, 1023, 1024, 1280, 1331, 1536, 1100000, 5_000_000_000, 1 << 40, (1 << 50) + 12345,
        (1u64 << 53) + 1, (1u64 << 53) + 3, u64::MAX, u64::MAX - 1024, 123456789012345678];
    for b in samples {
        let mut size = b as f64;
        let mut unit = 0;
        let units = ["B", "KB", "MB", "GB", "TB"];
        while size >= 1024.0 && unit < 4 {
            size /= 1024.0;
            unit += 1;
        }
        let expected = if unit == 0 { format!("{} {}", b, units[0]) } else { format!("{:.1} {}", size, units[unit]) };
        assert_eq!(format_size(b), expected, "bytes {}", b);
    }
}

fn shown(bytes: u64) -> (usize, f64) {
    let s = format_size(bytes);
    let (num, unit) = s.split_once(' ').unwrap();
    let k = ["B", "KB", "MB", "GB", "TB"].iter().position(|u| *u == unit).unwrap();
    (k, num.parse().unwrap())
}

#[test]
fn larger_sizes_are_never_shown_smaller() {
    let sizes: Vec<u64> = vec![0, 1, 1023, 1024, 1075, 1076, 1_048_575, 1_048_576, 5_000_000_000, 1 << 40, (1 << 50) + 7, u64::MAX - 1, u64::MAX];
    for w in sizes.windows(2) {
        let (ka, na) = shown(w[0]);
        let (kb, nb) = shown(w[1]);
        assert!(ka <= kb, "{} {}", w[0], w[1]);
        if ka == kb {
            assert!(na <= nb, "{} {}", w[0], w[1]);
        }
    }
}
