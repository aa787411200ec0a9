use hexdump::dump::parse_bytes;

#[test]
fn hex_cells_total_matches_input_len() {
    for len in [0usize, 1, 15, 16, 17, 31, 32, 40, 100] {
        let input: Vec<u8> = (0..len).map(|i| (i % 251) as u8).collect();
        let rows = parse_bytes(&input);
        let total: usize = rows.iter().map(|r| r.hex.len()).sum();
        assert_eq!(total, len);
    }
}

#[test]
fn row_count_is_ceiling() {
    for (len, want) in [(0usize, 0usize), (1, 1), (15, 1), (16, 1), (17, 2), (31, 2), (32, 2), (33, 3)] {
        let input = vec![0u8; len];
        assert_eq!(parse_bytes(&input).len(), want);
    }
}

#[test]
fn all_rows_full_but_last() {
    let rows = parse_bytes(&[7u8; 33]);
    assert_eq!(rows.len(), 3);
    assert_eq!(rows[0].hex.len(), 16);
    assert_eq!(rows[1].hex.len(), 16);
    assert_eq!(rows[2].hex.len(), 1);

    let rows = parse_bytes(&[7u8; 32]);
    assert_eq!(rows.len(), 2);
    assert_eq!(rows[1].hex.len(), 16);
}

#[test]
fn hex_and_ascii_align() {
    let input: Vec<u8> = (0..77u8).collect();
    for row in parse_bytes(&input) {
        assert_eq!(row.hex.len(), row.ascii.len());
    }
}

#[test]
fn offsets_increase_by_sixteen() {
    let rows = parse_bytes(&[0u8; 40]);
    assert_eq!(rows[0].offset, "0x0000");
    assert_eq!(rows[1].offset, "0x0010");
    assert_eq!(rows[2].offset, "0x0020");
    for w in rows.windows(2) {
        assert_ne!(w[0].offset, w[1].offset);
    }
}

#[test]
fn rerun_gives_identical_output() {
    let input: Vec<u8> = (0..200usize).map(|i| (i * 37 % 256) as u8).collect();
    let first = parse_bytes(&input);
    let second = parse_bytes(&input);
    assert_eq!(first.len(), second.len());
    for (a, b) in first.iter().zip(second.iter()) {
        assert_eq!(a.offset, b.offset);
        assert_eq!(a.hex, b.hex);
        assert_eq!(a.ascii, b.ascii);
    }
}

#[test]
fn large_offset_keeps_all_digits() {
    let input = vec![0x41u8; 0x10001];
    let rows = parse_bytes(&input);
    assert_eq!(rows.len(), 0x1001);
    assert_eq!(rows[0xFFF].offset, "0xFFF0");
    assert_eq!(rows[0x1000].offset, "0x10000");
    assert_eq!(rows[0x1000].hex.len(), 1);
}

#[test]
fn every_byte_value_renders_as_specified() {
    let input: Vec<u8> = (0u8..=255).collect();
    let rows = parse_bytes(&input);
    assert_eq!(rows.len(), 16);
    for b in 0u8..=255 {
        let row = &rows[(b / 16) as usize];
        let j = (b % 16) as usize;
        assert_eq!(row.hex[j], format!("{:02X}", b));
        let printable = (0x21..=0x7E).contains(&b) || b == 0x20 || (0x09..=0x0D).contains(&b);
        if printable {
            assert_eq!(row.ascii[j], (b as char).to_string());
        } else {
            assert_eq!(row.ascii[j], ".");
        }
    }
}

#[test]
fn vertical_tab_is_whitespace() {
    let rows = parse_bytes(&[0x0B, 0x0C]);
    assert_eq!(rows[0].ascii[0], "\u{000B}");
    assert_eq!(rows[0].ascii[1], "\u{000C}");
}
