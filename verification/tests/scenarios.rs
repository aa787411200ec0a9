use hexdump::dump::parse_bytes;

#[test]
fn empty_input_gives_no_rows() {
    let rows = parse_bytes(&[]);
    assert_eq!(rows.len(), 0);
}

#[test]
fn single_printable_byte() {
    let rows = parse_bytes(&[0x41]);
    assert_eq!(rows.len(), 1);
    assert_eq!(rows[0].offset, "0x0000");
    assert_eq!(rows[0].hex, vec!["41".to_string()]);
    assert_eq!(rows[0].ascii, vec!["A".to_string()]);
}

#[test]
fn sixteen_zero_bytes_one_row() {
    let rows = parse_bytes(&[0u8; 16]);
    assert_eq!(rows.len(), 1);
    assert_eq!(rows[0].offset, "0x0000");
    assert_eq!(rows[0].hex.len(), 16);
    assert_eq!(rows[0].ascii.len(), 16);
    for j in 0..16 {
        assert_eq!(rows[0].hex[j], "00");
        assert_eq!(rows[0].ascii[j], ".");
    }
}

#[test]
fn seventeen_spaces_two_rows() {
    let rows = parse_bytes(&[0x20u8; 17]);
    assert_eq!(rows.len(), 2);
    assert_eq!(rows[0].offset, "0x0000");
    assert_eq!(rows[0].hex.len(), 16);
    for j in 0..16 {
        assert_eq!(rows[0].hex[j], "20");
        assert_eq!(rows[0].ascii[j], " ");
    }
    assert_eq!(rows[1].offset, "0x0010");
    assert_eq!(rows[1].hex.len(), 1);
    assert_eq!(rows[1].hex[0], "20");
    assert_eq!(rows[1].ascii[0], " ");
}

#[test]
fn ff_byte_not_printable() {
    let rows = parse_bytes(&[0xFF]);
    assert_eq!(rows[0].hex[0], "FF");
    assert_eq!(rows[0].ascii[0], ".");
}

#[test]
fn tab_rendered_literally() {
    let rows = parse_bytes(&[0x09]);
    assert_eq!(rows[0].hex[0], "09");
    assert_eq!(rows[0].ascii[0], "\t");
}
