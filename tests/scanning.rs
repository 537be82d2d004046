use mks_tft_img::scanner::read_gcode;

fn strings(v: &[Vec<u8>]) -> Vec<String> {
    v.iter().map(|l| String::from_utf8(l.clone()).unwrap()).collect()
}

#[test]
fn scan_without_markers_keeps_lines() {
    let doc = read_gcode(b"G28\nG1 X0\n");
    assert_eq!(strings(&doc.header_lines), vec!["G28", "G1 X0"]);
    assert!(doc.image_lines.is_empty());
    assert!(doc.trailer.is_empty());
    assert!(!doc.terminated);
}

#[test]
fn scan_splits_three_regions() {
    let text = b"; header\n;\n; THUMBNAIL_BLOCK_START\n; thumbnail begin 2x2 8\n;  QUJD \n;;\n; thumbnail end\n; THUMBNAIL_BLOCK_END\nG28\nG1 X1\n";
    let doc = read_gcode(text);
    assert_eq!(strings(&doc.header_lines), vec!["; header", ";"]);
    assert_eq!(strings(&doc.image_lines), vec!["thumbnail begin 2x2 8", "QUJD", "thumbnail end"]);
    assert_eq!(doc.trailer, b"G28\nG1 X1\n".to_vec());
    assert!(doc.terminated);
}

#[test]
fn scan_strips_carriage_returns_of_lines() {
    let doc = read_gcode(b"a\r\nb\r\n; THUMBNAIL_BLOCK_START\r\n; x\r\n; THUMBNAIL_BLOCK_END\r\nrest\r\n");
    assert_eq!(strings(&doc.header_lines), vec!["a", "b"]);
    assert_eq!(strings(&doc.image_lines), vec!["x"]);
    assert_eq!(doc.trailer, b"rest\r\n".to_vec());
}

#[test]
fn scan_missing_end_reads_to_end_of_file() {
    let doc = read_gcode(b"h\n; THUMBNAIL_BLOCK_START\n; a\n; b\nG28\n");
    assert_eq!(strings(&doc.header_lines), vec!["h"]);
    assert_eq!(strings(&doc.image_lines), vec!["a", "b", "G28"]);
    assert!(doc.trailer.is_empty());
    assert!(!doc.terminated);
}

#[test]
fn scan_end_before_start_keeps_rest_as_trailer() {
    let doc = read_gcode(b"h\n; THUMBNAIL_BLOCK_END\nx\ny");
    assert_eq!(strings(&doc.header_lines), vec!["h"]);
    assert!(doc.image_lines.is_empty());
    assert_eq!(doc.trailer, b"x\ny".to_vec());
}

#[test]
fn scan_empty_file() {
    let doc = read_gcode(b"");
    assert!(doc.header_lines.is_empty());
    assert!(doc.image_lines.is_empty());
    assert!(doc.trailer.is_empty());
}


#[test]
fn scan_trims_unicode_whitespace() {
    let doc = read_gcode("; THUMBNAIL_BLOCK_START\n;\u{3000} QUJD\u{a0}\t\n;\u{2003}\u{85}\n; THUMBNAIL_BLOCK_END\n".as_bytes());
    assert_eq!(strings(&doc.image_lines), vec!["QUJD"]);
    assert_eq!(doc.image_lines[0], "QUJD".trim().as_bytes().to_vec());
}

#[test]
fn scan_keeps_non_space_multibyte_characters() {
    let doc = read_gcode("; THUMBNAIL_BLOCK_START\n; \u{e9}x\u{2010}\n; THUMBNAIL_BLOCK_END\n".as_bytes());
    assert_eq!(strings(&doc.image_lines), vec!["\u{e9}x\u{2010}"]);
}
