use base64::Engine;
use mks_tft_img::formatter::PixelGrid;
use mks_tft_img::pipeline::{decode_thumbnail, payload_text, process_gcode, ThumbnailError};
use mks_tft_img::rewriter::{provenance_comment, rewrite_gcode, Provenance};
use mks_tft_img::scanner::read_gcode;
use mks_tft_img::codec::Rgb;

fn png_10x10() -> Vec<u8> {
    let img = image::RgbImage::from_fn(10, 10, |x, y| image::Rgb([(x * 25) as u8, (y * 25) as u8, 128]));
    let mut out = std::io::Cursor::new(Vec::new());
    img.write_to(&mut out, image::ImageFormat::Png).unwrap();
    out.into_inner()
}

fn embed(encoded: &str) -> Vec<u8> {
    let mut text = String::from("; generated by slicer\n; layer_height = 0.2\n;\n; THUMBNAIL_BLOCK_START\n;\n; thumbnail begin 10x10 123\n");
    for chunk in encoded.as_bytes().chunks(78) {
        text.push_str("; ");
        text.push_str(std::str::from_utf8(chunk).unwrap());
        text.push('\n');
    }
    text.push_str("; thumbnail end\n;\n; THUMBNAIL_BLOCK_END\nG28\nG1 X10 Y10\n");
    text.into_bytes()
}

fn process(content: &[u8]) -> Result<Option<Vec<u8>>, ThumbnailError> {
    process_gcode(content, 50, 200, &b"1.0.0".to_vec(), &b"https://example.org/repo".to_vec())
}

#[test]
fn unmarked_file_is_left_unchanged() {
    let content = b"G28\nG1 X0 Y0\n; comment\n".to_vec();
    assert!(matches!(process(&content), Ok(None)));
}

#[test]
fn payload_round_trips_through_base64() {
    let png = png_10x10();
    let encoded = base64::engine::general_purpose::STANDARD.encode(&png);
    let doc = read_gcode(&embed(&encoded));
    let text = payload_text(&doc.image_lines);
    assert_eq!(String::from_utf8(text.clone()).unwrap(), encoded);
    assert_eq!(base64::engine::general_purpose::STANDARD.decode(&text).unwrap(), png);
}

#[test]
fn payload_of_fewer_than_two_lines_is_empty() {
    assert!(payload_text(&vec![b"abc".to_vec()]).is_empty());
    assert!(payload_text(&vec![]).is_empty());
    assert_eq!(payload_text(&vec![b"a".to_vec(), b"b".to_vec(), b"c".to_vec(), b"d".to_vec()]), b"bc".to_vec());
}

#[test]
fn embedded_png_is_replaced_by_two_blocks() {
    let png = png_10x10();
    let encoded = base64::engine::general_purpose::STANDARD.encode(&png);
    let out = process(&embed(&encoded)).unwrap().unwrap();
    let text = String::from_utf8(out).unwrap();
    assert!(text.starts_with(";simage:"));
    let g_at = text.find(";;gimage:").unwrap();
    let simage = &text[..g_at];
    let rest = &text[g_at..];
    assert_eq!(simage.matches("\rM10086 ;").count() + 1, 50);
    let g_end = rest.find("\nM10086 ;\n").unwrap();
    let grows: Vec<&str> = rest[";;gimage:".len()..g_end].split("\rM10086 ;").collect();
    assert_eq!(grows.len(), 200);
    assert!(grows.iter().all(|r| r.len() == 800));
    let after = &rest[g_end + "\nM10086 ;\n".len()..];
    assert_eq!(
        after,
        "; generated by slicer\n; layer_height = 0.2\n;\n; MKS_TFT_PREVIEW_POSTPROCESS\n; Post processed by mks_tft_img v1.0.0 (https://example.org/repo)\n;  The original png image was removed from here. Its size was 10x10\n;  simage = 50\n;  gimage = 200\nG28\nG1 X10 Y10\n"
    );
}

#[test]
fn malformed_base64_is_a_decode_error() {
    let content = embed("!!!not base64!!!");
    assert!(matches!(process(&content), Err(ThumbnailError::Base64(_))));
}

#[test]
fn missing_end_marker_is_rejected() {
    let content = b"h\n; THUMBNAIL_BLOCK_START\n; thumbnail begin 1x1 4\n; QUJD\n; thumbnail end\nG28\n".to_vec();
    assert!(matches!(process(&content), Err(ThumbnailError::Unterminated)));
}

#[test]
fn bytes_of_no_known_format_are_rejected() {
    let lines = vec![b"begin".to_vec(), b"QUJDREVG".to_vec(), b"end".to_vec()];
    match decode_thumbnail(&lines) {
        Err(ThumbnailError::Image(format, _)) => assert_eq!(format, b"UNKNOWN".to_vec()),
        other => panic!("unexpected: {:?}", other.map(|t| t.width)),
    }
}

#[test]
fn one_line_thumbnail_is_left_unchanged() {
    let content = b"h\n; THUMBNAIL_BLOCK_START\n; QUJD\n; THUMBNAIL_BLOCK_END\nG28\n".to_vec();
    assert!(matches!(process(&content), Ok(None)));
    let unterminated = b"h\n; THUMBNAIL_BLOCK_START\n; QUJD\nG28\n".to_vec();
    assert!(matches!(process(&unterminated), Err(ThumbnailError::Unterminated)));
}

#[test]
fn wide_image_is_resized_within_square() {
    let img = image::RgbImage::from_fn(20, 10, |x, _| image::Rgb([(x * 10) as u8, 0, 0]));
    let mut png = std::io::Cursor::new(Vec::new());
    img.write_to(&mut png, image::ImageFormat::Png).unwrap();
    let encoded = base64::engine::general_purpose::STANDARD.encode(png.into_inner());
    let out = String::from_utf8(process_gcode(&embed(&encoded), 8, 40, &b"1".to_vec(), &b"r".to_vec()).unwrap().unwrap()).unwrap();
    let s_end = out.find("\nM10086 ;\n").unwrap();
    let srows: Vec<&str> = out[";simage:".len()..s_end].split("\rM10086 ;").collect();
    assert_eq!(srows.len(), 4);
    assert!(srows.iter().all(|r| r.len() == 8 * 4));
    assert!(out.contains("Its size was 20x10\n;  simage = 8\n;  gimage = 40\n"));
}

#[test]
fn truncated_png_is_an_image_error() {
    let png = png_10x10();
    let encoded = base64::engine::general_purpose::STANDARD.encode(&png[..40]);
    let lines = vec![b"begin".to_vec(), encoded.into_bytes(), b"end".to_vec()];
    match decode_thumbnail(&lines) {
        Err(ThumbnailError::Image(format, _)) => assert_eq!(format, b"png".to_vec()),
        other => panic!("unexpected: {:?}", other.map(|t| t.width)),
    }
}

#[test]
fn decoded_thumbnail_reports_size_and_format() {
    let encoded = base64::engine::general_purpose::STANDARD.encode(png_10x10());
    let lines = vec![b"begin".to_vec(), encoded.into_bytes(), b"end".to_vec()];
    let t = decode_thumbnail(&lines).unwrap();
    assert_eq!((t.width, t.height), (10, 10));
    assert_eq!(t.format, b"png".to_vec());
}

#[test]
fn provenance_comment_text() {
    let p = Provenance {
        version: b"0.2.1".to_vec(),
        repository: b"repo".to_vec(),
        format: b"jpg".to_vec(),
        width: 300,
        height: 7,
        simage_size: 0,
        gimage_size: 65535,
    };
    assert_eq!(
        String::from_utf8(provenance_comment(&p)).unwrap(),
        "\n; MKS_TFT_PREVIEW_POSTPROCESS\n; Post processed by mks_tft_img v0.2.1 (repo)\n;  The original jpg image was removed from here. Its size was 300x7\n;  simage = 0\n;  gimage = 65535\n"
    );
}

#[test]
fn rewrite_orders_blocks_header_comment_trailer() {
    let doc = read_gcode(b"a\nb\n; THUMBNAIL_BLOCK_START\n; x\n; THUMBNAIL_BLOCK_END\ntail");
    let grid = PixelGrid { width: 1, height: 1, pixels: vec![Rgb { r: 0, g: 0, b: 0 }] };
    let p = Provenance {
        version: b"1".to_vec(),
        repository: b"r".to_vec(),
        format: b"png".to_vec(),
        width: 1,
        height: 1,
        simage_size: 1,
        gimage_size: 1,
    };
    let out = String::from_utf8(rewrite_gcode(&doc, &grid, &grid, &p)).unwrap();
    assert_eq!(
        out,
        ";simage:0000\nM10086 ;\n;;gimage:0000\nM10086 ;\na\nb\n; MKS_TFT_PREVIEW_POSTPROCESS\n; Post processed by mks_tft_img v1 (r)\n;  The original png image was removed from here. Its size was 1x1\n;  simage = 1\n;  gimage = 1\ntail"
    );
}
