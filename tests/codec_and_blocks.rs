use mks_tft_img::codec::{rgb565, Rgb};
use mks_tft_img::formatter::{create_tft_image_gcode, PixelGrid};

fn px(r: u8, g: u8, b: u8) -> Rgb {
    Rgb { r, g, b }
}

#[test]
fn rgb565_primary_colours() {
    assert_eq!(rgb565(&px(255, 0, 0)), (0xf8, 0x00));
    assert_eq!(rgb565(&px(0, 255, 0)), (0x07, 0xe0));
    assert_eq!(rgb565(&px(0, 0, 255)), (0x00, 0x1f));
    assert_eq!(rgb565(&px(255, 255, 255)), (0xff, 0xff));
    assert_eq!(rgb565(&px(0, 0, 0)), (0x00, 0x00));
}

#[test]
fn rgb565_mixed_colour() {
    assert_eq!(rgb565(&px(18, 52, 86)), (0x11, 0xaa));
}

#[test]
fn rgb565_channels_read_back_closely() {
    for r in (0u16..256).step_by(5) {
        for g in (0u16..256).step_by(7) {
            for b in (0u16..256).step_by(11) {
                let (hi, lo) = rgb565(&px(r as u8, g as u8, b as u8));
                let c = (hi as u16) << 8 | lo as u16;
                let r2 = (c >> 11) << 3;
                let g2 = ((c >> 5) & 0x3f) << 2;
                let b2 = (c & 0x1f) << 3;
                assert!(r2 <= r && r <= r2 + 7);
                assert!(g2 <= g && g <= g2 + 3);
                assert!(b2 <= b && b <= b2 + 7);
            }
        }
    }
}

#[test]
fn block_of_two_by_two_grid() {
    let grid = PixelGrid {
        width: 2,
        height: 2,
        pixels: vec![px(255, 0, 0), px(0, 255, 0), px(0, 0, 255), px(18, 52, 86)],
    };
    let out = create_tft_image_gcode(b";simage", &grid);
    assert_eq!(
        String::from_utf8(out).unwrap(),
        ";simage:00f8e007\rM10086 ;1f00aa11\nM10086 ;\n"
    );
}

#[test]
fn block_of_single_row() {
    let grid = PixelGrid { width: 1, height: 1, pixels: vec![px(255, 255, 255)] };
    let out = create_tft_image_gcode(b";;gimage", &grid);
    assert_eq!(String::from_utf8(out).unwrap(), ";;gimage:ffff\nM10086 ;\n");
}

#[test]
fn block_shape_matches_grid() {
    let (w, h) = (7u32, 5u32);
    let grid = PixelGrid { width: w, height: h, pixels: vec![px(1, 2, 3); (w * h) as usize] };
    let out = String::from_utf8(create_tft_image_gcode(b";t", &grid)).unwrap();
    let body = out.strip_prefix(";t:").unwrap().strip_suffix("\nM10086 ;\n").unwrap();
    let rows: Vec<&str> = body.split("\rM10086 ;").collect();
    assert_eq!(rows.len(), h as usize);
    for row in rows {
        assert_eq!(row.len(), 4 * w as usize);
        assert!(row.bytes().all(|b| b.is_ascii_digit() || (b'a'..=b'f').contains(&b)));
    }
}
