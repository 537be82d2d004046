use vstd::prelude::*;

verus! {

/// An 8-bit-per-channel RGB colour.
#[derive(Clone, Copy, Debug, PartialEq, Eq, Structural)]
pub struct Rgb {
    pub r: u8,
    pub g: u8,
    pub b: u8,
}

/// The 16-bit device colour: 5 bits of red, 6 of green, 5 of blue,
/// most significant bits first.
pub open spec fn rgb565_value(p: Rgb) -> u16 {
    (((p.r as u16) >> 3u16) << 11u16) | (((p.g as u16) >> 2u16) << 5u16) | ((p.b as u16) >> 3u16)
}

/// The red channel read back from a packed colour (low three bits lost).
pub open spec fn red_of(c: u16) -> u8 {
    ((c >> 11u16) << 3u16) as u8
}

/// The green channel read back from a packed colour (low two bits lost).
pub open spec fn green_of(c: u16) -> u8 {
    (((c >> 5u16) & 0x3fu16) << 2u16) as u8
}

/// The blue channel read back from a packed colour (low three bits lost).
pub open spec fn blue_of(c: u16) -> u8 {
    ((c & 0x1fu16) << 3u16) as u8
}

/// Packs a pixel into the device colour and returns its (high, low) bytes.
pub fn rgb565(pixel: &Rgb) -> (r: (u8, u8))
    ensures
        r.0 == (rgb565_value(*pixel) >> 8u16) as u8,
        r.1 == (rgb565_value(*pixel) & 0xffu16) as u8,
        r.0 as u16 * 256 + r.1 as u16 == rgb565_value(*pixel),
{
    let r = (pixel.r as u16) >> 3;
    let g = (pixel.g as u16) >> 2;
    let b = (pixel.b as u16) >> 3;
    let color: u16 = r << 11 | g << 5 | b;
    let hi = (color >> 8) as u8;
    let lo = (color & 0xff) as u8;
    assert(hi as u16 * 256 + lo as u16 == color) by (bit_vector)
        requires
            hi == (color >> 8u16) as u8,
            lo == (color & 0xffu16) as u8,
    ;
    (hi, lo)
}

/// Reading the channels back from a packed colour loses only the bits
/// that packing truncated: red and blue lie within 7 below the original,
/// green within 3.
pub proof fn lemma_rgb565_channels_close(p: Rgb)
    ensures
        red_of(rgb565_value(p)) <= p.r <= red_of(rgb565_value(p)) + 7,
        green_of(rgb565_value(p)) <= p.g <= green_of(rgb565_value(p)) + 3,
        blue_of(rgb565_value(p)) <= p.b <= blue_of(rgb565_value(p)) + 7,
{
    let r = p.r;
    let g = p.g;
    let b = p.b;
    let c = rgb565_value(p);
    assert(((((((r as u16) >> 3u16) << 11u16) | (((g as u16) >> 2u16) << 5u16) | ((b as u16)
        >> 3u16)) >> 11u16) << 3u16) as u8 <= r) by (bit_vector);
    assert(r <= ((((((r as u16) >> 3u16) << 11u16) | (((g as u16) >> 2u16) << 5u16) | ((b as u16)
        >> 3u16)) >> 11u16) << 3u16) as u8 + 7) by (bit_vector);
    assert((((((((r as u16) >> 3u16) << 11u16) | (((g as u16) >> 2u16) << 5u16) | ((b as u16)
        >> 3u16)) >> 5u16) & 0x3fu16) << 2u16) as u8 <= g) by (bit_vector);
    assert(g <= (((((((r as u16) >> 3u16) << 11u16) | (((g as u16) >> 2u16) << 5u16) | ((b as u16)
        >> 3u16)) >> 5u16) & 0x3fu16) << 2u16) as u8 + 3) by (bit_vector);
    assert(((((((r as u16) >> 3u16) << 11u16) | (((g as u16) >> 2u16) << 5u16) | ((b as u16)
        >> 3u16)) & 0x1fu16) << 3u16) as u8 <= b) by (bit_vector);
    assert(b <= ((((((r as u16) >> 3u16) << 11u16) | (((g as u16) >> 2u16) << 5u16) | ((b as u16)
        >> 3u16)) & 0x1fu16) << 3u16) as u8 + 7) by (bit_vector);
}

} // verus!
