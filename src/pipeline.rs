use vstd::prelude::*;
use vstd::string::StringSliceAdditionalSpecFns;

use crate::codec::Rgb;
use crate::formatter::PixelGrid;
use crate::rewriter::{rewrite_gcode, rewritten, Provenance};
use crate::scanner::{
    file_text, lemma_scan_recovers_written_block, plain_line, read_gcode, scan, thumbnail_line,
};
use crate::text::{join, lemma_join_push, push_all};

verus! {

#[verifier::external_type_specification]
#[verifier::external_body]
pub struct ExDecodeError(base64::DecodeError);

#[verifier::external_type_specification]
#[verifier::external_body]
pub struct ExDynamicImage(image::DynamicImage);

#[verifier::external_type_specification]
#[verifier::external_body]
pub struct ExImageError(image::ImageError);

#[verifier::external_type_specification]
#[verifier::external_body]
pub struct ExImageFormat(image::ImageFormat);

/// The bytes that standard base64 decoding gives for `text`, or `None` where
/// `text` is not valid standard base64.
pub uninterp spec fn base64_decoded(text: Seq<u8>) -> Option<Seq<u8>>;

/// Relies on base64's `Engine::decode` with the standard alphabet and padding:
/// it succeeds exactly on valid input, and the decoded bytes depend on the text alone.
#[verifier::external_body]
fn base64_decode(text: &[u8]) -> (r: Result<Vec<u8>, base64::DecodeError>)
    ensures
        r.is_ok() == base64_decoded(text@).is_some(),
        r matches Ok(v) ==> base64_decoded(text@) == Some(v@),
{
    base64::Engine::decode(&base64::prelude::BASE64_STANDARD, text)
}

/// Whether image's `guess_format` recognises the signature that starts the bytes.
pub uninterp spec fn image_format_known(bytes: Seq<u8>) -> bool;

/// Whether image's `load_from_memory` decodes the bytes, the format being guessed
/// from the bytes themselves.
pub uninterp spec fn image_decodes(bytes: Seq<u8>) -> bool;

/// Relies on image's `guess_format`: the format whose signature starts the bytes, if
/// any; which one depends on the bytes alone.
#[verifier::external_body]
fn guess_image_format(bytes: &[u8]) -> (r: Option<image::ImageFormat>)
    ensures
        r.is_some() == image_format_known(bytes@),
{
    image::guess_format(bytes).ok()
}

/// Relies on `ImageFormat::extensions_str`: the file extensions of a format.
#[verifier::external_body]
fn format_extensions(format: image::ImageFormat) -> (r: &'static [&'static str]) {
    format.extensions_str()
}

/// Relies on image's `load_from_memory`: guesses the format from the bytes and decodes
/// them as that format; whether it succeeds depends on the bytes alone.
#[verifier::external_body]
fn load_image(bytes: &[u8]) -> (r: Result<image::DynamicImage, image::ImageError>)
    ensures
        r.is_ok() == image_decodes(bytes@),
{
    image::load_from_memory(bytes)
}

/// Relies on `GenericImageView::dimensions`: the width and height of an image.
#[verifier::external_body]
fn image_dimensions(img: &image::DynamicImage) -> (r: (u32, u32)) {
    image::GenericImageView::dimensions(img)
}

/// Relies on `DynamicImage::resize` (Catmull-Rom filter), which scales the image to fit
/// a `size` by `size` square keeping its aspect ratio, each side at least 1; and on
/// `to_rgb8`, whose pixel iterator yields exactly width times height pixels, row by row.
#[verifier::external_body]
fn resized_grid(img: &image::DynamicImage, size: u32) -> (r: PixelGrid)
    ensures
        r.wf(),
        size >= 1 ==> 1 <= r.width <= size && 1 <= r.height <= size,
{
    let buf = img.resize(size, size, image::imageops::FilterType::CatmullRom).to_rgb8();
    let pixels = buf.pixels().map(|p| Rgb { r: p.0[0], g: p.0[1], b: p.0[2] }).collect();
    PixelGrid { width: buf.width(), height: buf.height(), pixels }
}

/// Why a thumbnail could not be replaced.
#[derive(Debug)]
pub enum ThumbnailError {
    /// The opening marker was found but not the closing one.
    Unterminated,
    /// The payload is not valid base64.
    Base64(base64::DecodeError),
    /// The image could not be decoded; the label of the guessed format comes first.
    Image(Vec<u8>, image::ImageError),
}

/// The base64 text of a thumbnail: the lines strictly between the first (size) line
/// and the last (end) line, concatenated; nothing when there are fewer than two lines.
pub open spec fn payload(lines: Seq<Seq<u8>>) -> Seq<u8> {
    if lines.len() < 2 {
        Seq::empty()
    } else {
        join(lines.subrange(1, lines.len() - 1), Seq::empty())
    }
}

/// Concatenates the payload lines of a thumbnail.
pub fn payload_text(image_lines: &Vec<Vec<u8>>) -> (r: Vec<u8>)
    ensures
        r@ == payload(image_lines.deep_view()),
{
    let n = image_lines.len();
    if n < 2 {
        return Vec::new();
    }
    let ghost lines = image_lines.deep_view();
    let mut out: Vec<u8> = Vec::new();
    let mut i: usize = 1;
    assert(lines.subrange(1, 1) =~= Seq::<Seq<u8>>::empty());
    while i < n - 1
        invariant
            n == image_lines@.len(),
            lines == image_lines.deep_view(),
            n >= 2,
            1 <= i <= n - 1,
            out@ == join(lines.subrange(1, i as int), Seq::empty()),
        decreases n - 1 - i,
    {
        proof {
            lemma_join_push(lines.subrange(1, i as int), Seq::empty(), lines[i as int]);
            assert(lines.subrange(1, i as int).push(lines[i as int]) =~= lines.subrange(1, i + 1));
            assert(image_lines@[i as int]@ =~= lines[i as int]);
        }
        push_all(&mut out, image_lines[i].as_slice());
        assert(out@ =~= join(lines.subrange(1, i + 1), Seq::empty()));
        i = i + 1;
    }
    out
}

/// The decoded original thumbnail.
pub struct Thumbnail {
    pub image: image::DynamicImage,
    /// The first file extension of the guessed format.
    pub format: Vec<u8>,
    pub width: u32,
    pub height: u32,
}

/// The label of a guessed format: its first file extension, or `UNKNOWN` where no
/// format was recognised or it has no extension.
fn format_label(format: Option<image::ImageFormat>) -> (r: Vec<u8>)
    ensures
        format is None ==> r@ == "UNKNOWN".spec_bytes(),
{
    let mut out: Vec<u8> = Vec::new();
    match format {
        Some(f) => {
            let exts = format_extensions(f);
            if exts.len() > 0 {
                push_all(&mut out, exts[0].as_bytes());
            } else {
                push_all(&mut out, "UNKNOWN".as_bytes());
            }
        },
        None => {
            push_all(&mut out, "UNKNOWN".as_bytes());
        },
    }
    out
}

/// Decodes the base64 payload of the thumbnail lines, then the image it holds.
pub fn decode_thumbnail(image_lines: &Vec<Vec<u8>>) -> (r: Result<Thumbnail, ThumbnailError>)
    ensures
        r matches Err(ThumbnailError::Base64(_)) <==> base64_decoded(
            payload(image_lines.deep_view()),
        ).is_none(),
        base64_decoded(payload(image_lines.deep_view())).is_some() ==> (r.is_ok()
            <==> image_decodes(base64_decoded(payload(image_lines.deep_view())).unwrap())),
        r matches Err(ThumbnailError::Image(label, _)) ==> !image_format_known(
            base64_decoded(payload(image_lines.deep_view())).unwrap(),
        ) ==> label@ == "UNKNOWN".spec_bytes(),
        !(r matches Err(ThumbnailError::Unterminated)),
{
    let text = payload_text(image_lines);
    let bytes = match base64_decode(text.as_slice()) {
        Ok(b) => b,
        Err(e) => {
            return Err(ThumbnailError::Base64(e));
        },
    };
    let label = format_label(guess_image_format(bytes.as_slice()));
    match load_image(bytes.as_slice()) {
        Ok(img) => {
            let (width, height) = image_dimensions(&img);
            Ok(Thumbnail { image: img, format: label, width, height })
        },
        Err(e) => Err(ThumbnailError::Image(label, e)),
    }
}

/// Replaces the thumbnail of a G-code file by the two device preview blocks.
///
/// Returns `Ok(None)` where the file holds no thumbnail, or one of fewer than two lines
/// and so no payload, and is to be left as it is;
/// otherwise the new content of the file, or why the thumbnail could not be replaced.
pub fn process_gcode(
    content: &[u8],
    simage_size: u8,
    gimage_size: u16,
    version: &Vec<u8>,
    repository: &Vec<u8>,
) -> (r: Result<Option<Vec<u8>>, ThumbnailError>)
    ensures
        r matches Ok(None) <==> scan(content@).image.len() < 2,
        r matches Err(ThumbnailError::Unterminated) <==> scan(content@).image.len() >= 2
            && !scan(content@).terminated,
        r matches Err(ThumbnailError::Base64(_)) <==> scan(content@).image.len() >= 2 && scan(
            content@,
        ).terminated && base64_decoded(payload(scan(content@).image)).is_none(),
        scan(content@).image.len() >= 2 && scan(content@).terminated && base64_decoded(
            payload(scan(content@).image),
        ).is_some() ==> (r matches Ok(Some(_)) <==> image_decodes(
            base64_decoded(payload(scan(content@).image)).unwrap(),
        )),
        r matches Ok(Some(out)) ==> exists|small: PixelGrid, large: PixelGrid, p: Provenance|
            {
                &&& small.wf()
                &&& large.wf()
                &&& (simage_size >= 1 ==> 1 <= small.width <= simage_size && 1 <= small.height
                    <= simage_size)
                &&& (gimage_size >= 1 ==> 1 <= large.width <= gimage_size && 1 <= large.height
                    <= gimage_size)
                &&& p.version@ == version@
                &&& p.repository@ == repository@
                &&& p.simage_size == simage_size
                &&& p.gimage_size == gimage_size
                &&& out@ == rewritten(scan(content@), small, large, p)
            },
{
    let doc = read_gcode(content);
    if doc.image_lines.len() < 2 {
        return Ok(None);
    }
    if !doc.terminated {
        return Err(ThumbnailError::Unterminated);
    }
    let thumb = match decode_thumbnail(&doc.image_lines) {
        Ok(t) => t,
        Err(e) => {
            return Err(e);
        },
    };
    let small = resized_grid(&thumb.image, simage_size as u32);
    let large = resized_grid(&thumb.image, gimage_size as u32);
    let p = Provenance {
        version: version.clone(),
        repository: repository.clone(),
        format: thumb.format,
        width: thumb.width,
        height: thumb.height,
        simage_size,
        gimage_size,
    };
    let out = rewrite_gcode(&doc, &small, &large, &p);
    assert(out@ == rewritten(scan(content@), small, large, p));
    Ok(Some(out))
}

} // verus!

verus! {

/// Writing base64 text as thumbnail lines, between a size line and an end line, and
/// scanning the file gives that text back as the payload, exactly: the payload of the
/// scanned block is the concatenation of the lines written between the first and the last.
pub proof fn lemma_written_payload_recovered(
    header: Seq<Seq<u8>>,
    lines: Seq<Seq<u8>>,
    trailer: Seq<u8>,
)
    requires
        forall|i: int| 0 <= i < header.len() ==> plain_line(#[trigger] header[i]),
        forall|i: int| 0 <= i < lines.len() ==> thumbnail_line(#[trigger] lines[i]),
        lines.len() >= 2,
    ensures
        payload(scan(file_text(header, lines, trailer)).image) == join(
            lines.subrange(1, lines.len() - 1),
            Seq::empty(),
        ),
{
    lemma_scan_recovers_written_block(header, lines, trailer);
}

} // verus!
