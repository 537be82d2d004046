use vstd::prelude::*;
use vstd::string::StringSliceAdditionalSpecFns;

use crate::formatter::{block_text, create_tft_image_gcode, PixelGrid};
use crate::scanner::{scan, lemma_trailer_is_suffix, Scanned, SourceDocument};
use crate::text::{join, join_lines, push_all};

verus! {

/// The decimal digits of `n`, most significant first, without leading zeros.
pub open spec fn decimal(n: nat) -> Seq<u8>
    decreases n,
{
    if n < 10 {
        seq![(48 + n) as u8]
    } else {
        decimal(n / 10) + seq![(48 + n % 10) as u8]
    }
}

/// What the comment that replaces the original thumbnail records.
pub struct Provenance {
    /// The version of this tool.
    pub version: Vec<u8>,
    /// Where this tool's source is published.
    pub repository: Vec<u8>,
    /// The format of the image that was replaced.
    pub format: Vec<u8>,
    /// The width of the image that was replaced.
    pub width: u32,
    /// The height of the image that was replaced.
    pub height: u32,
    pub simage_size: u8,
    pub gimage_size: u16,
}

/// The comment inserted after the original header.
pub open spec fn provenance_text(p: Provenance) -> Seq<u8> {
    "\n; MKS_TFT_PREVIEW_POSTPROCESS\n; Post processed by mks_tft_img v".spec_bytes() + p.version@
        + " (".spec_bytes() + p.repository@ + ")\n;  The original ".spec_bytes() + p.format@
        + " image was removed from here. Its size was ".spec_bytes() + decimal(p.width as nat)
        + "x".spec_bytes() + decimal(p.height as nat) + "\n;  simage = ".spec_bytes() + decimal(
        p.simage_size as nat,
    ) + "\n;  gimage = ".spec_bytes() + decimal(p.gimage_size as nat) + "\n".spec_bytes()
}

/// The tag of the small preview block.
pub open spec fn simage_tag() -> Seq<u8> {
    ";simage".spec_bytes()
}

/// The tag of the large preview block.
pub open spec fn gimage_tag() -> Seq<u8> {
    ";;gimage".spec_bytes()
}

/// The rewritten file: the two preview blocks, the header lines joined by newlines,
/// the provenance comment, then the trailer as it was.
pub open spec fn rewritten(doc: Scanned, small: PixelGrid, large: PixelGrid, p: Provenance) -> Seq<
    u8,
> {
    block_text(simage_tag(), small) + block_text(gimage_tag(), large) + join(
        doc.header,
        seq![10u8],
    ) + provenance_text(p) + doc.trailer
}

fn push_decimal(out: &mut Vec<u8>, n: u32)
    ensures
        final(out)@ == old(out)@ + decimal(n as nat),
    decreases n,
{
    if n >= 10 {
        push_decimal(out, n / 10);
    }
    out.push(48u8 + (n % 10) as u8);
}

/// Writes the provenance comment.
pub fn provenance_comment(p: &Provenance) -> (r: Vec<u8>)
    ensures
        r@ == provenance_text(*p),
{
    let mut out: Vec<u8> = Vec::new();
    push_all(&mut out, "\n; MKS_TFT_PREVIEW_POSTPROCESS\n; Post processed by mks_tft_img v".as_bytes());
    push_all(&mut out, p.version.as_slice());
    push_all(&mut out, " (".as_bytes());
    push_all(&mut out, p.repository.as_slice());
    push_all(&mut out, ")\n;  The original ".as_bytes());
    push_all(&mut out, p.format.as_slice());
    push_all(&mut out, " image was removed from here. Its size was ".as_bytes());
    push_decimal(&mut out, p.width);
    push_all(&mut out, "x".as_bytes());
    push_decimal(&mut out, p.height);
    push_all(&mut out, "\n;  simage = ".as_bytes());
    push_decimal(&mut out, p.simage_size as u32);
    push_all(&mut out, "\n;  gimage = ".as_bytes());
    push_decimal(&mut out, p.gimage_size as u32);
    push_all(&mut out, "\n".as_bytes());
    out
}

/// Assembles the rewritten file from the scanned document and the two resized grids.
pub fn rewrite_gcode(
    doc: &SourceDocument,
    small: &PixelGrid,
    large: &PixelGrid,
    p: &Provenance,
) -> (r: Vec<u8>)
    requires
        small.wf(),
        large.wf(),
    ensures
        r@ == rewritten(doc.model(), *small, *large, *p),
{
    let mut out = create_tft_image_gcode(";simage".as_bytes(), small);
    let g = create_tft_image_gcode(";;gimage".as_bytes(), large);
    push_all(&mut out, g.as_slice());
    let nl: Vec<u8> = vec![10u8];
    let header = join_lines(&doc.header_lines, nl.as_slice());
    assert(nl@ == seq![10u8]);
    push_all(&mut out, header.as_slice());
    let c = provenance_comment(p);
    push_all(&mut out, c.as_slice());
    push_all(&mut out, doc.trailer.as_slice());
    out
}

} // verus!

verus! {

/// The rewritten file keeps the bytes outside the thumbnail block: it ends with the
/// input's own final bytes that followed the block, and the header lines, joined by
/// newlines, stand right after the two preview blocks, followed by the provenance comment.
pub proof fn lemma_outside_bytes_kept(
    s: Seq<u8>,
    small: PixelGrid,
    large: PixelGrid,
    p: Provenance,
)
    ensures
        ({
            let out = rewritten(scan(s), small, large, p);
            let t = scan(s).trailer;
            let at = (block_text(simage_tag(), small).len() + block_text(gimage_tag(), large).len()) as int;
            let hd = join(scan(s).header, seq![10u8]);
            let hl = hd.len() as int;
            &&& out.subrange(out.len() - t.len(), out.len() as int) == s.subrange(
                s.len() - t.len(),
                s.len() as int,
            )
            &&& out.subrange(at, at + hl) == hd
            &&& out.subrange(at + hl, at + hl + provenance_text(p).len())
                == provenance_text(p)
        }),
{
    lemma_trailer_is_suffix(s);
    let out = rewritten(scan(s), small, large, p);
    let t = scan(s).trailer;
    let at = (block_text(simage_tag(), small).len() + block_text(gimage_tag(), large).len()) as int;
    let hd = join(scan(s).header, seq![10u8]);
    let hl = hd.len() as int;
    assert(out.subrange(out.len() - t.len(), out.len() as int) =~= t);
    assert(out.subrange(at, at + hl) =~= hd);
    assert(out.subrange(at + hl, at + hl + provenance_text(p).len()) =~= provenance_text(p));
}

} // verus!
