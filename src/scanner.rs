use vstd::prelude::*;

verus! {

/// The text of the line that opens the thumbnail block: `THUMBNAIL_BLOCK_START`.
pub open spec fn start_marker() -> Seq<u8> {
    seq![
        84u8, 72u8, 85u8, 77u8, 66u8, 78u8, 65u8, 73u8, 76u8, 95u8, 66u8, 76u8, 79u8, 67u8, 75u8,
        95u8, 83u8, 84u8, 65u8, 82u8, 84u8,
    ]
}

/// The text of the line that closes the thumbnail block: `THUMBNAIL_BLOCK_END`.
pub open spec fn end_marker() -> Seq<u8> {
    seq![
        84u8, 72u8, 85u8, 77u8, 66u8, 78u8, 65u8, 73u8, 76u8, 95u8, 66u8, 76u8, 79u8, 67u8, 75u8,
        95u8, 69u8, 78u8, 68u8,
    ]
}

/// `pat` occurs in `h` at offset `i`.
pub open spec fn occurs_at(h: Seq<u8>, pat: Seq<u8>, i: int) -> bool {
    0 <= i && i + pat.len() <= h.len() && h.subrange(i, i + pat.len()) == pat
}

/// `pat` occurs somewhere in `h`.
pub open spec fn contains(h: Seq<u8>, pat: Seq<u8>) -> bool {
    exists|i: int| occurs_at(h, pat, i)
}

/// The ASCII whitespace characters: space, and tab through carriage return.
pub open spec fn is_ascii_space(b: u8) -> bool {
    b == 32 || (9 <= b && b <= 13)
}

/// The three-byte UTF-8 encodings of whitespace: U+1680, U+2000 to U+200A, U+2028,
/// U+2029, U+202F, U+205F and U+3000.
pub open spec fn is_wide_space(a: u8, b: u8, c: u8) -> bool {
    ||| (a == 0xe1 && b == 0x9a && c == 0x80)
    ||| (a == 0xe2 && b == 0x80 && ((0x80 <= c && c <= 0x8a) || c == 0xa8 || c == 0xa9 || c
        == 0xaf))
    ||| (a == 0xe2 && b == 0x81 && c == 0x9f)
    ||| (a == 0xe3 && b == 0x80 && c == 0x80)
}

/// The two-byte UTF-8 encodings of whitespace: U+0085 and U+00A0.
pub open spec fn is_narrow_space(a: u8, b: u8) -> bool {
    a == 0xc2 && (b == 0x85 || b == 0xa0)
}

/// The length in bytes of the whitespace character (as Unicode defines whitespace)
/// that starts `l` in UTF-8, or 0 where `l` starts with none.
pub open spec fn space_prefix_len(l: Seq<u8>) -> int {
    if l.len() >= 1 && is_ascii_space(l[0]) {
        1
    } else if l.len() >= 2 && is_narrow_space(l[0], l[1]) {
        2
    } else if l.len() >= 3 && is_wide_space(l[0], l[1], l[2]) {
        3
    } else {
        0
    }
}

/// The length in bytes of the whitespace character that ends `l` in UTF-8, or 0.
pub open spec fn space_suffix_len(l: Seq<u8>) -> int {
    let n = l.len() as int;
    if n >= 1 && is_ascii_space(l[n - 1]) {
        1
    } else if n >= 2 && is_narrow_space(l[n - 2], l[n - 1]) {
        2
    } else if n >= 3 && is_wide_space(l[n - 3], l[n - 2], l[n - 1]) {
        3
    } else {
        0
    }
}

/// The line with every leading `;` removed.
pub open spec fn drop_semicolons(l: Seq<u8>) -> Seq<u8>
    decreases l.len(),
{
    if l.len() > 0 && l[0] == 59 {
        drop_semicolons(l.drop_first())
    } else {
        l
    }
}

/// The line with its leading whitespace removed.
pub open spec fn trim_front(l: Seq<u8>) -> Seq<u8>
    decreases l.len(),
{
    if space_prefix_len(l) > 0 {
        trim_front(l.subrange(space_prefix_len(l), l.len() as int))
    } else {
        l
    }
}

/// The line with its trailing whitespace removed.
pub open spec fn trim_back(l: Seq<u8>) -> Seq<u8>
    decreases l.len(),
{
    if space_suffix_len(l) > 0 {
        trim_back(l.subrange(0, l.len() - space_suffix_len(l)))
    } else {
        l
    }
}

/// A thumbnail line as it is kept: leading `;`s removed, then surrounding whitespace.
pub open spec fn clean_line(l: Seq<u8>) -> Seq<u8> {
    trim_back(trim_front(drop_semicolons(l)))
}

/// The position of the first newline at or after `pos`, or the end of `s`.
pub open spec fn line_end(s: Seq<u8>, pos: int) -> int
    decreases s.len() - pos,
{
    if pos < 0 || pos >= s.len() {
        s.len() as int
    } else if s[pos] == 10 {
        pos
    } else {
        line_end(s, pos + 1)
    }
}

/// Where the line starting at `pos` ends, its newline excluded; a carriage return
/// right before that newline is excluded too.
pub open spec fn line_stop(s: Seq<u8>, pos: int) -> int {
    let e = line_end(s, pos);
    if e < s.len() && e > pos && s[e - 1] == 13 {
        e - 1
    } else {
        e
    }
}

/// Where the line after the one starting at `pos` begins.
pub open spec fn next_line(s: Seq<u8>, pos: int) -> int {
    let e = line_end(s, pos);
    if pos <= e < s.len() {
        e + 1
    } else {
        s.len() as int
    }
}

/// The three regions of a scanned file, and whether the closing marker was met.
pub struct Scanned {
    pub header: Seq<Seq<u8>>,
    pub image: Seq<Seq<u8>>,
    pub trailer: Seq<u8>,
    pub terminated: bool,
}

/// Scans `s` line by line from `pos`, having collected `header` and `image`;
/// `reading` tells whether the opening marker has been met.
pub open spec fn scan_from(
    s: Seq<u8>,
    pos: int,
    reading: bool,
    header: Seq<Seq<u8>>,
    image: Seq<Seq<u8>>,
) -> Scanned
    decreases s.len() - pos,
{
    if pos < 0 || pos >= s.len() {
        Scanned { header, image, trailer: Seq::empty(), terminated: false }
    } else {
        let line = s.subrange(pos, line_stop(s, pos));
        let next = next_line(s, pos);
        if contains(line, start_marker()) {
            scan_from(s, next, true, header, image)
        } else if contains(line, end_marker()) {
            Scanned { header, image, trailer: s.subrange(next, s.len() as int), terminated: true }
        } else if reading {
            let c = clean_line(line);
            scan_from(s, next, true, header, if c.len() > 0 {
                image.push(c)
            } else {
                image
            })
        } else {
            scan_from(s, next, false, header.push(line), image)
        }
    }
}

/// The regions of a whole file.
pub open spec fn scan(s: Seq<u8>) -> Scanned {
    scan_from(s, 0, false, Seq::empty(), Seq::empty())
}

/// A file split into the lines before the thumbnail block, the thumbnail's lines,
/// and what follows the block.
pub struct SourceDocument {
    pub header_lines: Vec<Vec<u8>>,
    pub image_lines: Vec<Vec<u8>>,
    pub trailer: Vec<u8>,
    /// Whether the closing marker was found.
    pub terminated: bool,
}

impl SourceDocument {
    pub open spec fn model(&self) -> Scanned {
        Scanned {
            header: self.header_lines.deep_view(),
            image: self.image_lines.deep_view(),
            trailer: self.trailer@,
            terminated: self.terminated,
        }
    }
}

proof fn lemma_line_end_bounds(s: Seq<u8>, pos: int)
    requires
        0 <= pos <= s.len(),
    ensures
        pos <= line_end(s, pos) <= s.len(),
        line_end(s, pos) < s.len() ==> s[line_end(s, pos)] == 10,
    decreases s.len() - pos,
{
    if pos < s.len() && s[pos] != 10 {
        lemma_line_end_bounds(s, pos + 1);
    }
}

fn find_line_end(s: &[u8], pos: usize) -> (r: usize)
    requires
        pos <= s@.len(),
    ensures
        r == line_end(s@, pos as int),
        pos <= r <= s@.len(),
{
    let mut i = pos;
    while i < s.len() && s[i] != 10u8
        invariant
            pos <= i <= s@.len(),
            line_end(s@, pos as int) == line_end(s@, i as int),
        decreases s@.len() - i,
    {
        i = i + 1;
    }
    i
}

fn copy_range(s: &[u8], a: usize, e: usize) -> (r: Vec<u8>)
    requires
        a <= e <= s@.len(),
    ensures
        r@ == s@.subrange(a as int, e as int),
{
    let mut out: Vec<u8> = Vec::new();
    let mut i = a;
    while i < e
        invariant
            a <= i <= e <= s@.len(),
            out@ == s@.subrange(a as int, i as int),
        decreases e - i,
    {
        out.push(s[i]);
        i = i + 1;
        assert(out@ == s@.subrange(a as int, i as int));
    }
    out
}

fn occurs_at_exec(h: &[u8], a: usize, e: usize, pat: &Vec<u8>, i: usize) -> (r: bool)
    requires
        a <= e <= h@.len(),
        a <= i <= e,
    ensures
        r == occurs_at(h@.subrange(a as int, e as int), pat@, i - a),
{
    let ghost line = h@.subrange(a as int, e as int);
    if pat.len() > e - i {
        return false;
    }
    let mut k: usize = 0;
    while k < pat.len()
        invariant
            a <= i <= e <= h@.len(),
            i + pat@.len() <= e,
            line == h@.subrange(a as int, e as int),
            k <= pat@.len(),
            forall|j: int| 0 <= j < k ==> h@[i + j] == pat@[j],
        decreases pat@.len() - k,
    {
        if h[i + k] != pat[k] {
            assert(line.subrange(i - a, i - a + pat@.len())[k as int] == h@[i + k]);
            return false;
        }
        k = k + 1;
    }
    assert forall|j: int| 0 <= j < pat@.len() implies line.subrange(i - a, i - a + pat@.len())[j]
        == pat@[j] by {
        assert(line[i - a + j] == h@[i + j]);
    }
    assert(line.subrange(i - a, i - a + pat@.len()) =~= pat@);
    true
}

/// Whether `pat` occurs in `h[a..e]`.
fn contains_exec(h: &[u8], a: usize, e: usize, pat: &Vec<u8>) -> (r: bool)
    requires
        a <= e <= h@.len(),
    ensures
        r == contains(h@.subrange(a as int, e as int), pat@),
{
    let ghost line = h@.subrange(a as int, e as int);
    let plen = pat.len();
    if plen > e - a {
        return false;
    }
    let last = e - plen;
    let mut i = a;
    while i < last
        invariant
            a <= i <= last,
            last + plen == e,
            plen == pat@.len(),
            e <= h@.len(),
            line == h@.subrange(a as int, e as int),
            forall|j: int| 0 <= j < i - a ==> !occurs_at(line, pat@, j),
        decreases last - i,
    {
        if occurs_at_exec(h, a, e, pat, i) {
            return true;
        }
        i = i + 1;
    }
    if occurs_at_exec(h, a, e, pat, last) {
        return true;
    }
    assert forall|j: int| !occurs_at(line, pat@, j) by {
        if 0 <= j && j + pat@.len() <= line.len() {
            assert(j <= last - a);
        }
    }
    false
}

fn is_wide_space_exec(a: u8, b: u8, c: u8) -> (r: bool)
    ensures
        r == is_wide_space(a, b, c),
{
    (a == 0xe1 && b == 0x9a && c == 0x80) || (a == 0xe2 && b == 0x80 && ((0x80 <= c && c <= 0x8a)
        || c == 0xa8 || c == 0xa9 || c == 0xaf)) || (a == 0xe2 && b == 0x81 && c == 0x9f) || (a
        == 0xe3 && b == 0x80 && c == 0x80)
}

fn is_ascii_space_exec(b: u8) -> (r: bool)
    ensures
        r == is_ascii_space(b),
{
    b == 32 || (9 <= b && b <= 13)
}

fn space_prefix_at(s: &[u8], i: usize, e: usize) -> (r: usize)
    requires
        i <= e <= s@.len(),
    ensures
        r == space_prefix_len(s@.subrange(i as int, e as int)),
        r <= e - i,
{
    let ghost l = s@.subrange(i as int, e as int);
    let n = e - i;
    proof {
        if n >= 1 {
            assert(l[0] == s@[i as int]);
        }
        if n >= 2 {
            assert(l[1] == s@[i + 1]);
        }
        if n >= 3 {
            assert(l[2] == s@[i + 2]);
        }
    }
    if n >= 1 && is_ascii_space_exec(s[i]) {
        1
    } else if n >= 2 && s[i] == 0xc2 && (s[i + 1] == 0x85 || s[i + 1] == 0xa0) {
        2
    } else if n >= 3 && is_wide_space_exec(s[i], s[i + 1], s[i + 2]) {
        3
    } else {
        0
    }
}

fn space_suffix_at(s: &[u8], i: usize, e: usize) -> (r: usize)
    requires
        i <= e <= s@.len(),
    ensures
        r == space_suffix_len(s@.subrange(i as int, e as int)),
        r <= e - i,
{
    let ghost l = s@.subrange(i as int, e as int);
    let n = e - i;
    proof {
        if n >= 1 {
            assert(l[n - 1] == s@[e - 1]);
        }
        if n >= 2 {
            assert(l[n - 2] == s@[e - 2]);
        }
        if n >= 3 {
            assert(l[n - 3] == s@[e - 3]);
        }
    }
    if n >= 1 && is_ascii_space_exec(s[e - 1]) {
        1
    } else if n >= 2 && s[e - 2] == 0xc2 && (s[e - 1] == 0x85 || s[e - 1] == 0xa0) {
        2
    } else if n >= 3 && is_wide_space_exec(s[e - 3], s[e - 2], s[e - 1]) {
        3
    } else {
        0
    }
}

fn clean_range(s: &[u8], a: usize, e: usize) -> (r: Vec<u8>)
    requires
        a <= e <= s@.len(),
    ensures
        r@ == clean_line(s@.subrange(a as int, e as int)),
{
    let mut i = a;
    while i < e && s[i] == 59u8
        invariant
            a <= i <= e <= s@.len(),
            drop_semicolons(s@.subrange(a as int, e as int)) == drop_semicolons(
                s@.subrange(i as int, e as int),
            ),
        decreases e - i,
    {
        assert(s@.subrange(i as int, e as int).drop_first() == s@.subrange(i + 1, e as int));
        i = i + 1;
    }
    let ghost semis = s@.subrange(i as int, e as int);
    assert(drop_semicolons(semis) == semis);
    let mut j = i;
    let mut k = space_prefix_at(s, j, e);
    while k > 0
        invariant
            i <= j <= e <= s@.len(),
            k == space_prefix_len(s@.subrange(j as int, e as int)),
            k <= e - j,
            trim_front(semis) == trim_front(s@.subrange(j as int, e as int)),
        decreases e - j,
    {
        assert(s@.subrange(j as int, e as int).subrange(k as int, e - j) =~= s@.subrange(
            j + k,
            e as int,
        ));
        j = j + k;
        k = space_prefix_at(s, j, e);
    }
    let ghost front = s@.subrange(j as int, e as int);
    assert(trim_front(front) == front);
    let mut m = e;
    let mut t = space_suffix_at(s, j, m);
    while t > 0
        invariant
            j <= m <= e <= s@.len(),
            t == space_suffix_len(s@.subrange(j as int, m as int)),
            t <= m - j,
            trim_back(front) == trim_back(s@.subrange(j as int, m as int)),
        decreases m - j,
    {
        assert(s@.subrange(j as int, m as int).subrange(0, m - j - t) =~= s@.subrange(
            j as int,
            m - t,
        ));
        m = m - t;
        t = space_suffix_at(s, j, m);
    }
    assert(trim_back(s@.subrange(j as int, m as int)) == s@.subrange(j as int, m as int));
    copy_range(s, j, m)
}

fn start_marker_bytes() -> (r: Vec<u8>)
    ensures
        r@ == start_marker(),
{
    let r: Vec<u8> = vec![
        84u8, 72u8, 85u8, 77u8, 66u8, 78u8, 65u8, 73u8, 76u8, 95u8, 66u8, 76u8, 79u8, 67u8, 75u8,
        95u8, 83u8, 84u8, 65u8, 82u8, 84u8,
    ];
    assert(r@ == start_marker());
    r
}

fn end_marker_bytes() -> (r: Vec<u8>)
    ensures
        r@ == end_marker(),
{
    let r: Vec<u8> = vec![
        84u8, 72u8, 85u8, 77u8, 66u8, 78u8, 65u8, 73u8, 76u8, 95u8, 66u8, 76u8, 79u8, 67u8, 75u8,
        95u8, 69u8, 78u8, 68u8,
    ];
    assert(r@ == end_marker());
    r
}

/// Splits a file into the lines before the thumbnail block, the cleaned
/// non-empty lines inside it, and the bytes after the closing marker line.
pub fn read_gcode(content: &[u8]) -> (r: SourceDocument)
    ensures
        r.model() == scan(content@),
{
    let ghost s = content@;
    let start = start_marker_bytes();
    let end = end_marker_bytes();
    let mut header: Vec<Vec<u8>> = Vec::new();
    let mut image: Vec<Vec<u8>> = Vec::new();
    let mut reading = false;
    let mut pos: usize = 0;
    assert(header.deep_view() =~= Seq::<Seq<u8>>::empty());
    assert(image.deep_view() =~= Seq::<Seq<u8>>::empty());
    while pos < content.len()
        invariant
            s == content@,
            start@ == start_marker(),
            end@ == end_marker(),
            pos <= s.len(),
            scan_from(s, pos as int, reading, header.deep_view(), image.deep_view()) == scan(s),
        decreases s.len() - pos,
    {
        let ghost header0 = header.deep_view();
        let ghost image0 = image.deep_view();
        let e = find_line_end(content, pos);
        proof {
            lemma_line_end_bounds(s, pos as int);
        }
        let stop = if e < content.len() && e > pos && content[e - 1] == 13u8 {
            e - 1
        } else {
            e
        };
        let next = if e < content.len() {
            e + 1
        } else {
            e
        };
        if contains_exec(content, pos, stop, &start) {
            reading = true;
        } else if contains_exec(content, pos, stop, &end) {
            let trailer = copy_range(content, next, content.len());
            return SourceDocument {
                header_lines: header,
                image_lines: image,
                trailer,
                terminated: true,
            };
        } else if reading {
            let c = clean_range(content, pos, stop);
            if c.len() > 0 {
                let ghost iv = image@;
                let ghost cv = c@;
                image.push(c);
                assert(image@[image0.len() as int].deep_view() =~= cv);
                assert forall|k: int| 0 <= k < image0.len() implies image.deep_view()[k]
                    == image0[k] by {
                    assert(image@[k] == iv[k]);
                }
                assert(image.deep_view() =~= image0.push(c@));
            }
        } else {
            let line = copy_range(content, pos, stop);
            let ghost hv = header@;
            let ghost lv = line@;
            header.push(line);
            assert(header@[header0.len() as int].deep_view() =~= lv);
            assert forall|k: int| 0 <= k < header0.len() implies header.deep_view()[k]
                == header0[k] by {
                assert(header@[k] == hv[k]);
            }
            assert(header.deep_view() =~= header0.push(s.subrange(pos as int, stop as int)));
        }
        pos = next;
    }
    SourceDocument { header_lines: header, image_lines: image, trailer: Vec::new(), terminated: false }
}

} // verus!

verus! {

proof fn lemma_line_in_file(s: Seq<u8>, pos: int, pat: Seq<u8>)
    requires
        0 <= pos < s.len(),
        contains(s.subrange(pos, line_stop(s, pos)), pat),
    ensures
        contains(s, pat),
{
    lemma_line_end_bounds(s, pos);
    let line = s.subrange(pos, line_stop(s, pos));
    let i = choose|i: int| occurs_at(line, pat, i);
    assert(line.subrange(i, i + pat.len()) =~= s.subrange(pos + i, pos + i + pat.len()));
    assert(occurs_at(s, pat, pos + i));
}

proof fn lemma_unmarked_from(s: Seq<u8>, pos: int, header: Seq<Seq<u8>>)
    requires
        !contains(s, start_marker()),
        0 <= pos,
    ensures
        scan_from(s, pos, false, header, Seq::empty()).image.len() == 0,
    decreases s.len() - pos,
{
    if pos < s.len() {
        lemma_line_end_bounds(s, pos);
        let line = s.subrange(pos, line_stop(s, pos));
        if contains(line, start_marker()) {
            lemma_line_in_file(s, pos, start_marker());
        }
        lemma_unmarked_from(s, next_line(s, pos), header.push(line));
    }
}

/// A file in which the opening marker never occurs yields no thumbnail lines, so it
/// is left as it is.
pub proof fn lemma_unmarked_file_has_no_thumbnail(s: Seq<u8>)
    requires
        !contains(s, start_marker()),
    ensures
        scan(s).image.len() == 0,
{
    lemma_unmarked_from(s, 0, Seq::empty());
}

proof fn lemma_trailer_suffix_from(
    s: Seq<u8>,
    pos: int,
    reading: bool,
    header: Seq<Seq<u8>>,
    image: Seq<Seq<u8>>,
)
    requires
        0 <= pos,
    ensures
        scan_from(s, pos, reading, header, image).trailer.len() <= s.len(),
        scan_from(s, pos, reading, header, image).trailer == s.subrange(
            s.len() - scan_from(s, pos, reading, header, image).trailer.len(),
            s.len() as int,
        ),
    decreases s.len() - pos,
{
    if pos >= s.len() {
        assert(s.subrange(s.len() as int, s.len() as int) =~= Seq::<u8>::empty());
    } else {
        lemma_line_end_bounds(s, pos);
        let line = s.subrange(pos, line_stop(s, pos));
        let next = next_line(s, pos);
        let c = clean_line(line);
        lemma_trailer_suffix_from(s, next, true, header, image);
        lemma_trailer_suffix_from(s, next, true, header, image.push(c));
        lemma_trailer_suffix_from(s, next, false, header.push(line), image);
    }
}

/// What follows the closing marker line is kept whole: the trailer is the file's
/// own final bytes.
pub proof fn lemma_trailer_is_suffix(s: Seq<u8>)
    ensures
        scan(s).trailer.len() <= s.len(),
        scan(s).trailer == s.subrange(s.len() - scan(s).trailer.len(), s.len() as int),
{
    lemma_trailer_suffix_from(s, 0, false, Seq::empty(), Seq::empty());
}

} // verus!

verus! {

/// The lines written one after another, each followed by a newline.
pub open spec fn lines_text(ls: Seq<Seq<u8>>) -> Seq<u8>
    decreases ls.len(),
{
    if ls.len() == 0 {
        Seq::empty()
    } else {
        ls[0] + seq![10u8] + lines_text(ls.drop_first())
    }
}

/// A comment line holding `l`: `; ` then `l`.
pub open spec fn comment(l: Seq<u8>) -> Seq<u8> {
    seq![59u8, 32u8] + l
}

/// A line that is read back as it was written: no newline in it, no carriage
/// return at its end, and neither marker in it.
pub open spec fn plain_line(l: Seq<u8>) -> bool {
    &&& !l.contains(10u8)
    &&& !(l.len() > 0 && l.last() == 13)
    &&& !contains(l, start_marker())
    &&& !contains(l, end_marker())
}

/// A thumbnail line that survives cleaning unchanged: a plain, non-empty line that
/// neither starts nor ends with whitespace.
pub open spec fn thumbnail_line(l: Seq<u8>) -> bool {
    &&& plain_line(l)
    &&& l.len() > 0
    &&& space_prefix_len(l) == 0
    &&& space_suffix_len(l) == 0
}

/// A file with the given header lines, then a thumbnail block holding `lines` as
/// comment lines between the two marker lines, then `trailer`.
pub open spec fn file_text(header: Seq<Seq<u8>>, lines: Seq<Seq<u8>>, trailer: Seq<u8>) -> Seq<
    u8,
> {
    lines_text(header) + lines_text(seq![comment(start_marker())]) + lines_text(
        lines.map_values(|l: Seq<u8>| comment(l)),
    ) + lines_text(seq![comment(end_marker())]) + trailer
}

proof fn lemma_line_end_skip(s: Seq<u8>, k: int, e: int)
    requires
        0 <= k <= e < s.len(),
        s[e] == 10,
        forall|j: int| k <= j < e ==> s[j] != 10,
    ensures
        line_end(s, k) == e,
    decreases e - k,
{
    if k < e {
        lemma_line_end_skip(s, k + 1, e);
    }
}

proof fn lemma_scan_line(s: Seq<u8>, pos: int, line: Seq<u8>)
    requires
        0 <= pos,
        pos + line.len() < s.len(),
        s.subrange(pos, pos + line.len()) == line,
        s[pos + line.len()] == 10,
        !line.contains(10u8),
        !(line.len() > 0 && line.last() == 13),
    ensures
        line_stop(s, pos) == pos + line.len(),
        next_line(s, pos) == pos + line.len() + 1,
        s.subrange(pos, line_stop(s, pos)) == line,
{
    assert forall|j: int| pos <= j < pos + line.len() implies s[j] != 10 by {
        assert(s.subrange(pos, pos + line.len())[j - pos] == s[j]);
    }
    lemma_line_end_skip(s, pos, pos + line.len());
    if line.len() > 0 {
        assert(s.subrange(pos, pos + line.len())[line.len() - 1] == s[pos + line.len() - 1]);
    }
}

/// Splits the text of lines at its first line.
proof fn lemma_first_line(s: Seq<u8>, pos: int, ls: Seq<Seq<u8>>)
    requires
        0 <= pos,
        ls.len() > 0,
        pos + lines_text(ls).len() <= s.len(),
        s.subrange(pos, pos + lines_text(ls).len()) == lines_text(ls),
    ensures
        pos + ls[0].len() < s.len(),
        s.subrange(pos, pos + ls[0].len()) == ls[0],
        s[pos + ls[0].len()] == 10,
        s.subrange(pos + ls[0].len() + 1, pos + lines_text(ls).len()) == lines_text(
            ls.drop_first(),
        ),
        lines_text(ls).len() == ls[0].len() + 1 + lines_text(ls.drop_first()).len(),
{
    let t = lines_text(ls);
    let n = ls[0].len() as int;
    assert forall|k: int| 0 <= k < t.len() implies s[pos + k] == t[k] by {
        assert(s.subrange(pos, pos + t.len())[k] == s[pos + k]);
    }
    assert(s.subrange(pos, pos + n) =~= ls[0]);
    let r = lines_text(ls.drop_first());
    assert(t == ls[0] + seq![10u8] + r);
    assert(t[n] == 10);
    assert forall|k: int| 0 <= k < r.len() implies s.subrange(pos + n + 1, pos + t.len())[k]
        == r[k] by {
        assert(t[n + 1 + k] == r[k]);
    }
    assert(s.subrange(pos + n + 1, pos + t.len()) =~= r);
}

proof fn lemma_scan_header_lines(
    s: Seq<u8>,
    pos: int,
    ls: Seq<Seq<u8>>,
    h: Seq<Seq<u8>>,
    img: Seq<Seq<u8>>,
)
    requires
        0 <= pos,
        forall|i: int| 0 <= i < ls.len() ==> plain_line(#[trigger] ls[i]),
        pos + lines_text(ls).len() <= s.len(),
        s.subrange(pos, pos + lines_text(ls).len()) == lines_text(ls),
    ensures
        scan_from(s, pos, false, h, img) == scan_from(
            s,
            pos + lines_text(ls).len(),
            false,
            h + ls,
            img,
        ),
    decreases ls.len(),
{
    if ls.len() == 0 {
        assert(h + ls =~= h);
    } else {
        let l = ls[0];
        assert(plain_line(ls[0]));
        lemma_first_line(s, pos, ls);
        lemma_scan_line(s, pos, l);
        let rest = ls.drop_first();
        assert forall|i: int| 0 <= i < rest.len() implies plain_line(#[trigger] rest[i]) by {
            assert(plain_line(ls[i + 1]));
        }
        lemma_scan_header_lines(s, pos + l.len() + 1, rest, h.push(l), img);
        assert(h.push(l) + rest =~= h + ls);
    }
}

proof fn lemma_comment_free_of(l: Seq<u8>, pat: Seq<u8>)
    requires
        !contains(l, pat),
        pat.len() > 0,
        pat[0] == 84,
    ensures
        !contains(comment(l), pat),
{
    let c = comment(l);
    assert forall|i: int| !occurs_at(c, pat, i) by {
        if occurs_at(c, pat, i) {
            assert(c.subrange(i, i + pat.len())[0] == c[i]);
            if i >= 2 {
                assert(c.subrange(i, i + pat.len()) =~= l.subrange(i - 2, i - 2 + pat.len()));
                assert(occurs_at(l, pat, i - 2));
            }
        }
    }
}

proof fn lemma_comment_line(l: Seq<u8>)
    requires
        thumbnail_line(l),
    ensures
        plain_line(comment(l)),
        clean_line(comment(l)) == l,
{
    let c = comment(l);
    assert forall|k: int| 0 <= k < c.len() implies c[k] != 10 by {
        if k >= 2 {
            assert(c[k] == l[k - 2]);
        }
    }
    lemma_comment_free_of(l, start_marker());
    lemma_comment_free_of(l, end_marker());
    assert(c.last() == l.last());
    assert(c.drop_first() =~= seq![32u8] + l);
    assert((seq![32u8] + l).drop_first() =~= l);
    assert(c[0] == 59u8);
    assert((seq![32u8] + l)[0] == 32u8);
    assert(drop_semicolons(seq![32u8] + l) == seq![32u8] + l);
    assert(drop_semicolons(c) == seq![32u8] + l);
    assert((seq![32u8] + l).subrange(1, l.len() + 1 as int) =~= l);
    assert(trim_front(seq![32u8] + l) == trim_front(l));
}

proof fn lemma_scan_thumbnail_lines(
    s: Seq<u8>,
    pos: int,
    ls: Seq<Seq<u8>>,
    h: Seq<Seq<u8>>,
    img: Seq<Seq<u8>>,
)
    requires
        0 <= pos,
        forall|i: int| 0 <= i < ls.len() ==> thumbnail_line(#[trigger] ls[i]),
        pos + lines_text(ls.map_values(|l: Seq<u8>| comment(l))).len() <= s.len(),
        s.subrange(pos, pos + lines_text(ls.map_values(|l: Seq<u8>| comment(l))).len())
            == lines_text(ls.map_values(|l: Seq<u8>| comment(l))),
    ensures
        scan_from(s, pos, true, h, img) == scan_from(
            s,
            pos + lines_text(ls.map_values(|l: Seq<u8>| comment(l))).len(),
            true,
            h,
            img + ls,
        ),
    decreases ls.len(),
{
    let cs = ls.map_values(|l: Seq<u8>| comment(l));
    if ls.len() == 0 {
        assert(img + ls =~= img);
    } else {
        let l = ls[0];
        assert(thumbnail_line(ls[0]));
        assert(cs[0] == comment(l));
        lemma_comment_line(l);
        lemma_first_line(s, pos, cs);
        lemma_scan_line(s, pos, comment(l));
        let rest = ls.drop_first();
        assert forall|i: int| 0 <= i < rest.len() implies thumbnail_line(#[trigger] rest[i]) by {
            assert(thumbnail_line(ls[i + 1]));
        }
        assert(cs.drop_first() =~= rest.map_values(|l: Seq<u8>| comment(l)));
        lemma_scan_thumbnail_lines(s, pos + comment(l).len() + 1, rest, h, img.push(l));
        assert(img.push(l) + rest =~= img + ls);
    }
}

proof fn lemma_single_line_text(l: Seq<u8>)
    ensures
        lines_text(seq![l]) == l + seq![10u8],
{
    assert(seq![l].drop_first() =~= Seq::<Seq<u8>>::empty());
    assert(lines_text(Seq::<Seq<u8>>::empty()) == Seq::<u8>::empty());
    assert(seq![l][0] == l);
    assert(l + seq![10u8] + Seq::<u8>::empty() =~= l + seq![10u8]);
}

proof fn lemma_start_line_step(s: Seq<u8>, pos: int, h: Seq<Seq<u8>>, img: Seq<Seq<u8>>)
    requires
        0 <= pos,
        pos + comment(start_marker()).len() + 1 <= s.len(),
        s.subrange(pos, pos + comment(start_marker()).len() + 1) == comment(start_marker()) + seq![
            10u8,
        ],
    ensures
        scan_from(s, pos, false, h, img) == scan_from(
            s,
            pos + comment(start_marker()).len() + 1,
            true,
            h,
            img,
        ),
{
    let sl = comment(start_marker());
    lemma_single_line_text(sl);
    assert forall|k: int| 0 <= k < sl.len() implies sl[k] != 10 by {}
    lemma_first_line(s, pos, seq![sl]);
    lemma_scan_line(s, pos, sl);
    assert(sl.subrange(2, 23) =~= start_marker());
    assert(occurs_at(sl, start_marker(), 2));
}

proof fn lemma_end_line_step(s: Seq<u8>, pos: int, h: Seq<Seq<u8>>, img: Seq<Seq<u8>>)
    requires
        0 <= pos,
        pos + comment(end_marker()).len() + 1 <= s.len(),
        s.subrange(pos, pos + comment(end_marker()).len() + 1) == comment(end_marker()) + seq![
            10u8,
        ],
    ensures
        scan_from(s, pos, true, h, img) == (Scanned {
            header: h,
            image: img,
            trailer: s.subrange(pos + comment(end_marker()).len() + 1, s.len() as int),
            terminated: true,
        }),
{
    let el = comment(end_marker());
    lemma_single_line_text(el);
    assert forall|k: int| 0 <= k < el.len() implies el[k] != 10 by {}
    lemma_first_line(s, pos, seq![el]);
    lemma_scan_line(s, pos, el);
    assert forall|i: int| !occurs_at(el, start_marker(), i) by {
        if occurs_at(el, start_marker(), i) {
            assert(el.subrange(i, i + 21)[0] == el[i]);
        }
    }
    assert(el.subrange(2, 21) =~= end_marker());
    assert(occurs_at(el, end_marker(), 2));
}

/// Scanning a file written as header lines, the opening marker line, one comment
/// line per thumbnail line, the closing marker line and a trailer gives back exactly
/// those header lines, thumbnail lines and trailer.
pub proof fn lemma_scan_recovers_written_block(
    header: Seq<Seq<u8>>,
    lines: Seq<Seq<u8>>,
    trailer: Seq<u8>,
)
    requires
        forall|i: int| 0 <= i < header.len() ==> plain_line(#[trigger] header[i]),
        forall|i: int| 0 <= i < lines.len() ==> thumbnail_line(#[trigger] lines[i]),
    ensures
        scan(file_text(header, lines, trailer)) == (Scanned {
            header,
            image: lines,
            trailer,
            terminated: true,
        }),
{
    let s = file_text(header, lines, trailer);
    let a = lines_text(header);
    let sl = comment(start_marker());
    let el = comment(end_marker());
    lemma_single_line_text(sl);
    lemma_single_line_text(el);
    let b = sl + seq![10u8];
    let c = lines_text(lines.map_values(|l: Seq<u8>| comment(l)));
    let d = el + seq![10u8];
    let p1 = a.len() as int;
    let p2 = p1 + b.len();
    let p3 = p2 + c.len();
    let p4 = p3 + d.len();
    assert(s == a + b + c + d + trailer);
    assert(s.subrange(0, p1) =~= a);
    assert(s.subrange(p1, p2) =~= b);
    assert(s.subrange(p2, p3) =~= c);
    assert(s.subrange(p3, p4) =~= d);
    assert(s.subrange(p4, s.len() as int) =~= trailer);
    lemma_scan_header_lines(s, 0, header, Seq::empty(), Seq::empty());
    assert(Seq::<Seq<u8>>::empty() + header =~= header);
    lemma_start_line_step(s, p1, header, Seq::empty());
    lemma_scan_thumbnail_lines(s, p2, lines, header, Seq::empty());
    assert(Seq::<Seq<u8>>::empty() + lines =~= lines);
    lemma_end_line_step(s, p3, header, lines);
}

} // verus!

verus! {

proof fn lemma_unterminated_from(
    s: Seq<u8>,
    pos: int,
    reading: bool,
    header: Seq<Seq<u8>>,
    image: Seq<Seq<u8>>,
)
    ensures
        !scan_from(s, pos, reading, header, image).terminated ==> scan_from(
            s,
            pos,
            reading,
            header,
            image,
        ).trailer.len() == 0,
    decreases s.len() - pos,
{
    if 0 <= pos < s.len() {
        lemma_line_end_bounds(s, pos);
        let line = s.subrange(pos, line_stop(s, pos));
        let next = next_line(s, pos);
        lemma_unterminated_from(s, next, true, header, image);
        lemma_unterminated_from(s, next, true, header, image.push(clean_line(line)));
        lemma_unterminated_from(s, next, false, header.push(line), image);
    }
}

/// Where the closing marker never follows, scanning reads to the end of the file:
/// nothing is left over as trailer.
pub proof fn lemma_unterminated_reads_to_end(s: Seq<u8>)
    ensures
        !scan(s).terminated ==> scan(s).trailer.len() == 0,
{
    lemma_unterminated_from(s, 0, false, Seq::empty(), Seq::empty());
}

} // verus!
