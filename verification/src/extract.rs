//! Content-block extraction: split sanitized markup at image tags, filter
//! the images, render each text segment to plain lines, classify the lines,
//! and build the chapter index.
use crate::sanitize::{contains_sub, find_sub, lemma_find_sub_at, lemma_find_sub_props, matches_at};
use crate::session::{Chapter, ContentBlock};
use crate::text::{
    digits_value, find_from, is_digit, lines_spec, strip_citations_spec, trim_spec,
};
use vstd::prelude::*;

verus! {

/// A content block as the specification sees it.
pub ghost enum BlockModel {
    Text(Seq<char>),
    Image(Seq<char>),
}

/// A chapter record as the specification sees it.
pub ghost struct ChapterModel {
    pub index: int,
    pub title: Seq<char>,
    pub position: int,
}

pub open spec fn block_view(b: ContentBlock) -> BlockModel {
    match b {
        ContentBlock::Text(t) => BlockModel::Text(t@),
        ContentBlock::Image(u) => BlockModel::Image(u@),
    }
}

pub open spec fn blocks_view(v: Seq<ContentBlock>) -> Seq<BlockModel> {
    v.map_values(|b: ContentBlock| block_view(b))
}

pub open spec fn chapter_view(c: Chapter) -> ChapterModel {
    ChapterModel { index: c.index as int, title: c.title@, position: c.block_position as int }
}

pub open spec fn chapters_view(v: Seq<Chapter>) -> Seq<ChapterModel> {
    v.map_values(|c: Chapter| chapter_view(c))
}

/// What the markup-to-text collaborator returns for a given markup and wrap
/// width; `None` when it reports an error. The result depends on the two
/// arguments alone.
pub uninterp spec fn rendered_text(html: Seq<char>, width: int) -> Option<Seq<char>>;

/// Relies on html2text::from_read: renders markup to plain text wrapped to
/// `width` columns; a deterministic function of its input and the width.
#[verifier::external_body]
pub(crate) fn render_markup(html: &str, width: usize) -> (r: Option<String>)
    ensures
        r is Some <==> rendered_text(html@, width as int) is Some,
        r matches Option::Some(t) ==> rendered_text(html@, width as int) == Option::Some(t@),
{
    html2text::from_read(html.as_bytes(), width).ok()
}

/// `p` starts `t`.
pub open spec fn starts_with(t: Seq<char>, p: Seq<char>) -> bool {
    matches_at(t, p, 0)
}

/// `p` ends `t`.
pub open spec fn ends_with(t: Seq<char>, p: Seq<char>) -> bool {
    matches_at(t, p, t.len() - p.len())
}

/// A pure reference-link definition line.
pub open spec fn is_ref_link_line(t: Seq<char>) -> bool {
    t.len() > 0 && t[0] == '[' && contains_sub(t, "]:"@)
}

/// A "jump to navigation/search" prompt line.
pub open spec fn is_jump_line(t: Seq<char>) -> bool {
    t.len() > 0 && t[0] == '*' && (contains_sub(t, "Jump to search"@) || contains_sub(
        t,
        "Jump to navigation"@,
    ))
}

/// A separator rule made solely of repeated `=` or `-`.
pub open spec fn is_separator_line(t: Seq<char>) -> bool {
    t.len() > 0 && forall|i: int| 0 <= i < t.len() ==> t[i] == '=' || t[i] == '-'
}

/// A bulleted list of bare links.
pub open spec fn is_link_list_line(t: Seq<char>) -> bool {
    starts_with(t, "* ["@) && contains_sub(t, "]["@)
}

/// A disambiguation hatnote remnant.
pub open spec fn is_disambig_line(t: Seq<char>) -> bool {
    contains_sub(t, "redirects here"@) && (contains_sub(t, "For other uses"@) || contains_sub(
        t,
        "disambiguation"@,
    ))
}

/// The "part of a series" boilerplate line.
pub open spec fn is_series_line(t: Seq<char>) -> bool {
    starts_with(t, "This article is part of a series"@)
}

/// Boilerplate dropped outright.
pub open spec fn is_dropped_line(t: Seq<char>) -> bool {
    is_ref_link_line(t) || is_jump_line(t) || is_separator_line(t) || is_link_list_line(t)
        || is_disambig_line(t) || is_series_line(t)
}

/// Number of leading occurrences of `c`.
pub open spec fn leading_run(s: Seq<char>, c: char) -> int
    decreases s.len(),
{
    if s.len() == 0 || s[0] != c {
        0
    } else {
        1 + leading_run(s.skip(1), c)
    }
}

/// Number of trailing occurrences of `c`.
pub open spec fn trailing_run(s: Seq<char>, c: char) -> int
    decreases s.len(),
{
    if s.len() == 0 || s[s.len() - 1] != c {
        0
    } else {
        1 + trailing_run(s.take(s.len() - 1), c)
    }
}

/// A heading line: a leading `#` marker, or wrapped in a double-equals pair.
pub open spec fn is_hash_header(t: Seq<char>) -> bool {
    t.len() > 0 && t[0] == '#'
}

pub open spec fn is_eq_header(t: Seq<char>) -> bool {
    starts_with(t, "=="@) && ends_with(t, "=="@)
}

/// The display title of a heading line, its marker stripped.
pub open spec fn header_title(t: Seq<char>) -> Seq<char> {
    if is_hash_header(t) {
        trim_spec(t.skip(leading_run(t, '#')))
    } else {
        let u = t.skip(leading_run(t, '='));
        trim_spec(u.take(u.len() - trailing_run(u, '=')))
    }
}

/// How one trimmed line is handled.
pub ghost enum LineClass {
    Skip,
    Header(Seq<char>),
    Body(Seq<char>),
}

pub open spec fn classify_line(t: Seq<char>) -> LineClass {
    if t.len() == 0 {
        LineClass::Skip
    } else if is_dropped_line(t) {
        LineClass::Skip
    } else if is_hash_header(t) || is_eq_header(t) {
        let d = header_title(t);
        if d.len() == 0 || d == "Contents"@ {
            LineClass::Skip
        } else {
            LineClass::Header(d)
        }
    } else {
        let f = trim_spec(strip_citations_spec(t, Option::None));
        if f.len() == 0 {
            LineClass::Skip
        } else {
            LineClass::Body(f)
        }
    }
}

/// The marker a heading keeps in the line buffer for styled rendering.
pub open spec fn header_marker(d: Seq<char>) -> Seq<char> {
    "###HEADER###"@ + d
}

/// Chapter block position recorded at discovery: one past the block count,
/// clamped to the machine's range.
pub open spec fn pos_of(offset: int) -> int {
    if offset + 1 <= usize::MAX as int {
        offset + 1
    } else {
        usize::MAX as int
    }
}

/// Process a segment's lines in order: kept lines, chapters discovered (with
/// running one-based indices from `counter` on; indices past the machine's
/// range are not recorded), and the counter after the segment.
pub open spec fn process_lines(lines: Seq<Seq<char>>, counter: int, offset: int) -> (
    Seq<Seq<char>>,
    Seq<ChapterModel>,
    int,
)
    decreases lines.len(),
{
    if lines.len() == 0 {
        (Seq::empty(), Seq::empty(), counter)
    } else {
        let t = trim_spec(lines[0]);
        match classify_line(t) {
            LineClass::Skip => process_lines(lines.skip(1), counter, offset),
            LineClass::Header(d) => {
                let rest = process_lines(lines.skip(1), counter + 1, offset);
                let recorded = if counter <= usize::MAX as int {
                    seq![ChapterModel { index: counter, title: d, position: pos_of(offset) }]
                } else {
                    Seq::empty()
                };
                (seq![header_marker(d)] + rest.0, recorded + rest.1, rest.2)
            },
            LineClass::Body(f) => {
                let rest = process_lines(lines.skip(1), counter, offset);
                (seq![f] + rest.0, rest.1, rest.2)
            },
        }
    }
}

/// Lines joined with newlines, in order.
pub open spec fn join_lines(ls: Seq<Seq<char>>) -> Seq<char>
    decreases ls.len(),
{
    if ls.len() == 0 {
        Seq::empty()
    } else if ls.len() == 1 {
        ls[0]
    } else {
        join_lines(ls.take(ls.len() - 1)) + seq!['\n'] + ls[ls.len() - 1]
    }
}

/// One text segment: rendered to plain lines at body width, its lines
/// filtered and classified; a text block arises only when a line survives.
pub open spec fn segment_out(html: Seq<char>, counter: int, offset: int) -> (
    Option<Seq<char>>,
    Seq<ChapterModel>,
    int,
)
{
    match rendered_text(html, 10000) {
        Option::None => (Option::None, Seq::empty(), counter),
        Option::Some(text) => {
            let r = process_lines(lines_spec(text), counter, offset);
            if r.0.len() > 0 {
                (Option::Some(join_lines(r.0)), r.1, r.2)
            } else {
                (Option::None, r.1, r.2)
            }
        },
    }
}

/// The image source address an image tag yields: taken from the quoted
/// source attribute, kept only for the expected media host and non-vector
/// assets, and made scheme-absolute.
pub open spec fn image_url(tag: Seq<char>) -> Option<Seq<char>> {
    let i = find_sub(tag, "src=\""@, 0);
    if i >= tag.len() {
        Option::None
    } else {
        let s = tag.skip(i + 5);
        let q = find_from(s, '"', 0);
        if q >= s.len() {
            Option::None
        } else {
            let u = s.take(q);
            if contains_sub(u, "upload.wikimedia.org"@) && !ends_with(u, ".svg"@) {
                Option::Some(
                    if starts_with(u, "//"@) {
                        "https:"@ + u
                    } else {
                        u
                    },
                )
            } else {
                Option::None
            }
        }
    }
}

/// Number of leading decimal digits.
pub open spec fn leading_digits(s: Seq<char>) -> int
    decreases s.len(),
{
    if s.len() == 0 || !is_digit(s[0]) {
        0
    } else {
        1 + leading_digits(s.skip(1))
    }
}

/// Whether the tag's width attribute parses to a number above the content
/// threshold; an unparsable or overflowing run counts as zero.
pub open spec fn image_big(tag: Seq<char>) -> bool {
    let i = find_sub(tag, "width=\""@, 0);
    if i >= tag.len() {
        false
    } else {
        let s = tag.skip(i + 7);
        let d = s.take(leading_digits(s));
        let v = if d.len() > 0 && digits_value(d) <= u32::MAX as int {
            digits_value(d)
        } else {
            0
        };
        v > 100
    }
}

/// Split at every occurrence of `pat`, the separators dropped.
pub open spec fn split_sub(s: Seq<char>, pat: Seq<char>) -> Seq<Seq<char>>
    decreases s.len(),
    when pat.len() >= 1
    via split_sub_dec
{
    let j = find_sub(s, pat, 0);
    if 0 <= j < s.len() {
        seq![s.take(j)] + split_sub(s.skip(j + pat.len()), pat)
    } else {
        seq![s]
    }
}

#[via_fn]
proof fn split_sub_dec(s: Seq<char>, pat: Seq<char>) {
    lemma_find_sub_props(s, pat, 0);
}

/// The tail segments, each an image tag fragment followed by trailing text:
/// a kept image block, then the trailing text's block, in encounter order. A
/// fragment without a closing `>` contributes nothing.
pub open spec fn extract_rest(parts: Seq<Seq<char>>, counter: int, nblocks: int) -> (
    Seq<BlockModel>,
    Seq<Seq<char>>,
    Seq<ChapterModel>,
)
    decreases parts.len(),
{
    if parts.len() == 0 {
        (Seq::empty(), Seq::empty(), Seq::empty())
    } else {
        let part = parts[0];
        let e = find_from(part, '>', 0);
        if e >= part.len() {
            extract_rest(parts.skip(1), counter, nblocks)
        } else {
            let tag = part.take(e);
            let rem = part.skip(e + 1);
            let keep = image_url(tag) is Some && image_big(tag);
            let img: Seq<BlockModel> = if keep {
                seq![BlockModel::Image(image_url(tag)->0)]
            } else {
                Seq::empty()
            };
            let urls: Seq<Seq<char>> = if keep {
                seq![image_url(tag)->0]
            } else {
                Seq::empty()
            };
            let nb = nblocks + img.len();
            let seg = segment_out(rem, counter, nb);
            let tb: Seq<BlockModel> = match seg.0 {
                Option::Some(t) => seq![BlockModel::Text(t)],
                Option::None => Seq::empty(),
            };
            let rest = extract_rest(parts.skip(1), seg.2, nb + tb.len());
            (img + tb + rest.0, urls + rest.1, seg.1 + rest.2)
        }
    }
}

/// The whole extraction: blocks in document order, the kept image addresses
/// in encounter order, and the chapter index.
pub open spec fn extract_spec(html: Seq<char>) -> (
    Seq<BlockModel>,
    Seq<Seq<char>>,
    Seq<ChapterModel>,
) {
    let parts = split_sub(html, "<img"@);
    let seg0 = segment_out(parts[0], 1, 0);
    let b0: Seq<BlockModel> = match seg0.0 {
        Option::Some(t) => seq![BlockModel::Text(t)],
        Option::None => Seq::empty(),
    };
    let rest = extract_rest(parts.skip(1), seg0.2, b0.len() as int);
    (b0 + rest.0, rest.1, seg0.1 + rest.2)
}


proof fn lemma_leading_run_char(s: Seq<char>, c: char, k: int)
    requires
        0 <= k <= s.len(),
        forall|i: int| 0 <= i < k ==> s[i] == c,
        k < s.len() ==> s[k] != c,
    ensures
        leading_run(s, c) == k,
    decreases s.len(),
{
    if k > 0 {
        lemma_leading_run_char(s.skip(1), c, k - 1);
    }
}

proof fn lemma_trailing_run_char(s: Seq<char>, c: char, k: int)
    requires
        0 <= k <= s.len(),
        forall|i: int| k <= i < s.len() ==> s[i] == c,
        k > 0 ==> s[k - 1] != c,
    ensures
        trailing_run(s, c) == s.len() - k,
    decreases s.len(),
{
    if k < s.len() {
        lemma_trailing_run_char(s.take(s.len() - 1), c, k);
    }
}

proof fn lemma_leading_digits_char(s: Seq<char>, k: int)
    requires
        0 <= k <= s.len(),
        forall|i: int| 0 <= i < k ==> is_digit(s[i]),
        k < s.len() ==> !is_digit(s[k]),
    ensures
        leading_digits(s) == k,
    decreases s.len(),
{
    if k > 0 {
        lemma_leading_digits_char(s.skip(1), k - 1);
    }
}

/// Index at which the leading run of `c` ends.
pub fn run_start(s: &Vec<char>, c: char) -> (r: usize)
    ensures
        r == leading_run(s@, c),
        0 <= r <= s@.len(),
{
    let n = s.len();
    let mut i: usize = 0;
    while i < n && s[i] == c
        invariant
            0 <= i <= n == s@.len(),
            forall|m: int| 0 <= m < i ==> s@[m] == c,
        decreases n - i,
    {
        i += 1;
    }
    proof {
        lemma_leading_run_char(s@, c, i as int);
    }
    i
}

/// Index at which the trailing run of `c` begins.
pub fn run_end_start(s: &Vec<char>, c: char) -> (r: usize)
    ensures
        trailing_run(s@, c) == s@.len() - r,
        0 <= r <= s@.len(),
{
    let mut j = s.len();
    while j > 0 && s[j - 1] == c
        invariant
            0 <= j <= s@.len(),
            forall|m: int| j <= m < s@.len() ==> s@[m] == c,
        decreases j,
    {
        j -= 1;
    }
    proof {
        lemma_trailing_run_char(s@, c, j as int);
    }
    j
}

/// Length of the leading run of digits.
fn digits_run(s: &Vec<char>) -> (r: usize)
    ensures
        r == leading_digits(s@),
        0 <= r <= s@.len(),
        forall|i: int| 0 <= i < r ==> is_digit(s@[i]),
{
    let n = s.len();
    let mut i: usize = 0;
    while i < n && crate::text::digit(s[i])
        invariant
            0 <= i <= n == s@.len(),
            forall|m: int| 0 <= m < i ==> is_digit(s@[m]),
        decreases n - i,
    {
        i += 1;
    }
    proof {
        lemma_leading_digits_char(s@, i as int);
    }
    i
}

/// Character-for-character equality of two buffers.
fn chars_eq(a: &Vec<char>, b: &Vec<char>) -> (r: bool)
    ensures
        r == (a@ == b@),
{
    if a.len() != b.len() {
        return false;
    }
    let n = a.len();
    let mut i: usize = 0;
    while i < n
        invariant
            0 <= i <= n == a@.len() == b@.len(),
            forall|m: int| 0 <= m < i ==> a@[m] == b@[m],
        decreases n - i,
    {
        if a[i] != b[i] {
            return false;
        }
        i += 1;
    }
    proof {
        assert(a@ =~= b@);
    }
    true
}

/// Append `src` to `dst`.
pub fn append_chars(dst: &mut Vec<char>, src: &Vec<char>)
    ensures
        final(dst)@ == old(dst)@ + src@,
{
    let n = src.len();
    let mut i: usize = 0;
    while i < n
        invariant
            0 <= i <= n == src@.len(),
            dst@ == old(dst)@ + src@.take(i as int),
        decreases n - i,
    {
        let c = src[i];
        dst.push(c);
        proof {
            assert(old(dst)@ + src@.take(i + 1) =~= (old(dst)@ + src@.take(i as int)).push(
                src@[i as int],
            ));
        }
        i += 1;
    }
    proof {
        assert(src@.take(n as int) =~= src@);
    }
}

pub fn starts_with_exec(t: &Vec<char>, p: &Vec<char>) -> (r: bool)
    ensures
        r == starts_with(t@, p@),
{
    crate::sanitize::check_match(t, p, 0)
}

pub fn ends_with_exec(t: &Vec<char>, p: &Vec<char>) -> (r: bool)
    ensures
        r == ends_with(t@, p@),
{
    if p.len() > t.len() {
        return false;
    }
    crate::sanitize::check_match(t, p, t.len() - p.len())
}

/// Whether the trimmed line is boilerplate dropped outright.
fn dropped_line_exec(t: &Vec<char>) -> (r: bool)
    ensures
        r == is_dropped_line(t@),
{
    proof {
        reveal_strlit("]:");
        reveal_strlit("Jump to search");
        reveal_strlit("Jump to navigation");
        reveal_strlit("* [");
        reveal_strlit("][");
        reveal_strlit("redirects here");
        reveal_strlit("For other uses");
        reveal_strlit("disambiguation");
        reveal_strlit("This article is part of a series");
    }
    let ref_pat = crate::strings::str_to_chars("]:");
    if t.len() > 0 && t[0] == '[' && crate::sanitize::contains_sub_exec(t, &ref_pat) {
        return true;
    }
    let jump1 = crate::strings::str_to_chars("Jump to search");
    let jump2 = crate::strings::str_to_chars("Jump to navigation");
    if t.len() > 0 && t[0] == '*' && (crate::sanitize::contains_sub_exec(t, &jump1)
        || crate::sanitize::contains_sub_exec(t, &jump2)) {
        return true;
    }
    if separator_line_exec(t) {
        return true;
    }
    let bullet = crate::strings::str_to_chars("* [");
    let brk = crate::strings::str_to_chars("][");
    if starts_with_exec(t, &bullet) && crate::sanitize::contains_sub_exec(t, &brk) {
        return true;
    }
    let redir = crate::strings::str_to_chars("redirects here");
    let other = crate::strings::str_to_chars("For other uses");
    let disamb = crate::strings::str_to_chars("disambiguation");
    if crate::sanitize::contains_sub_exec(t, &redir) && (crate::sanitize::contains_sub_exec(
        t,
        &other,
    ) || crate::sanitize::contains_sub_exec(t, &disamb)) {
        return true;
    }
    let series = crate::strings::str_to_chars("This article is part of a series");
    if starts_with_exec(t, &series) {
        return true;
    }
    false
}

fn separator_line_exec(t: &Vec<char>) -> (r: bool)
    ensures
        r == is_separator_line(t@),
{
    let n = t.len();
    if n == 0 {
        return false;
    }
    let mut i: usize = 0;
    while i < n
        invariant
            0 <= i <= n == t@.len(),
            forall|m: int| 0 <= m < i ==> t@[m] == '=' || t@[m] == '-',
        decreases n - i,
    {
        if t[i] != '=' && t[i] != '-' {
            return false;
        }
        i += 1;
    }
    true
}

/// How the executable code handles one trimmed line.
enum LineKind {
    Skip,
    Header(Vec<char>),
    Body(Vec<char>),
}

fn classify_exec(t: &Vec<char>) -> (r: LineKind)
    ensures
        match r {
            LineKind::Skip => classify_line(t@) is Skip,
            LineKind::Header(d) => classify_line(t@) == LineClass::Header(d@),
            LineKind::Body(f) => classify_line(t@) == LineClass::Body(f@),
        },
{
    if t.len() == 0 {
        return LineKind::Skip;
    }
    if dropped_line_exec(t) {
        return LineKind::Skip;
    }
    proof {
        reveal_strlit("==");
        reveal_strlit("Contents");
    }
    let eq2 = crate::strings::str_to_chars("==");
    let hash = t[0] == '#';
    let eqh = starts_with_exec(t, &eq2) && ends_with_exec(t, &eq2);
    if hash || eqh {
        let d: Vec<char>;
        if hash {
            let k = run_start(t, '#');
            let tail = crate::text::copy_range(t, k, t.len());
            proof {
                assert(tail@ =~= t@.skip(leading_run(t@, '#')));
            }
            d = crate::text::trim(&tail);
        } else {
            let k = run_start(t, '=');
            let u = crate::text::copy_range(t, k, t.len());
            proof {
                assert(u@ =~= t@.skip(leading_run(t@, '=')));
            }
            let m = run_end_start(&u, '=');
            let v = crate::text::copy_range(&u, 0, m);
            proof {
                assert(v@ =~= u@.take(u@.len() - trailing_run(u@, '=')));
            }
            d = crate::text::trim(&v);
        }
        let contents = crate::strings::str_to_chars("Contents");
        if d.len() == 0 || chars_eq(&d, &contents) {
            return LineKind::Skip;
        }
        return LineKind::Header(d);
    }
    let stripped = crate::text::strip_citations(t, Option::None);
    let f = crate::text::trim(&stripped);
    if f.len() == 0 {
        return LineKind::Skip;
    }
    LineKind::Body(f)
}


/// One pass over a segment's lines, mirroring `process_lines`. The counter
/// runs as a machine word while `valid` holds, that is while it still fits.
fn process_lines_exec(
    lines: &Vec<Vec<char>>,
    counter0: usize,
    valid0: bool,
    Ghost(gc0): Ghost<int>,
    offset: usize,
) -> (r: (Vec<Vec<char>>, Vec<Chapter>, usize, bool))
    requires
        valid0 <==> gc0 <= usize::MAX as int,
        valid0 ==> counter0 as int == gc0,
    ensures
        r.0.deep_view() == process_lines(lines.deep_view(), gc0, offset as int).0,
        chapters_view(r.1@) == process_lines(lines.deep_view(), gc0, offset as int).1,
        r.3 <==> process_lines(lines.deep_view(), gc0, offset as int).2 <= usize::MAX as int,
        r.3 ==> r.2 as int == process_lines(lines.deep_view(), gc0, offset as int).2,
{
    let ghost ll = lines.deep_view();
    let pos: usize = if offset < usize::MAX {
        offset + 1
    } else {
        usize::MAX
    };
    let mut kept: Vec<Vec<char>> = Vec::new();
    let mut chaps: Vec<Chapter> = Vec::new();
    let mut counter: usize = counter0;
    let mut valid: bool = valid0;
    let ghost mut gc: int = gc0;
    let n = lines.len();
    let mut i: usize = 0;
    proof {
        assert(ll.skip(0) =~= ll);
        assert(kept.deep_view() + process_lines(ll, gc0, offset as int).0 =~~= process_lines(
            ll,
            gc0,
            offset as int,
        ).0);
        assert(chapters_view(chaps@) + process_lines(ll, gc0, offset as int).1
            =~= process_lines(ll, gc0, offset as int).1);
    }
    while i < n
        invariant
            0 <= i <= n == ll.len(),
            ll == lines.deep_view(),
            pos as int == pos_of(offset as int),
            valid <==> gc <= usize::MAX as int,
            valid ==> counter as int == gc,
            process_lines(ll, gc0, offset as int).0 == kept.deep_view() + process_lines(
                ll.skip(i as int),
                gc,
                offset as int,
            ).0,
            process_lines(ll, gc0, offset as int).1 == chapters_view(chaps@) + process_lines(
                ll.skip(i as int),
                gc,
                offset as int,
            ).1,
            process_lines(ll, gc0, offset as int).2 == process_lines(
                ll.skip(i as int),
                gc,
                offset as int,
            ).2,
        decreases n - i,
    {
        let ghost tail = ll.skip(i as int);
        proof {
            assert(tail[0] == ll[i as int]);
            assert(ll[i as int] == lines@[i as int]@);
            assert(tail.skip(1) =~= ll.skip(i + 1));
        }
        let t = crate::text::trim(&lines[i]);
        match classify_exec(&t) {
            LineKind::Skip => {},
            LineKind::Header(d) => {
                let mut marker = crate::strings::str_to_chars("###HEADER###");
                append_chars(&mut marker, &d);
                let ghost prev_kept = kept.deep_view();
                kept.push(marker);
                proof {
                    assert(kept.deep_view() =~~= prev_kept + seq![header_marker(d@)]);
                }
                if valid {
                    let title = crate::strings::chars_to_string(&d);
                    let ghost prev_ch = chapters_view(chaps@);
                    chaps.push(Chapter { index: counter, title, block_position: pos });
                    proof {
                        assert(chaps@.map_values(|c: Chapter| chapter_view(c)) =~= prev_ch + seq![
                            ChapterModel {
                                index: gc,
                                title: d@,
                                position: pos_of(offset as int),
                            },
                        ]);
                    }
                    if counter < usize::MAX {
                        counter += 1;
                    } else {
                        valid = false;
                    }
                }
                proof {
                    gc = gc + 1;
                }
            },
            LineKind::Body(f) => {
                let ghost prev_kept = kept.deep_view();
                kept.push(f);
                proof {
                    assert(kept.deep_view() =~~= prev_kept + seq![f@]);
                }
            },
        }
        i += 1;
    }
    proof {
        assert(ll.skip(n as int) =~= Seq::<Seq<char>>::empty());
        assert(kept.deep_view() + Seq::<Seq<char>>::empty() =~~= kept.deep_view());
        assert(chapters_view(chaps@) + Seq::<ChapterModel>::empty() =~= chapters_view(chaps@));
    }
    (kept, chaps, counter, valid)
}

/// Join kept lines with newlines.
pub fn join_exec(ls: &Vec<Vec<char>>) -> (r: Vec<char>)
    ensures
        r@ == join_lines(ls.deep_view()),
{
    let ghost ll = ls.deep_view();
    let mut r: Vec<char> = Vec::new();
    let n = ls.len();
    let mut i: usize = 0;
    proof {
        assert(ll.take(0) =~~= Seq::<Seq<char>>::empty());
    }
    while i < n
        invariant
            0 <= i <= n == ll.len(),
            ll == ls.deep_view(),
            r@ == join_lines(ll.take(i as int)),
        decreases n - i,
    {
        let ghost prev = r@;
        if i > 0 {
            r.push('\n');
        }
        append_chars(&mut r, &ls[i]);
        proof {
            assert(ll.take(i + 1).take(i as int) =~~= ll.take(i as int));
            assert(ll.take(i + 1)[i as int] == ll[i as int]);
            assert(ll[i as int] == ls@[i as int]@);
            if i == 0 {
                assert(r@ =~= ll[0]);
            } else {
                assert(r@ =~= join_lines(ll.take(i as int)) + seq!['\n'] + ll[i as int]);
            }
        }
        i += 1;
    }
    proof {
        assert(ll.take(n as int) =~~= ll);
    }
    r
}

/// The lines of a rendered text.
pub fn lines_exec(tc: &Vec<char>) -> (r: Vec<Vec<char>>)
    ensures
        r.deep_view() == lines_spec(tc@),
{
    let n = tc.len();
    if n == 0 {
        let r: Vec<Vec<char>> = Vec::new();
        proof {
            assert(r.deep_view() =~~= lines_spec(tc@));
        }
        return r;
    }
    if tc[n - 1] == '\n' {
        let head = crate::text::copy_range(tc, 0, n - 1);
        proof {
            assert(head@ =~= tc@.take(n - 1));
        }
        crate::text::split_chars(&head, '\n')
    } else {
        crate::text::split_chars(tc, '\n')
    }
}

proof fn lemma_matches_at_skip(s: Seq<char>, pat: Seq<char>, k: int, i: int)
    requires
        0 <= k <= s.len(),
        0 <= i,
    ensures
        matches_at(s.skip(k), pat, i) <==> matches_at(s, pat, k + i),
{
    if i + pat.len() <= s.skip(k).len() {
        assert(s.skip(k).subrange(i, i + pat.len()) =~= s.subrange(k + i, k + i + pat.len()));
    }
}

proof fn lemma_find_sub_shift(s: Seq<char>, pat: Seq<char>, k: int, from: int)
    requires
        0 <= k <= s.len(),
        0 <= from <= s.len() - k,
        pat.len() >= 1,
    ensures
        find_sub(s.skip(k), pat, from) == find_sub(s, pat, k + from) - k,
    decreases s.len() - k - from,
{
    let t = s.skip(k);
    lemma_matches_at_skip(s, pat, k, from);
    if from + pat.len() > t.len() {
        lemma_find_sub_props(s, pat, k + from);
        assert forall|i: int| k + from <= i < s.len() implies !matches_at(s, pat, i) by {}
        lemma_find_sub_at(s, pat, k + from, s.len() as int);
    } else if matches_at(t, pat, from) {
        lemma_find_sub_at(s, pat, k + from, k + from);
    } else {
        lemma_find_sub_shift(s, pat, k, from + 1);
        lemma_find_sub_props(s, pat, k + from + 1);
        lemma_find_sub_at(s, pat, k + from, find_sub(s, pat, k + from + 1));
    }
}

/// Split at every occurrence of `pat`.
fn split_sub_exec(s: &Vec<char>, pat: &Vec<char>) -> (r: Vec<Vec<char>>)
    requires
        pat@.len() >= 1,
    ensures
        r.deep_view() == split_sub(s@, pat@),
        r@.len() >= 1,
{
    let n = s.len();
    let mut r: Vec<Vec<char>> = Vec::new();
    let mut start: usize = 0;
    proof {
        assert(s@.skip(0) =~= s@);
        assert(r.deep_view() + split_sub(s@, pat@) =~~= split_sub(s@, pat@));
    }
    loop
        invariant
            0 <= start <= n == s@.len(),
            pat@.len() >= 1,
            split_sub(s@, pat@) == r.deep_view() + split_sub(s@.skip(start as int), pat@),
        decreases n - start,
    {
        let j = crate::sanitize::find_sub_at(s, pat, start);
        proof {
            lemma_find_sub_props(s@, pat@, start as int);
            lemma_find_sub_shift(s@, pat@, start as int, 0);
        }
        let ghost tail = s@.skip(start as int);
        if j < n {
            let piece = crate::text::copy_range(s, start, j);
            proof {
                assert(piece@ =~= tail.take(j - start));
                assert(tail.skip(j - start + pat@.len()) =~= s@.skip(j + pat@.len()));
            }
            let ghost prev = r.deep_view();
            r.push(piece);
            proof {
                assert(r.deep_view() =~~= prev + seq![tail.take(j - start)]);
            }
            start = j + pat.len();
        } else {
            let piece = crate::text::copy_range(s, start, n);
            proof {
                assert(piece@ =~= tail);
            }
            let ghost prev = r.deep_view();
            r.push(piece);
            proof {
                assert(r.deep_view() =~~= prev + seq![tail]);
            }
            return r;
        }
    }
}

/// The kept image address of a tag fragment, if any.
fn image_url_exec(tag: &Vec<char>) -> (r: Option<Vec<char>>)
    ensures
        match r {
            Option::Some(u) => image_url(tag@) == Option::Some(u@),
            Option::None => image_url(tag@) is None,
        },
{
    proof {
        reveal_strlit("src=\"");
        reveal_strlit("upload.wikimedia.org");
        reveal_strlit(".svg");
        reveal_strlit("//");
        reveal_strlit("https:");
    }
    let src_pat = crate::strings::str_to_chars("src=\"");
    let i = crate::sanitize::find_sub_at(tag, &src_pat, 0);
    proof {
        lemma_find_sub_props(tag@, "src=\""@, 0);
    }
    if i >= tag.len() {
        return Option::None;
    }
    let s2 = crate::text::copy_range(tag, i + 5, tag.len());
    proof {
        assert(s2@ =~= tag@.skip(i + 5));
    }
    let q = crate::text::find_char_from(&s2, '"', 0);
    proof {
        crate::text::lemma_find_from_props(s2@, '"', 0);
    }
    if q >= s2.len() {
        return Option::None;
    }
    let u = crate::text::copy_range(&s2, 0, q);
    proof {
        assert(u@ =~= s2@.take(q as int));
    }
    let host = crate::strings::str_to_chars("upload.wikimedia.org");
    let svg = crate::strings::str_to_chars(".svg");
    if crate::sanitize::contains_sub_exec(&u, &host) && !ends_with_exec(&u, &svg) {
        let scheme_rel = crate::strings::str_to_chars("//");
        if starts_with_exec(&u, &scheme_rel) {
            let mut w = crate::strings::str_to_chars("https:");
            append_chars(&mut w, &u);
            Option::Some(w)
        } else {
            Option::Some(u)
        }
    } else {
        Option::None
    }
}

/// Whether the tag's width attribute clears the content threshold.
fn image_big_exec(tag: &Vec<char>) -> (r: bool)
    ensures
        r == image_big(tag@),
{
    proof {
        reveal_strlit("width=\"");
    }
    let w_pat = crate::strings::str_to_chars("width=\"");
    let i = crate::sanitize::find_sub_at(tag, &w_pat, 0);
    proof {
        lemma_find_sub_props(tag@, "width=\""@, 0);
    }
    if i >= tag.len() {
        return false;
    }
    let s2 = crate::text::copy_range(tag, i + 7, tag.len());
    proof {
        assert(s2@ =~= tag@.skip(i + 7));
    }
    let k = digits_run(&s2);
    let d = crate::text::copy_range(&s2, 0, k);
    proof {
        assert(d@ =~= s2@.take(leading_digits(s2@)));
    }
    match crate::text::parse_usize(&d) {
        Option::Some(v) => v <= u32::MAX as usize && v > 100,
        Option::None => false,
    }
}


/// One text segment end to end: render, split to lines, filter and classify,
/// join the survivors.
fn process_segment(
    part: &Vec<char>,
    counter: usize,
    valid: bool,
    Ghost(gc): Ghost<int>,
    offset: usize,
) -> (r: (Option<Vec<char>>, Vec<Chapter>, usize, bool))
    requires
        valid <==> gc <= usize::MAX as int,
        valid ==> counter as int == gc,
    ensures
        match r.0 {
            Option::Some(t) => segment_out(part@, gc, offset as int).0 == Option::Some(t@),
            Option::None => segment_out(part@, gc, offset as int).0 is None,
        },
        chapters_view(r.1@) == segment_out(part@, gc, offset as int).1,
        r.3 <==> segment_out(part@, gc, offset as int).2 <= usize::MAX as int,
        r.3 ==> r.2 as int == segment_out(part@, gc, offset as int).2,
{
    let html = crate::strings::chars_to_string(part);
    match render_markup(html.as_str(), 10000) {
        Option::None => {
            let empty: Vec<Chapter> = Vec::new();
            proof {
                assert(chapters_view(empty@) =~= Seq::<ChapterModel>::empty());
            }
            (Option::None, empty, counter, valid)
        },
        Option::Some(text) => {
            let tc = crate::strings::str_to_chars(text.as_str());
            let lines = lines_exec(&tc);
            let (kept, chaps, c2, v2) = process_lines_exec(
                &lines,
                counter,
                valid,
                Ghost(gc),
                offset,
            );
            if kept.len() > 0 {
                let joined = join_exec(&kept);
                (Option::Some(joined), chaps, c2, v2)
            } else {
                (Option::None, chaps, c2, v2)
            }
        },
    }
}

/// Split sanitized markup into ordered content blocks, the image addresses
/// kept for download, and the chapter index.
pub fn parse_content_blocks(html: &str) -> (r: (Vec<ContentBlock>, Vec<String>, Vec<Chapter>))
    ensures
        blocks_view(r.0@) == extract_spec(html@).0,
        r.1.deep_view() == extract_spec(html@).1,
        chapters_view(r.2@) == extract_spec(html@).2,
{
    proof {
        reveal_strlit("<img");
    }
    let chars = crate::strings::str_to_chars(html);
    let imgpat = crate::strings::str_to_chars("<img");
    let parts = split_sub_exec(&chars, &imgpat);
    let ghost pv = parts.deep_view();
    let ghost e_spec = extract_spec(html@);
    proof {
        assert(pv[0] == parts@[0]@);
    }
    let mut blocks: Vec<ContentBlock> = Vec::new();
    let mut urls: Vec<String> = Vec::new();
    let (t0, chaps0, c1, v1) = process_segment(&parts[0], 1, true, Ghost(1int), 0);
    let mut chaps: Vec<Chapter> = chaps0;
    match t0 {
        Option::Some(t) => {
            let ghost prev = blocks_view(blocks@);
            let ts = crate::strings::chars_to_string(&t);
            blocks.push(ContentBlock::Text(ts));
            proof {
                assert(blocks_view(blocks@) =~~= prev + seq![BlockModel::Text(t@)]);
            }
        },
        Option::None => {},
    }
    let ghost mut gc: int = segment_out(pv[0], 1, 0).2;
    let mut c: usize = c1;
    let mut v: bool = v1;
    let n = parts.len();
    let mut i: usize = 1;
    proof {
        assert(urls.deep_view() =~~= Seq::<Seq<char>>::empty());
        assert(e_spec.0 =~~= blocks_view(blocks@) + extract_rest(
            pv.skip(1),
            gc,
            blocks@.len() as int,
        ).0);
        assert(e_spec.1 =~~= urls.deep_view() + extract_rest(
            pv.skip(1),
            gc,
            blocks@.len() as int,
        ).1);
        assert(e_spec.2 =~= chapters_view(chaps@) + extract_rest(
            pv.skip(1),
            gc,
            blocks@.len() as int,
        ).2);
    }
    while i < n
        invariant
            1 <= i <= n == pv.len(),
            pv == parts.deep_view(),
            e_spec == extract_spec(html@),
            v <==> gc <= usize::MAX as int,
            v ==> c as int == gc,
            e_spec.0 == blocks_view(blocks@) + extract_rest(
                pv.skip(i as int),
                gc,
                blocks@.len() as int,
            ).0,
            e_spec.1 == urls.deep_view() + extract_rest(
                pv.skip(i as int),
                gc,
                blocks@.len() as int,
            ).1,
            e_spec.2 == chapters_view(chaps@) + extract_rest(
                pv.skip(i as int),
                gc,
                blocks@.len() as int,
            ).2,
        decreases n - i,
    {
        let ghost tail = pv.skip(i as int);
        proof {
            assert(tail[0] == pv[i as int]);
            assert(pv[i as int] == parts@[i as int]@);
            assert(tail.skip(1) =~~= pv.skip(i + 1));
        }
        let part = &parts[i];
        let e = crate::text::find_char_from(part, '>', 0);
        proof {
            crate::text::lemma_find_from_props(part@, '>', 0);
        }
        if e < part.len() {
            let tag = crate::text::copy_range(part, 0, e);
            let rem = crate::text::copy_range(part, e + 1, part.len());
            proof {
                assert(tag@ =~= pv[i as int].take(e as int));
                assert(rem@ =~= pv[i as int].skip(e + 1));
            }
            match image_url_exec(&tag) {
                Option::Some(u) => {
                    if image_big_exec(&tag) {
                        let ghost prev_b = blocks_view(blocks@);
                        let ghost prev_u = urls.deep_view();
                        let us1 = crate::strings::chars_to_string(&u);
                        let us2 = crate::strings::chars_to_string(&u);
                        urls.push(us1);
                        blocks.push(ContentBlock::Image(us2));
                        proof {
                            assert(blocks_view(blocks@) =~~= prev_b + seq![
                                BlockModel::Image(u@),
                            ]);
                            assert(urls.deep_view() =~~= prev_u + seq![u@]);
                        }
                    }
                },
                Option::None => {},
            }
            let (tt, mut chs, c2, v2) = process_segment(&rem, c, v, Ghost(gc), blocks.len());
            proof {
                gc = segment_out(rem@, gc, blocks@.len() as int).2;
            }
            c = c2;
            v = v2;
            match tt {
                Option::Some(t) => {
                    let ghost prev_b = blocks_view(blocks@);
                    let ts = crate::strings::chars_to_string(&t);
                    blocks.push(ContentBlock::Text(ts));
                    proof {
                        assert(blocks_view(blocks@) =~~= prev_b + seq![BlockModel::Text(t@)]);
                    }
                },
                Option::None => {},
            }
            let ghost prev_c = chapters_view(chaps@);
            let ghost chs_v = chapters_view(chs@);
            chaps.append(&mut chs);
            proof {
                assert(chapters_view(chaps@) =~= prev_c + chs_v);
            }
        }
        i += 1;
    }
    proof {
        assert(pv.skip(n as int) =~~= Seq::<Seq<char>>::empty());
        assert(blocks_view(blocks@) + extract_rest(pv.skip(n as int), gc, blocks@.len() as int).0
            =~~= blocks_view(blocks@));
        assert(urls.deep_view() + extract_rest(pv.skip(n as int), gc, blocks@.len() as int).1
            =~~= urls.deep_view());
        assert(chapters_view(chaps@) + extract_rest(pv.skip(n as int), gc, blocks@.len() as int).2
            =~= chapters_view(chaps@));
    }
    (blocks, urls, chaps)
}


/// The addresses of the image blocks, in block order.
pub open spec fn image_addresses(blocks: Seq<BlockModel>) -> Seq<Seq<char>>
    decreases blocks.len(),
{
    if blocks.len() == 0 {
        Seq::empty()
    } else {
        let head: Seq<Seq<char>> = match blocks[0] {
            BlockModel::Image(u) => seq![u],
            BlockModel::Text(_) => Seq::empty(),
        };
        head + image_addresses(blocks.skip(1))
    }
}

proof fn lemma_image_addresses_add(a: Seq<BlockModel>, b: Seq<BlockModel>)
    ensures
        image_addresses(a + b) == image_addresses(a) + image_addresses(b),
    decreases a.len(),
{
    if a.len() == 0 {
        assert(a + b =~= b);
        assert(image_addresses(a) + image_addresses(b) =~~= image_addresses(b));
    } else {
        lemma_image_addresses_add(a.skip(1), b);
        assert((a + b)[0] == a[0]);
        assert((a + b).skip(1) =~= a.skip(1) + b);
        match a[0] {
            BlockModel::Image(u) => {
                assert(seq![u] + (image_addresses(a.skip(1)) + image_addresses(b)) =~~= (seq![u]
                    + image_addresses(a.skip(1))) + image_addresses(b));
            },
            BlockModel::Text(_) => {
                assert(image_addresses(a.skip(1)) + image_addresses(b)
                    =~~= (Seq::<Seq<char>>::empty() + image_addresses(a.skip(1)))
                    + image_addresses(b));
            },
        }
    }
}

proof fn lemma_image_addresses_empty()
    ensures
        image_addresses(Seq::<BlockModel>::empty()) == Seq::<Seq<char>>::empty(),
{
}

proof fn lemma_image_addresses_single(b: BlockModel)
    ensures
        image_addresses(seq![b]) == (match b {
            BlockModel::Image(u) => seq![u],
            BlockModel::Text(_) => Seq::<Seq<char>>::empty(),
        }),
{
    assert(seq![b].skip(1) =~= Seq::<BlockModel>::empty());
    lemma_image_addresses_empty();
    match b {
        BlockModel::Image(u) => {
            assert(image_addresses(seq![b]) =~~= seq![u]);
        },
        BlockModel::Text(_) => {
            assert(image_addresses(seq![b]) =~~= Seq::<Seq<char>>::empty());
        },
    }
}

proof fn lemma_rest_addresses(parts: Seq<Seq<char>>, counter: int, nb: int)
    ensures
        image_addresses(extract_rest(parts, counter, nb).0) == extract_rest(parts, counter, nb).1,
    decreases parts.len(),
{
    if parts.len() == 0 {
    } else {
        let part = parts[0];
        let e = find_from(part, '>', 0);
        if e >= part.len() {
            lemma_rest_addresses(parts.skip(1), counter, nb);
        } else {
            let tag = part.take(e);
            let rem = part.skip(e + 1);
            let keep = image_url(tag) is Some && image_big(tag);
            let img: Seq<BlockModel> = if keep {
                seq![BlockModel::Image(image_url(tag)->0)]
            } else {
                Seq::empty()
            };
            let urls: Seq<Seq<char>> = if keep {
                seq![image_url(tag)->0]
            } else {
                Seq::empty()
            };
            let nb1 = nb + img.len();
            let seg = segment_out(rem, counter, nb1);
            let tb: Seq<BlockModel> = match seg.0 {
                Option::Some(t) => seq![BlockModel::Text(t)],
                Option::None => Seq::empty(),
            };
            let rest = extract_rest(parts.skip(1), seg.2, nb1 + tb.len());
            lemma_rest_addresses(parts.skip(1), seg.2, nb1 + tb.len());
            lemma_image_addresses_add(img + tb, rest.0);
            lemma_image_addresses_add(img, tb);
            lemma_image_addresses_empty();
            if keep {
                lemma_image_addresses_single(BlockModel::Image(image_url(tag)->0));
            }
            match seg.0 {
                Option::Some(t) => {
                    lemma_image_addresses_single(BlockModel::Text(t));
                },
                Option::None => {},
            }
            assert((img + tb) + rest.0 =~~= img + tb + rest.0);
            assert(image_addresses(img) =~~= urls);
            assert(image_addresses(tb) =~~= Seq::<Seq<char>>::empty());
            assert(urls + Seq::<Seq<char>>::empty() + image_addresses(rest.0) =~~= urls + rest.1);
        }
    }
}

/// Blocks and the reported image addresses tell one story: the addresses are
/// exactly the image blocks' addresses, in the order the blocks stand.
pub proof fn lemma_image_addresses_match(html: Seq<char>)
    ensures
        image_addresses(extract_spec(html).0) == extract_spec(html).1,
{
    let parts = split_sub(html, "<img"@);
    let seg0 = segment_out(parts[0], 1, 0);
    let b0: Seq<BlockModel> = match seg0.0 {
        Option::Some(t) => seq![BlockModel::Text(t)],
        Option::None => Seq::empty(),
    };
    let rest = extract_rest(parts.skip(1), seg0.2, b0.len() as int);
    lemma_rest_addresses(parts.skip(1), seg0.2, b0.len() as int);
    lemma_image_addresses_add(b0, rest.0);
    lemma_image_addresses_empty();
    match seg0.0 {
        Option::Some(t) => {
            lemma_image_addresses_single(BlockModel::Text(t));
        },
        Option::None => {},
    }
    assert(image_addresses(b0) =~~= Seq::<Seq<char>>::empty());
    assert(Seq::<Seq<char>>::empty() + image_addresses(rest.0) =~~= rest.1);
}

proof fn lemma_contains_sub_prefix(p: Seq<char>, u: Seq<char>, pat: Seq<char>)
    requires
        contains_sub(u, pat),
    ensures
        contains_sub(p + u, pat),
{
    let i = choose|i: int| matches_at(u, pat, i);
    assert((p + u).subrange(p.len() + i, p.len() + i + pat.len()) =~= u.subrange(
        i,
        i + pat.len(),
    ));
    assert(matches_at(p + u, pat, p.len() + i));
}

/// Every reported image address points at the expected media host, and none
/// is a vector asset: a foreign or vector image never enters the list.
proof fn lemma_url_accepted(tag: Seq<char>)
    requires
        image_url(tag) is Some,
    ensures
        contains_sub(image_url(tag)->0, "upload.wikimedia.org"@),
        !ends_with(image_url(tag)->0, ".svg"@),
{
    let i = find_sub(tag, "src=\""@, 0);
    let s = tag.skip(i + 5);
    let q = find_from(s, '"', 0);
    let u = s.take(q);
    let out = image_url(tag)->0;
    if starts_with(u, "//"@) {
        let p = "https:"@;
        lemma_contains_sub_prefix(p, u, "upload.wikimedia.org"@);
        reveal_strlit("https:");
        reveal_strlit(".svg");
        if ends_with(out, ".svg"@) {
            let k = out.len() - 4;
            assert(out.subrange(k, k + 4) == ".svg"@);
            assert(out[k] == ".svg"@[0]);
            if u.len() >= 4 {
                assert(u.subrange(u.len() - 4, u.len() as int) =~= out.subrange(k, k + 4));
                assert(ends_with(u, ".svg"@));
            } else {
                reveal_strlit("//");
                assert(u.len() >= 2);
                assert(out[k] == p[k - u.len() + 6 - 6 + (u.len() + 6 - 4) - (u.len() + 6 - 4)
                    + (k - 0)] || true);
                assert(k == u.len() + 2);
                assert(out[k] == (if k < 6 {
                    p[k]
                } else {
                    u[k - 6]
                }));
                assert(out[k] == p[k]);
                assert(p[4] == 's' && p[5] == ':');
                assert(out[k] != '.');
                assert(".svg"@[0] == '.');
            }
        }
    } else {
        reveal_strlit(".svg");
    }
}

proof fn lemma_rest_urls_accepted(parts: Seq<Seq<char>>, counter: int, nb: int)
    ensures
        forall|i: int|
            0 <= i < extract_rest(parts, counter, nb).1.len() ==> contains_sub(
                #[trigger] extract_rest(parts, counter, nb).1[i],
                "upload.wikimedia.org"@,
            ) && !ends_with(extract_rest(parts, counter, nb).1[i], ".svg"@),
    decreases parts.len(),
{
    if parts.len() == 0 {
    } else {
        let part = parts[0];
        let e = find_from(part, '>', 0);
        if e >= part.len() {
            lemma_rest_urls_accepted(parts.skip(1), counter, nb);
            assert forall|i: int|
                0 <= i < extract_rest(parts, counter, nb).1.len() implies contains_sub(
                #[trigger] extract_rest(parts, counter, nb).1[i],
                "upload.wikimedia.org"@,
            ) && !ends_with(extract_rest(parts, counter, nb).1[i], ".svg"@) by {
                assert(extract_rest(parts, counter, nb).1[i] == extract_rest(
                    parts.skip(1),
                    counter,
                    nb,
                ).1[i]);
            }
        } else {
            let tag = part.take(e);
            let keep = image_url(tag) is Some && image_big(tag);
            let nb1 = nb + (if keep {
                1int
            } else {
                0int
            });
            let seg = segment_out(part.skip(e + 1), counter, nb1);
            let tb: int = match seg.0 {
                Option::Some(t) => 1,
                Option::None => 0,
            };
            lemma_rest_urls_accepted(parts.skip(1), seg.2, nb1 + tb);
            if keep {
                lemma_url_accepted(tag);
            }
            let urls: Seq<Seq<char>> = if keep {
                seq![image_url(tag)->0]
            } else {
                Seq::empty()
            };
            let rest1 = extract_rest(parts.skip(1), seg.2, nb1 + tb).1;
            assert forall|i: int|
                0 <= i < extract_rest(parts, counter, nb).1.len() implies contains_sub(
                #[trigger] extract_rest(parts, counter, nb).1[i],
                "upload.wikimedia.org"@,
            ) && !ends_with(extract_rest(parts, counter, nb).1[i], ".svg"@) by {
                assert(extract_rest(parts, counter, nb).1 == urls + rest1);
                if i < urls.len() {
                    assert(extract_rest(parts, counter, nb).1[i] == image_url(tag)->0);
                } else {
                    assert(extract_rest(parts, counter, nb).1[i] == rest1[i - urls.len()]);
                }
            }
        }
    }
}

/// A small image or one from a foreign host never yields an address: every
/// address in the list carries the media host's name and no vector suffix.
pub proof fn lemma_image_urls_accepted(html: Seq<char>)
    ensures
        forall|i: int|
            0 <= i < extract_spec(html).1.len() ==> contains_sub(
                #[trigger] extract_spec(html).1[i],
                "upload.wikimedia.org"@,
            ) && !ends_with(extract_spec(html).1[i], ".svg"@),
{
    let parts = split_sub(html, "<img"@);
    let seg0 = segment_out(parts[0], 1, 0);
    let b0: int = match seg0.0 {
        Option::Some(t) => 1,
        Option::None => 0,
    };
    lemma_rest_urls_accepted(parts.skip(1), seg0.2, b0);
}


proof fn lemma_process_lines_pos(lines: Seq<Seq<char>>, counter: int, offset: int)
    ensures
        forall|i: int|
            0 <= i < process_lines(lines, counter, offset).1.len() ==> (#[trigger] process_lines(
                lines,
                counter,
                offset,
            ).1[i]).position == pos_of(offset),
        process_lines(lines, counter, offset).1.len() > 0 ==> process_lines(
            lines,
            counter,
            offset,
        ).0.len() > 0,
    decreases lines.len(),
{
    if lines.len() == 0 {
    } else {
        let t = trim_spec(lines[0]);
        match classify_line(t) {
            LineClass::Skip => {
                lemma_process_lines_pos(lines.skip(1), counter, offset);
            },
            LineClass::Header(d) => {
                lemma_process_lines_pos(lines.skip(1), counter + 1, offset);
                let rest = process_lines(lines.skip(1), counter + 1, offset);
                let r = process_lines(lines, counter, offset);
                assert forall|i: int| 0 <= i < r.1.len() implies (#[trigger] r.1[i]).position
                    == pos_of(offset) by {
                    if counter <= usize::MAX as int {
                        if i > 0 {
                            assert(r.1[i] == rest.1[i - 1]);
                        }
                    } else {
                        assert(r.1[i] == rest.1[i]);
                    }
                }
            },
            LineClass::Body(f) => {
                lemma_process_lines_pos(lines.skip(1), counter, offset);
                let rest = process_lines(lines.skip(1), counter, offset);
                let r = process_lines(lines, counter, offset);
                assert forall|i: int| 0 <= i < r.1.len() implies (#[trigger] r.1[i]).position
                    == pos_of(offset) by {
                    assert(r.1[i] == rest.1[i]);
                }
            },
        }
    }
}

proof fn lemma_segment_pos(html: Seq<char>, counter: int, offset: int)
    ensures
        forall|i: int|
            0 <= i < segment_out(html, counter, offset).1.len() ==> (#[trigger] segment_out(
                html,
                counter,
                offset,
            ).1[i]).position == pos_of(offset),
        segment_out(html, counter, offset).1.len() > 0 ==> segment_out(
            html,
            counter,
            offset,
        ).0 is Some,
{
    match rendered_text(html, 10000) {
        Option::None => {},
        Option::Some(text) => {
            lemma_process_lines_pos(lines_spec(text), counter, offset);
        },
    }
}

proof fn lemma_rest_positions(parts: Seq<Seq<char>>, counter: int, nb: int)
    requires
        nb >= 0,
    ensures
        forall|i: int|
            0 <= i < extract_rest(parts, counter, nb).2.len() ==> pos_of(nb) <= (
            #[trigger] extract_rest(parts, counter, nb).2[i]).position <= nb + extract_rest(
                parts,
                counter,
                nb,
            ).0.len(),
        forall|i: int, j: int|
            0 <= i <= j < extract_rest(parts, counter, nb).2.len() ==> (#[trigger] extract_rest(
                parts,
                counter,
                nb,
            ).2[i]).position <= (#[trigger] extract_rest(parts, counter, nb).2[j]).position,
    decreases parts.len(),
{
    if parts.len() == 0 {
    } else {
        let part = parts[0];
        let e = find_from(part, '>', 0);
        let r = extract_rest(parts, counter, nb);
        if e >= part.len() {
            lemma_rest_positions(parts.skip(1), counter, nb);
            let rr = extract_rest(parts.skip(1), counter, nb);
            assert forall|i: int| 0 <= i < r.2.len() implies pos_of(nb) <= (
            #[trigger] r.2[i]).position <= nb + r.0.len() by {
                assert(r.2[i] == rr.2[i]);
            }
            assert forall|i: int, j: int| 0 <= i <= j < r.2.len() implies (
            #[trigger] r.2[i]).position <= (#[trigger] r.2[j]).position by {
                assert(r.2[i] == rr.2[i] && r.2[j] == rr.2[j]);
            }
        } else {
            let tag = part.take(e);
            let rem = part.skip(e + 1);
            let keep = image_url(tag) is Some && image_big(tag);
            let img: Seq<BlockModel> = if keep {
                seq![BlockModel::Image(image_url(tag)->0)]
            } else {
                Seq::empty()
            };
            let nb1 = nb + img.len();
            let seg = segment_out(rem, counter, nb1);
            let tb: Seq<BlockModel> = match seg.0 {
                Option::Some(t) => seq![BlockModel::Text(t)],
                Option::None => Seq::empty(),
            };
            let nb2 = nb1 + tb.len();
            let rest = extract_rest(parts.skip(1), seg.2, nb2);
            lemma_segment_pos(rem, counter, nb1);
            lemma_rest_positions(parts.skip(1), seg.2, nb2);
            assert forall|i: int| 0 <= i < r.2.len() implies pos_of(nb) <= (
            #[trigger] r.2[i]).position <= nb + r.0.len() by {
                assert(r.2 == seg.1 + rest.2);
                assert(r.0 == img + tb + rest.0);
                if i < seg.1.len() {
                    assert(r.2[i] == seg.1[i]);
                    assert(seg.1[i].position == pos_of(nb1));
                    assert(seg.0 is Some);
                    assert(tb.len() == 1);
                } else {
                    assert(r.2[i] == rest.2[i - seg.1.len()]);
                }
            }
            assert forall|i: int, j: int| 0 <= i <= j < r.2.len() implies (
            #[trigger] r.2[i]).position <= (#[trigger] r.2[j]).position by {
                assert(r.2 == seg.1 + rest.2);
                if j < seg.1.len() {
                    assert(r.2[i] == seg.1[i] && r.2[j] == seg.1[j]);
                    assert(seg.1[i].position == pos_of(nb1) && seg.1[j].position == pos_of(nb1));
                } else if i < seg.1.len() {
                    assert(r.2[i] == seg.1[i]);
                    assert(r.2[j] == rest.2[j - seg.1.len()]);
                    assert(seg.1[i].position == pos_of(nb1));
                    assert(pos_of(nb2) <= rest.2[j - seg.1.len()].position);
                } else {
                    assert(r.2[i] == rest.2[i - seg.1.len()] && r.2[j] == rest.2[j - seg.1.len()]);
                }
            }
        }
    }
}

/// Every chapter's block position lies within the block list, and the
/// positions never decrease along the chapter list: chapters are anchored in
/// document order.
pub proof fn lemma_chapter_positions(html: Seq<char>)
    ensures
        forall|i: int|
            0 <= i < extract_spec(html).2.len() ==> 0 <= (#[trigger] extract_spec(
                html,
            ).2[i]).position <= extract_spec(html).0.len(),
        forall|i: int, j: int|
            0 <= i <= j < extract_spec(html).2.len() ==> (#[trigger] extract_spec(
                html,
            ).2[i]).position <= (#[trigger] extract_spec(html).2[j]).position,
{
    let parts = split_sub(html, "<img"@);
    let seg0 = segment_out(parts[0], 1, 0);
    let b0: Seq<BlockModel> = match seg0.0 {
        Option::Some(t) => seq![BlockModel::Text(t)],
        Option::None => Seq::empty(),
    };
    let rest = extract_rest(parts.skip(1), seg0.2, b0.len() as int);
    let r = extract_spec(html);
    lemma_segment_pos(parts[0], 1, 0);
    lemma_rest_positions(parts.skip(1), seg0.2, b0.len() as int);
    assert forall|i: int| 0 <= i < r.2.len() implies 0 <= (#[trigger] r.2[i]).position
        <= r.0.len() by {
        assert(r.2 == seg0.1 + rest.2);
        assert(r.0 == b0 + rest.0);
        if i < seg0.1.len() {
            assert(r.2[i] == seg0.1[i]);
            assert(seg0.1[i].position == pos_of(0));
            assert(seg0.0 is Some);
            assert(b0.len() == 1);
        } else {
            assert(r.2[i] == rest.2[i - seg0.1.len()]);
        }
    }
    assert forall|i: int, j: int| 0 <= i <= j < r.2.len() implies (#[trigger] r.2[i]).position <= (
    #[trigger] r.2[j]).position by {
        assert(r.2 == seg0.1 + rest.2);
        if j < seg0.1.len() {
            assert(r.2[i] == seg0.1[i] && r.2[j] == seg0.1[j]);
            assert(seg0.1[i].position == pos_of(0) && seg0.1[j].position == pos_of(0));
        } else if i < seg0.1.len() {
            assert(r.2[i] == seg0.1[i]);
            assert(r.2[j] == rest.2[j - seg0.1.len()]);
            assert(seg0.1[i].position == pos_of(0));
            assert(pos_of(b0.len() as int) <= rest.2[j - seg0.1.len()].position);
        } else {
            assert(r.2[i] == rest.2[i - seg0.1.len()] && r.2[j] == rest.2[j - seg0.1.len()]);
        }
    }
}


proof fn lemma_process_lines_dense(lines: Seq<Seq<char>>, counter: int, offset: int)
    ensures
        forall|i: int|
            0 <= i < process_lines(lines, counter, offset).1.len() ==> (#[trigger] process_lines(
                lines,
                counter,
                offset,
            ).1[i]).index == counter + i,
        counter > usize::MAX as int ==> process_lines(lines, counter, offset).1.len() == 0,
        process_lines(lines, counter, offset).2 >= counter + process_lines(
            lines,
            counter,
            offset,
        ).1.len(),
        process_lines(lines, counter, offset).2 > counter + process_lines(
            lines,
            counter,
            offset,
        ).1.len() ==> counter + process_lines(lines, counter, offset).1.len() > usize::MAX as int,
    decreases lines.len(),
{
    if lines.len() == 0 {
    } else {
        let t = trim_spec(lines[0]);
        let r = process_lines(lines, counter, offset);
        match classify_line(t) {
            LineClass::Skip => {
                lemma_process_lines_dense(lines.skip(1), counter, offset);
            },
            LineClass::Header(d) => {
                lemma_process_lines_dense(lines.skip(1), counter + 1, offset);
                let rest = process_lines(lines.skip(1), counter + 1, offset);
                if counter <= usize::MAX as int {
                    assert forall|i: int| 0 <= i < r.1.len() implies (#[trigger] r.1[i]).index
                        == counter + i by {
                        if i > 0 {
                            assert(r.1[i] == rest.1[i - 1]);
                        }
                    }
                } else {
                    assert forall|i: int| 0 <= i < r.1.len() implies (#[trigger] r.1[i]).index
                        == counter + i by {
                        assert(r.1[i] == rest.1[i]);
                    }
                }
            },
            LineClass::Body(f) => {
                lemma_process_lines_dense(lines.skip(1), counter, offset);
                let rest = process_lines(lines.skip(1), counter, offset);
                assert forall|i: int| 0 <= i < r.1.len() implies (#[trigger] r.1[i]).index
                    == counter + i by {
                    assert(r.1[i] == rest.1[i]);
                }
            },
        }
    }
}

proof fn lemma_segment_dense(html: Seq<char>, counter: int, offset: int)
    ensures
        forall|i: int|
            0 <= i < segment_out(html, counter, offset).1.len() ==> (#[trigger] segment_out(
                html,
                counter,
                offset,
            ).1[i]).index == counter + i,
        counter > usize::MAX as int ==> segment_out(html, counter, offset).1.len() == 0,
        segment_out(html, counter, offset).2 >= counter + segment_out(
            html,
            counter,
            offset,
        ).1.len(),
        segment_out(html, counter, offset).2 > counter + segment_out(
            html,
            counter,
            offset,
        ).1.len() ==> counter + segment_out(html, counter, offset).1.len() > usize::MAX as int,
{
    match rendered_text(html, 10000) {
        Option::None => {},
        Option::Some(text) => {
            lemma_process_lines_dense(lines_spec(text), counter, offset);
        },
    }
}

proof fn lemma_rest_dense(parts: Seq<Seq<char>>, counter: int, nb: int)
    ensures
        forall|i: int|
            0 <= i < extract_rest(parts, counter, nb).2.len() ==> (#[trigger] extract_rest(
                parts,
                counter,
                nb,
            ).2[i]).index == counter + i,
        counter > usize::MAX as int ==> extract_rest(parts, counter, nb).2.len() == 0,
    decreases parts.len(),
{
    if parts.len() == 0 {
    } else {
        let part = parts[0];
        let e = find_from(part, '>', 0);
        let r = extract_rest(parts, counter, nb);
        if e >= part.len() {
            lemma_rest_dense(parts.skip(1), counter, nb);
            let rr = extract_rest(parts.skip(1), counter, nb);
            assert forall|i: int| 0 <= i < r.2.len() implies (#[trigger] r.2[i]).index == counter
                + i by {
                assert(r.2[i] == rr.2[i]);
            }
        } else {
            let tag = part.take(e);
            let rem = part.skip(e + 1);
            let keep = image_url(tag) is Some && image_big(tag);
            let nb1 = nb + (if keep {
                1int
            } else {
                0int
            });
            let seg = segment_out(rem, counter, nb1);
            let tb: int = match seg.0 {
                Option::Some(t) => 1,
                Option::None => 0,
            };
            lemma_segment_dense(rem, counter, nb1);
            lemma_rest_dense(parts.skip(1), seg.2, nb1 + tb);
            let rest = extract_rest(parts.skip(1), seg.2, nb1 + tb);
            assert forall|i: int| 0 <= i < r.2.len() implies (#[trigger] r.2[i]).index == counter
                + i by {
                assert(r.2 == seg.1 + rest.2);
                if i < seg.1.len() {
                    assert(r.2[i] == seg.1[i]);
                } else {
                    assert(r.2[i] == rest.2[i - seg.1.len()]);
                    assert(rest.2[i - seg.1.len()].index == seg.2 + i - seg.1.len());
                    if seg.2 > counter + seg.1.len() {
                        assert(counter + seg.1.len() > usize::MAX as int);
                        assert(seg.2 > usize::MAX as int);
                        assert(rest.2.len() == 0);
                        assert(false);
                    }
                }
            }
        }
    }
}

/// Chapter indices are one-based, dense, and assigned in discovery order:
/// the chapter standing at place `i` of the list carries index `i + 1`.
pub proof fn lemma_chapter_indices_dense(html: Seq<char>)
    ensures
        forall|i: int|
            0 <= i < extract_spec(html).2.len() ==> (#[trigger] extract_spec(html).2[i]).index == i
                + 1,
{
    let parts = split_sub(html, "<img"@);
    let seg0 = segment_out(parts[0], 1, 0);
    let b0: int = match seg0.0 {
        Option::Some(t) => 1,
        Option::None => 0,
    };
    let rest = extract_rest(parts.skip(1), seg0.2, b0);
    let r = extract_spec(html);
    lemma_segment_dense(parts[0], 1, 0);
    lemma_rest_dense(parts.skip(1), seg0.2, b0);
    assert forall|i: int| 0 <= i < r.2.len() implies (#[trigger] r.2[i]).index == i + 1 by {
        assert(r.2 == seg0.1 + rest.2);
        if i < seg0.1.len() {
            assert(r.2[i] == seg0.1[i]);
        } else {
            assert(r.2[i] == rest.2[i - seg0.1.len()]);
            assert(rest.2[i - seg0.1.len()].index == seg0.2 + i - seg0.1.len());
            if seg0.2 > 1 + seg0.1.len() {
                assert(1 + seg0.1.len() > usize::MAX as int);
                assert(false);
            }
        }
    }
}

} // verus!
