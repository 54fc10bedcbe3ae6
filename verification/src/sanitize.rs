//! Markup sanitization: depth-aware removal of keyword-tagged container
//! elements from raw markup, capturing the first infobox-like table on the
//! way.
use crate::text::find_from;
use vstd::prelude::*;

verus! {

/// `pat` occurs in `s` starting exactly at `i`.
pub open spec fn matches_at(s: Seq<char>, pat: Seq<char>, i: int) -> bool {
    0 <= i && i + pat.len() <= s.len() && s.subrange(i, i + pat.len()) == pat
}

/// Index of the first occurrence of `pat` at or after `from`; `s.len()` when
/// there is none.
pub open spec fn find_sub(s: Seq<char>, pat: Seq<char>, from: int) -> int
    decreases s.len() - from,
    when 0 <= from <= s.len() && pat.len() >= 1
{
    if from + pat.len() > s.len() {
        s.len() as int
    } else if matches_at(s, pat, from) {
        from
    } else {
        find_sub(s, pat, from + 1)
    }
}

pub proof fn lemma_find_sub_props(s: Seq<char>, pat: Seq<char>, from: int)
    requires
        0 <= from <= s.len(),
        pat.len() >= 1,
    ensures
        from <= find_sub(s, pat, from) <= s.len(),
        find_sub(s, pat, from) < s.len() ==> matches_at(s, pat, find_sub(s, pat, from)),
        forall|i: int| from <= i < find_sub(s, pat, from) ==> !matches_at(s, pat, i),
    decreases s.len() - from,
{
    if from + pat.len() > s.len() {
        assert forall|i: int| from <= i < s.len() implies !matches_at(s, pat, i) by {}
    } else if matches_at(s, pat, from) {
    } else {
        lemma_find_sub_props(s, pat, from + 1);
    }
}

pub proof fn lemma_find_sub_at(s: Seq<char>, pat: Seq<char>, from: int, k: int)
    requires
        0 <= from <= k <= s.len(),
        pat.len() >= 1,
        forall|i: int| from <= i < k ==> !matches_at(s, pat, i),
        k < s.len() ==> matches_at(s, pat, k),
    ensures
        k < s.len() ==> find_sub(s, pat, from) == k,
        k == s.len() ==> find_sub(s, pat, from) == s.len(),
    decreases s.len() - from,
{
    if from < k {
        lemma_find_sub_at(s, pat, from + 1, k);
    }
}

/// Whether `pat` starts at `i`, checked character by character.
pub fn check_match(s: &Vec<char>, pat: &Vec<char>, i: usize) -> (r: bool)
    requires
        i <= s@.len(),
    ensures
        r == matches_at(s@, pat@, i as int),
{
    if pat.len() > s.len() - i {
        return false;
    }
    let m = pat.len();
    let mut k: usize = 0;
    while k < m
        invariant
            0 <= k <= m == pat@.len(),
            i + m <= s@.len(),
            s@.len() <= usize::MAX,
            forall|t: int| 0 <= t < k ==> s@[i + t] == pat@[t],
        decreases m - k,
    {
        if s[i + k] != pat[k] {
            proof {
                assert(s@.subrange(i as int, i + pat@.len())[k as int] == s@[i + k]);
            }
            return false;
        }
        k += 1;
    }
    proof {
        assert(s@.subrange(i as int, i + pat@.len()) =~= pat@);
    }
    true
}

/// First occurrence of `pat` at or after `from`.
pub fn find_sub_at(s: &Vec<char>, pat: &Vec<char>, from: usize) -> (r: usize)
    requires
        from <= s@.len(),
        pat@.len() >= 1,
    ensures
        r == find_sub(s@, pat@, from as int),
{
    let n = s.len();
    let mut i: usize = from;
    while i < n
        invariant
            from <= i <= n == s@.len(),
            pat@.len() >= 1,
            forall|m: int| from <= m < i ==> !matches_at(s@, pat@, m),
        decreases n - i,
    {
        if check_match(s, pat, i) {
            proof {
                lemma_find_sub_at(s@, pat@, from as int, i as int);
            }
            return i;
        }
        i += 1;
    }
    proof {
        lemma_find_sub_at(s@, pat@, from as int, n as int);
    }
    n
}

/// `pat` occurs somewhere in `s`.
pub open spec fn contains_sub(s: Seq<char>, pat: Seq<char>) -> bool {
    exists|i: int| matches_at(s, pat, i)
}

pub fn contains_sub_exec(s: &Vec<char>, pat: &Vec<char>) -> (r: bool)
    requires
        pat@.len() >= 1,
    ensures
        r == contains_sub(s@, pat@),
{
    let j = find_sub_at(s, pat, 0);
    proof {
        lemma_find_sub_props(s@, pat@, 0);
        if j < s@.len() {
            assert(matches_at(s@, pat@, j as int));
        } else if contains_sub(s@, pat@) {
            let w = choose|i: int| matches_at(s@, pat@, i);
            assert(!matches_at(s@, pat@, w));
        }
    }
    j < s.len()
}

/// Some keyword of the rule occurs in the tag text.
pub open spec fn matches_keywords(content: Seq<char>, kws: Seq<Seq<char>>) -> bool {
    exists|k: int| 0 <= k < kws.len() && contains_sub(content, kws[k])
}

fn matches_keywords_exec(content: &Vec<char>, kws: &Vec<Vec<char>>) -> (r: bool)
    requires
        forall|k: int| 0 <= k < kws.deep_view().len() ==> kws.deep_view()[k].len() >= 1,
    ensures
        r == matches_keywords(content@, kws.deep_view()),
{
    let n = kws.len();
    let mut k: usize = 0;
    while k < n
        invariant
            0 <= k <= n == kws@.len(),
            n == kws.deep_view().len(),
            forall|m: int| 0 <= m < kws.deep_view().len() ==> kws.deep_view()[m].len() >= 1,
            forall|m: int| 0 <= m < k ==> !contains_sub(content@, kws.deep_view()[m]),
        decreases n - k,
    {
        proof {
            assert(kws.deep_view()[k as int] == kws@[k as int]@);
        }
        if contains_sub_exec(content, &kws[k]) {
            return true;
        }
        k += 1;
    }
    false
}


/// End of the extent of an element that opened just before `pos`: tracks the
/// nesting depth of the same element name, and yields the index just past the
/// closing tag that returns the depth to zero. `None` when the markup runs
/// out first (malformed input).
pub open spec fn scan_extent(
    s: Seq<char>,
    open: Seq<char>,
    close: Seq<char>,
    pos: int,
    depth: int,
) -> Option<int>
    decreases s.len() - pos,
    when 0 <= pos <= s.len() && open.len() >= 1 && close.len() >= 1 && depth >= 1
    via scan_extent_dec
{
    let o = find_sub(s, open, pos);
    let c = find_sub(s, close, pos);
    if o < s.len() && c < s.len() && o < c {
        scan_extent(s, open, close, o + 1, depth + 1)
    } else if c < s.len() {
        if depth == 1 {
            Option::Some(c + close.len())
        } else {
            scan_extent(s, open, close, c + close.len(), depth - 1)
        }
    } else {
        Option::None
    }
}

#[via_fn]
proof fn scan_extent_dec(s: Seq<char>, open: Seq<char>, close: Seq<char>, pos: int, depth: int) {
    lemma_find_sub_props(s, open, pos);
    lemma_find_sub_props(s, close, pos);
}

pub proof fn lemma_scan_extent_bounds(
    s: Seq<char>,
    open: Seq<char>,
    close: Seq<char>,
    pos: int,
    depth: int,
)
    requires
        0 <= pos <= s.len(),
        open.len() >= 1,
        close.len() >= 1,
        depth >= 1,
    ensures
        scan_extent(s, open, close, pos, depth) matches Option::Some(e) ==> pos < e <= s.len(),
    decreases s.len() - pos,
{
    let o = find_sub(s, open, pos);
    let c = find_sub(s, close, pos);
    lemma_find_sub_props(s, open, pos);
    lemma_find_sub_props(s, close, pos);
    if o < s.len() && c < s.len() && o < c {
        lemma_scan_extent_bounds(s, open, close, o + 1, depth + 1);
    } else if c < s.len() {
        if depth > 1 {
            lemma_scan_extent_bounds(s, open, close, c + close.len(), depth - 1);
        }
    }
}

/// Walk the depth count as `scan_extent` describes it.
fn scan_extent_exec(s: &Vec<char>, open: &Vec<char>, close: &Vec<char>, start: usize) -> (r:
    Option<usize>)
    requires
        open@.len() >= 2,
        close@.len() >= 1,
        start <= s@.len(),
    ensures
        match r {
            Option::Some(e) => scan_extent(s@, open@, close@, start as int, 1) == Option::Some(
                e as int,
            ) && start < e <= s@.len(),
            Option::None => scan_extent(s@, open@, close@, start as int, 1) is None,
        },
{
    let n = s.len();
    let mut pos: usize = start;
    let mut depth: usize = 1;
    loop
        invariant
            0 <= pos <= n == s@.len(),
            1 <= depth,
            depth as int <= pos + 1,
            open@.len() >= 2,
            close@.len() >= 1,
            start <= s@.len(),
            scan_extent(s@, open@, close@, start as int, 1) == scan_extent(
                s@,
                open@,
                close@,
                pos as int,
                depth as int,
            ),
        decreases n - pos,
    {
        let o = find_sub_at(s, open, pos);
        let c = find_sub_at(s, close, pos);
        proof {
            lemma_find_sub_props(s@, open@, pos as int);
            lemma_find_sub_props(s@, close@, pos as int);
            lemma_scan_extent_bounds(s@, open@, close@, start as int, 1);
        }
        if o < n && c < n && o < c {
            pos = o + 1;
            depth = depth + 1;
        } else if c < n {
            if depth == 1 {
                return Option::Some(c + close.len());
            } else {
                pos = c + close.len();
                depth = depth - 1;
            }
        } else {
            return Option::None;
        }
    }
}

/// `s` with `s[from..to]` cut out.
fn splice_out(s: &Vec<char>, from: usize, to: usize) -> (r: Vec<char>)
    requires
        from <= to <= s@.len(),
    ensures
        r@ == s@.subrange(0, from as int) + s@.skip(to as int),
{
    let mut r = crate::text::copy_range(s, 0, from);
    let n = s.len();
    let mut m: usize = to;
    while m < n
        invariant
            from <= to <= m <= n == s@.len(),
            r@ == s@.subrange(0, from as int) + s@.subrange(to as int, m as int),
        decreases n - m,
    {
        let c = s[m];
        r.push(c);
        proof {
            assert(r@ =~= s@.subrange(0, from as int) + s@.subrange(to as int, m + 1 as int));
        }
        m += 1;
    }
    proof {
        assert(s@.subrange(to as int, n as int) =~= s@.skip(to as int));
    }
    r
}

/// What one removal rule does from scan position `pos` on: find the next
/// opening tag, find its extent by depth count, and when its tag text holds
/// a rule keyword, cut the extent and rescan from the cut; otherwise step one
/// character past the opening tag. A table pass (`cap`) captures the first
/// extent whose tag text holds "infobox". An opening tag without `>`, or an
/// extent that never closes, ends the pass.
pub open spec fn pass_step(
    s: Seq<char>,
    open: Seq<char>,
    close: Seq<char>,
    kws: Seq<Seq<char>>,
    cap: bool,
    pos: int,
    ib: Option<Seq<char>>,
) -> (Option<Seq<char>>, Seq<char>)
    decreases s.len(), s.len() - pos,
    when 0 <= pos <= s.len() && open.len() >= 2 && close.len() >= 1
    via pass_step_dec
{
    let p = find_sub(s, open, pos);
    if p >= s.len() {
        (ib, s)
    } else {
        let e = find_from(s, '>', p);
        if e >= s.len() {
            (ib, s)
        } else {
            match scan_extent(s, open, close, p + 1, 1) {
                Option::None => (ib, s),
                Option::Some(end) => {
                    if matches_keywords(s.subrange(p, e), kws) {
                        let ib2 = if cap && contains_sub(s.subrange(p, e), "infobox"@)
                            && ib is None {
                            Option::Some(s.subrange(p, end))
                        } else {
                            ib
                        };
                        pass_step(
                            s.subrange(0, p) + s.skip(end),
                            open,
                            close,
                            kws,
                            cap,
                            p,
                            ib2,
                        )
                    } else {
                        pass_step(s, open, close, kws, cap, p + 1, ib)
                    }
                },
            }
        }
    }
}

#[via_fn]
proof fn pass_step_dec(
    s: Seq<char>,
    open: Seq<char>,
    close: Seq<char>,
    kws: Seq<Seq<char>>,
    cap: bool,
    pos: int,
    ib: Option<Seq<char>>,
) {
    lemma_find_sub_props(s, open, pos);
    let p = find_sub(s, open, pos);
    if p < s.len() {
        crate::text::lemma_find_from_props(s, '>', p);
        lemma_scan_extent_bounds(s, open, close, p + 1, 1);
    }
}

/// One removal rule, run over the whole text.
pub fn remove_elements(
    s: Vec<char>,
    open: &Vec<char>,
    close: &Vec<char>,
    kws: &Vec<Vec<char>>,
    cap: bool,
    ib0: Option<Vec<char>>,
) -> (r: (Option<Vec<char>>, Vec<char>))
    requires
        open@.len() >= 2,
        close@.len() >= 1,
        forall|k: int| 0 <= k < kws.deep_view().len() ==> kws.deep_view()[k].len() >= 1,
    ensures
        (opt_chars_view(r.0), r.1@) == pass_step(
            s@,
            open@,
            close@,
            kws.deep_view(),
            cap,
            0,
            opt_chars_view(ib0),
        ),
{
    let ghost orig = s@;
    let infobox_kw = crate::strings::str_to_chars("infobox");
    let mut cur = s;
    let mut pos: usize = 0;
    let mut ib = ib0;
    loop
        invariant
            orig == s@,
            0 <= pos <= cur@.len(),
            open@.len() >= 2,
            close@.len() >= 1,
            forall|k: int| 0 <= k < kws.deep_view().len() ==> kws.deep_view()[k].len() >= 1,
            infobox_kw@ == "infobox"@,
            pass_step(orig, open@, close@, kws.deep_view(), cap, 0, opt_chars_view(ib0))
                == pass_step(
                cur@,
                open@,
                close@,
                kws.deep_view(),
                cap,
                pos as int,
                opt_chars_view(ib),
            ),
        decreases cur@.len(), cur@.len() - pos,
    {
        let n = cur.len();
        let p = find_sub_at(&cur, open, pos);
        proof {
            lemma_find_sub_props(cur@, open@, pos as int);
        }
        if p >= n {
            return (ib, cur);
        }
        let e = crate::text::find_char_from(&cur, '>', p);
        proof {
            crate::text::lemma_find_from_props(cur@, '>', p as int);
        }
        if e >= n {
            return (ib, cur);
        }
        let content = crate::text::copy_range(&cur, p, e);
        match scan_extent_exec(&cur, open, close, p + 1) {
            Option::None => {
                return (ib, cur);
            },
            Option::Some(end) => {
                if matches_keywords_exec(&content, kws) {
                    proof {
                        reveal_strlit("infobox");
                    }
                    if cap && ib.is_none() && contains_sub_exec(&content, &infobox_kw) {
                        ib = Option::Some(crate::text::copy_range(&cur, p, end));
                    }
                    cur = splice_out(&cur, p, end);
                    pos = p;
                } else {
                    pos = p + 1;
                }
            },
        }
    }
}

/// The capture slot as the specification sees it.
pub open spec fn opt_chars_view(o: Option<Vec<char>>) -> Option<Seq<char>> {
    match o {
        Option::Some(v) => Option::Some(v@),
        Option::None => Option::None,
    }
}


/// Keywords that mark a table as non-article chrome.
pub open spec fn table_keywords() -> Seq<Seq<char>> {
    seq!["infobox"@, "sidebar"@, "vertical-navbox"@, "ambox"@, "metadata"@]
}

/// Keywords that mark an inline container as non-article chrome.
pub open spec fn div_keywords() -> Seq<Seq<char>> {
    seq!["hatnote"@, "shortdescription"@, "toc"@, "siteSub"@, "mw-empty-elt"@]
}

/// The whole sanitizer: the table rule, then the container rule; the first
/// infobox-like table is captured verbatim before its deletion.
pub open spec fn sanitize_spec(s: Seq<char>) -> (Option<Seq<char>>, Seq<char>) {
    let t = pass_step(s, "<table"@, "</table>"@, table_keywords(), true, 0, Option::None);
    pass_step(t.1, "<div"@, "</div>"@, div_keywords(), false, 0, t.0)
}

fn table_keywords_exec() -> (r: Vec<Vec<char>>)
    ensures
        r.deep_view() == table_keywords(),
        forall|k: int| 0 <= k < r.deep_view().len() ==> r.deep_view()[k].len() >= 1,
{
    let mut r: Vec<Vec<char>> = Vec::new();
    r.push(crate::strings::str_to_chars("infobox"));
    r.push(crate::strings::str_to_chars("sidebar"));
    r.push(crate::strings::str_to_chars("vertical-navbox"));
    r.push(crate::strings::str_to_chars("ambox"));
    r.push(crate::strings::str_to_chars("metadata"));
    proof {
        reveal_strlit("infobox");
        reveal_strlit("sidebar");
        reveal_strlit("vertical-navbox");
        reveal_strlit("ambox");
        reveal_strlit("metadata");
        assert(r.deep_view() =~~= table_keywords());
    }
    r
}

fn div_keywords_exec() -> (r: Vec<Vec<char>>)
    ensures
        r.deep_view() == div_keywords(),
        forall|k: int| 0 <= k < r.deep_view().len() ==> r.deep_view()[k].len() >= 1,
{
    let mut r: Vec<Vec<char>> = Vec::new();
    r.push(crate::strings::str_to_chars("hatnote"));
    r.push(crate::strings::str_to_chars("shortdescription"));
    r.push(crate::strings::str_to_chars("toc"));
    r.push(crate::strings::str_to_chars("siteSub"));
    r.push(crate::strings::str_to_chars("mw-empty-elt"));
    proof {
        reveal_strlit("hatnote");
        reveal_strlit("shortdescription");
        reveal_strlit("toc");
        reveal_strlit("siteSub");
        reveal_strlit("mw-empty-elt");
        assert(r.deep_view() =~~= div_keywords());
    }
    r
}

/// Remove non-article structural elements from raw markup. Returns the first
/// infobox-like table's markup, if one was found, and the cleaned text.
pub fn sanitize(html: &str) -> (r: (Option<String>, String))
    ensures
        opt_string_view(r.0) == sanitize_spec(html@).0,
        r.1@ == sanitize_spec(html@).1,
{
    let chars = crate::strings::str_to_chars(html);
    let open_table = crate::strings::str_to_chars("<table");
    let close_table = crate::strings::str_to_chars("</table>");
    let open_div = crate::strings::str_to_chars("<div");
    let close_div = crate::strings::str_to_chars("</div>");
    proof {
        reveal_strlit("<table");
        reveal_strlit("</table>");
        reveal_strlit("<div");
        reveal_strlit("</div>");
    }
    let table_kws = table_keywords_exec();
    let div_kws = div_keywords_exec();
    let (ib1, cleaned1) = remove_elements(
        chars,
        &open_table,
        &close_table,
        &table_kws,
        true,
        Option::None,
    );
    let (ib2, cleaned2) = remove_elements(
        cleaned1,
        &open_div,
        &close_div,
        &div_kws,
        false,
        ib1,
    );
    let ib_str = match ib2 {
        Option::Some(v) => Option::Some(crate::strings::chars_to_string(&v)),
        Option::None => Option::None,
    };
    let cleaned_str = crate::strings::chars_to_string(&cleaned2);
    (ib_str, cleaned_str)
}

/// The captured infobox as the specification sees it.
pub open spec fn opt_string_view(o: Option<String>) -> Option<Seq<char>> {
    match o {
        Option::Some(v) => Option::Some(v@),
        Option::None => Option::None,
    }
}

/// A capture already made is never replaced: whatever a pass still removes,
/// the infobox it reports is the one it was handed.
pub proof fn lemma_pass_keeps_capture(
    s: Seq<char>,
    open: Seq<char>,
    close: Seq<char>,
    kws: Seq<Seq<char>>,
    cap: bool,
    pos: int,
    x: Seq<char>,
)
    requires
        0 <= pos <= s.len(),
        open.len() >= 2,
        close.len() >= 1,
    ensures
        pass_step(s, open, close, kws, cap, pos, Option::Some(x)).0 == Option::Some(x),
    decreases s.len(), s.len() - pos,
{
    let ib = Option::Some(x);
    let p = find_sub(s, open, pos);
    lemma_find_sub_props(s, open, pos);
    if p < s.len() {
        let e = find_from(s, '>', p);
        crate::text::lemma_find_from_props(s, '>', p);
        if e < s.len() {
            match scan_extent(s, open, close, p + 1, 1) {
                Option::None => {},
                Option::Some(end) => {
                    lemma_scan_extent_bounds(s, open, close, p + 1, 1);
                    if matches_keywords(s.subrange(p, e), kws) {
                        lemma_pass_keeps_capture(
                            s.subrange(0, p) + s.skip(end),
                            open,
                            close,
                            kws,
                            cap,
                            p,
                            x,
                        );
                    } else {
                        lemma_pass_keeps_capture(s, open, close, kws, cap, pos + 1, x);
                    }
                },
            }
        }
    }
}

/// A pass that does not capture (any rule but the table rule) hands its
/// infobox slot through untouched.
pub proof fn lemma_pass_no_capture(
    s: Seq<char>,
    open: Seq<char>,
    close: Seq<char>,
    kws: Seq<Seq<char>>,
    pos: int,
    ib: Option<Seq<char>>,
)
    requires
        0 <= pos <= s.len(),
        open.len() >= 2,
        close.len() >= 1,
    ensures
        pass_step(s, open, close, kws, false, pos, ib).0 == ib,
    decreases s.len(), s.len() - pos,
{
    let p = find_sub(s, open, pos);
    lemma_find_sub_props(s, open, pos);
    if p < s.len() {
        let e = find_from(s, '>', p);
        crate::text::lemma_find_from_props(s, '>', p);
        if e < s.len() {
            match scan_extent(s, open, close, p + 1, 1) {
                Option::None => {},
                Option::Some(end) => {
                    lemma_scan_extent_bounds(s, open, close, p + 1, 1);
                    if matches_keywords(s.subrange(p, e), kws) {
                        lemma_pass_no_capture(
                            s.subrange(0, p) + s.skip(end),
                            open,
                            close,
                            kws,
                            p,
                            ib,
                        );
                    } else {
                        lemma_pass_no_capture(s, open, close, kws, pos + 1, ib);
                    }
                },
            }
        }
    }
}

/// Once the table pass has captured an infobox, the rest of the sanitizer
/// never replaces it: the infobox reported is the first one found.
pub proof fn lemma_first_infobox_kept(s: Seq<char>, x: Seq<char>)
    requires
        pass_step(s, "<table"@, "</table>"@, table_keywords(), true, 0, Option::None).0
            == Option::Some(x),
    ensures
        sanitize_spec(s).0 == Option::Some(x),
{
    reveal_strlit("<div");
    reveal_strlit("</div>");
    let t = pass_step(s, "<table"@, "</table>"@, table_keywords(), true, 0, Option::None);
    lemma_pass_no_capture(t.1, "<div"@, "</div>"@, div_keywords(), 0, t.0);
}


proof fn lemma_contains_sub_subrange(s: Seq<char>, a: int, b: int, pat: Seq<char>)
    requires
        0 <= a <= b <= s.len(),
        contains_sub(s.subrange(a, b), pat),
    ensures
        contains_sub(s, pat),
{
    let sub = s.subrange(a, b);
    let i = choose|i: int| matches_at(sub, pat, i);
    assert(s.subrange(a + i, a + i + pat.len()) =~= sub.subrange(i, i + pat.len()));
    assert(matches_at(s, pat, a + i));
}

proof fn lemma_pass_no_keyword(
    s: Seq<char>,
    open: Seq<char>,
    close: Seq<char>,
    kws: Seq<Seq<char>>,
    cap: bool,
    pos: int,
    ib: Option<Seq<char>>,
)
    requires
        0 <= pos <= s.len(),
        open.len() >= 2,
        close.len() >= 1,
        forall|k: int| 0 <= k < kws.len() ==> !contains_sub(s, #[trigger] kws[k]),
    ensures
        pass_step(s, open, close, kws, cap, pos, ib) == (ib, s),
    decreases s.len() - pos,
{
    let p = find_sub(s, open, pos);
    lemma_find_sub_props(s, open, pos);
    if p < s.len() {
        let e = find_from(s, '>', p);
        crate::text::lemma_find_from_props(s, '>', p);
        if e < s.len() {
            match scan_extent(s, open, close, p + 1, 1) {
                Option::None => {},
                Option::Some(end) => {
                    if matches_keywords(s.subrange(p, e), kws) {
                        let k = choose|k: int|
                            0 <= k < kws.len() && contains_sub(s.subrange(p, e), kws[k]);
                        lemma_contains_sub_subrange(s, p, e, kws[k]);
                        assert(false);
                    } else {
                        lemma_pass_no_keyword(s, open, close, kws, cap, pos + 1, ib);
                    }
                },
            }
        }
    }
}

/// Markup in which no rule keyword occurs passes the sanitizer unchanged,
/// and nothing is captured: only keyword-tagged elements are ever touched.
pub proof fn lemma_sanitize_no_keyword(s: Seq<char>)
    requires
        forall|k: int|
            0 <= k < table_keywords().len() ==> !contains_sub(s, #[trigger] table_keywords()[k]),
        forall|k: int|
            0 <= k < div_keywords().len() ==> !contains_sub(s, #[trigger] div_keywords()[k]),
    ensures
        sanitize_spec(s) == (Option::<Seq<char>>::None, s),
{
    reveal_strlit("<table");
    reveal_strlit("</table>");
    reveal_strlit("<div");
    reveal_strlit("</div>");
    lemma_pass_no_keyword(
        s,
        "<table"@,
        "</table>"@,
        table_keywords(),
        true,
        0,
        Option::None,
    );
    lemma_pass_no_keyword(s, "<div"@, "</div>"@, div_keywords(), false, 0, Option::None);
}

} // verus!
