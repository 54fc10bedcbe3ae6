//! Line-level text normalization shared by the infobox cleaner and the body
//! extractor: character classes, trimming, line splitting, and
//! citation-bracket stripping.
use vstd::prelude::*;

verus! {

/// Whitespace as this library trims it: the ASCII blank characters.
pub open spec fn is_space(c: char) -> bool {
    c == ' ' || c == '\t' || c == '\r' || c == '\n'
}

/// Decimal digit.
pub open spec fn is_digit(c: char) -> bool {
    '0' <= c && c <= '9'
}

pub fn digit(c: char) -> (r: bool)
    ensures
        r == is_digit(c),
{
    '0' <= c && c <= '9'
}

pub fn space(c: char) -> (r: bool)
    ensures
        r == is_space(c),
{
    c == ' ' || c == '\t' || c == '\r' || c == '\n'
}

/// Number of leading whitespace characters of `s`.
pub open spec fn leading_spaces(s: Seq<char>) -> int
    decreases s.len(),
{
    if s.len() == 0 || !is_space(s[0]) {
        0
    } else {
        1 + leading_spaces(s.skip(1))
    }
}


/// Number of trailing whitespace characters of `s`.
pub open spec fn trailing_spaces(s: Seq<char>) -> int
    decreases s.len(),
{
    if s.len() == 0 || !is_space(s[s.len() - 1]) {
        0
    } else {
        1 + trailing_spaces(s.take(s.len() - 1))
    }
}

/// `s` with surrounding whitespace removed.
pub open spec fn trim_spec(s: Seq<char>) -> Seq<char> {
    let t = s.skip(leading_spaces(s));
    t.take(t.len() - trailing_spaces(t))
}

proof fn lemma_leading_spaces_char(s: Seq<char>, k: int)
    requires
        0 <= k <= s.len(),
        forall|i: int| 0 <= i < k ==> is_space(s[i]),
        k < s.len() ==> !is_space(s[k]),
    ensures
        leading_spaces(s) == k,
    decreases s.len(),
{
    if k == 0 {
    } else {
        assert(is_space(s[0]));
        lemma_leading_spaces_char(s.skip(1), k - 1);
    }
}

proof fn lemma_trailing_spaces_char(s: Seq<char>, k: int)
    requires
        0 <= k <= s.len(),
        forall|i: int| k <= i < s.len() ==> is_space(s[i]),
        k > 0 ==> !is_space(s[k - 1]),
    ensures
        trailing_spaces(s) == s.len() - k,
    decreases s.len(),
{
    if k == s.len() {
    } else {
        assert(is_space(s[s.len() - 1]));
        lemma_trailing_spaces_char(s.take(s.len() - 1), k);
    }
}

/// Remove surrounding whitespace.
pub fn trim(s: &Vec<char>) -> (r: Vec<char>)
    ensures
        r@ == trim_spec(s@),
{
    let n = s.len();
    let mut i: usize = 0;
    while i < n && space(s[i])
        invariant
            0 <= i <= n == s.len(),
            forall|m: int| 0 <= m < i ==> is_space(s@[m]),
        decreases n - i,
    {
        i += 1;
    }
    let mut j: usize = n;
    while j > i && space(s[j - 1])
        invariant
            i <= j <= n == s.len(),
            forall|m: int| j <= m < n ==> is_space(s@[m]),
        decreases j,
    {
        j -= 1;
    }
    proof {
        lemma_leading_spaces_char(s@, i as int);
        let t = s@.skip(i as int);
        lemma_trailing_spaces_char(t, j - i);
        assert(trim_spec(s@) =~= s@.subrange(i as int, j as int));
    }
    let mut r: Vec<char> = Vec::new();
    let mut m: usize = i;
    while m < j
        invariant
            i <= m <= j <= s.len(),
            r@ == s@.subrange(i as int, m as int),
        decreases j - m,
    {
        let c = s[m];
        r.push(c);
        proof {
            assert(r@ =~= s@.subrange(i as int, m + 1 as int));
        }
        m += 1;
    }
    r
}

/// Index of the first occurrence of `c` in `s` at or after `from`;
/// `s.len()` when there is none.
pub open spec fn find_from(s: Seq<char>, c: char, from: int) -> int
    decreases s.len() - from,
    when 0 <= from <= s.len()
{
    if from >= s.len() {
        s.len() as int
    } else if s[from] == c {
        from
    } else {
        find_from(s, c, from + 1)
    }
}

pub proof fn lemma_find_from_props(s: Seq<char>, c: char, from: int)
    requires
        0 <= from <= s.len(),
    ensures
        from <= find_from(s, c, from) <= s.len(),
        forall|i: int| from <= i < find_from(s, c, from) ==> s[i] != c,
        find_from(s, c, from) < s.len() ==> s[find_from(s, c, from)] == c,
    decreases s.len() - from,
{
    if from >= s.len() {
    } else if s[from] == c {
    } else {
        lemma_find_from_props(s, c, from + 1);
    }
}

pub proof fn lemma_find_from_char(s: Seq<char>, c: char, from: int, k: int)
    requires
        0 <= from <= k <= s.len(),
        forall|i: int| from <= i < k ==> s[i] != c,
        k < s.len() ==> s[k] == c,
    ensures
        find_from(s, c, from) == k,
    decreases s.len() - from,
{
    if from < k {
        lemma_find_from_char(s, c, from + 1, k);
    }
}

/// First occurrence of `c` in `s` at or after `from`, as the executable code
/// finds it.
pub fn find_char_from(s: &Vec<char>, c: char, from: usize) -> (r: usize)
    requires
        from <= s@.len(),
    ensures
        r == find_from(s@, c, from as int),
    decreases s@.len() - from,
{
    let mut i: usize = from;
    let n = s.len();
    while i < n && s[i] != c
        invariant
            from <= i <= n == s.len(),
            forall|m: int| from <= m < i ==> s@[m] != c,
        decreases n - i,
    {
        i += 1;
    }
    proof {
        lemma_find_from_char(s@, c, from as int, i as int);
    }
    i
}

/// `s` split at every occurrence of `c`; the separators themselves are
/// dropped. An empty `s` yields one empty piece.
pub open spec fn split_char(s: Seq<char>, c: char) -> Seq<Seq<char>>
    decreases s.len(),
{
    let j = find_from(s, c, 0);
    if 0 <= j < s.len() {
        seq![s.take(j)] + split_char(s.skip(j + 1), c)
    } else {
        seq![s]
    }
}

/// The lines of `s`: pieces split at `'\n'`, a trailing newline producing no
/// final empty line, as `str::lines` has it.
pub open spec fn lines_spec(s: Seq<char>) -> Seq<Seq<char>> {
    if s.len() == 0 {
        seq![]
    } else if s[s.len() - 1] == '\n' {
        split_char(s.take(s.len() - 1), '\n')
    } else {
        split_char(s, '\n')
    }
}

proof fn lemma_split_char_step(s: Seq<char>, c: char, start: int, j: int)
    requires
        0 <= start <= j <= s.len(),
        forall|i: int| start <= i < j ==> s[i] != c,
        j < s.len() ==> s[j] == c,
    ensures
        j == s.len() ==> split_char(s.skip(start), c) == seq![s.subrange(start, j)],
        j < s.len() ==> split_char(s.skip(start), c) == seq![s.subrange(start, j)] + split_char(
            s.skip(j + 1),
            c,
        ),
{
    let t = s.skip(start);
    assert forall|i: int| 0 <= i < j - start implies t[i] != c by {
        assert(t[i] == s[start + i]);
    }
    lemma_find_from_char(t, c, 0, j - start);
    if j == s.len() {
        assert(t.take(j - start) =~= s.subrange(start, j));
        assert(t =~= s.subrange(start, j));
    } else {
        assert(t[j - start] == s[j]);
        assert(t.take(j - start) =~= s.subrange(start, j));
        assert(t.skip(j - start + 1) =~= s.skip(j + 1));
    }
}

/// Split `s` at every occurrence of `c`.
pub fn split_chars(s: &Vec<char>, c: char) -> (r: Vec<Vec<char>>)
    ensures
        r.deep_view() == split_char(s@, c),
{
    let n = s.len();
    let mut r: Vec<Vec<char>> = Vec::new();
    let mut start: usize = 0;
    let mut i: usize = 0;
    proof {
        assert(s@.skip(0) =~= s@);
        assert(r.deep_view() + split_char(s@, c) =~~= split_char(s@, c));
    }
    loop
        invariant
            0 <= start <= i <= n == s.len(),
            forall|m: int| start <= m < i ==> s@[m] != c,
            split_char(s@, c) == r.deep_view() + split_char(s@.skip(start as int), c),
        decreases n - i,
    {
        if i < n && s[i] != c {
            i += 1;
        } else if i < n {
            // s[i] == c: close the current piece.
            proof {
                lemma_split_char_step(s@, c, start as int, i as int);
            }
            let ghost prev = r.deep_view();
            let piece = copy_range(s, start, i);
            r.push(piece);
            proof {
                assert(r.deep_view() =~~= prev + seq![s@.subrange(start as int, i as int)]);
                assert(prev + (seq![s@.subrange(start as int, i as int)] + split_char(
                    s@.skip(i + 1),
                    c,
                )) =~= r.deep_view() + split_char(s@.skip(i + 1), c));
            }
            i += 1;
            start = i;
        } else {
            proof {
                lemma_split_char_step(s@, c, start as int, i as int);
            }
            let ghost prev = r.deep_view();
            let piece = copy_range(s, start, i);
            r.push(piece);
            proof {
                assert(r.deep_view() =~~= prev + seq![s@.subrange(start as int, i as int)]);
            }
            return r;
        }
    }
}

/// Copy of `s[from..to]`.
pub fn copy_range(s: &Vec<char>, from: usize, to: usize) -> (r: Vec<char>)
    requires
        from <= to <= s@.len(),
    ensures
        r@ == s@.subrange(from as int, to as int),
{
    let mut r: Vec<char> = Vec::new();
    let mut m: usize = from;
    while m < to
        invariant
            from <= m <= to <= s.len(),
            r@ == s@.subrange(from as int, m as int),
        decreases to - m,
    {
        let ch = s[m];
        r.push(ch);
        proof {
            assert(r@ =~= s@.subrange(from as int, m + 1 as int));
        }
        m += 1;
    }
    r
}


/// Content of a bracketed span that marks a citation or edit link rather
/// than prose: all digits (an empty span counts), the word `edit`, or a
/// single character.
pub open spec fn is_citation_content(s: Seq<char>) -> bool {
    (forall|i: int| 0 <= i < s.len() ==> is_digit(s[i])) || s == seq!['e', 'd', 'i', 't']
        || s.len() == 1
}

pub fn citation_content(s: &Vec<char>) -> (r: bool)
    ensures
        r == is_citation_content(s@),
{
    if s.len() == 1 {
        return true;
    }
    if s.len() == 4 && s[0] == 'e' && s[1] == 'd' && s[2] == 'i' && s[3] == 't' {
        proof {
            assert(s@ =~= seq!['e', 'd', 'i', 't']);
        }
        return true;
    }
    proof {
        if s@ == seq!['e', 'd', 'i', 't'] {
            assert(s@[0] == 'e' && s@[1] == 'd' && s@[2] == 'i' && s@[3] == 't');
            assert(false);
        }
    }
    let mut i: usize = 0;
    let n = s.len();
    while i < n
        invariant
            0 <= i <= n == s.len(),
            forall|m: int| 0 <= m < i ==> is_digit(s@[m]),
            s@ != seq!['e', 'd', 'i', 't'],
            s@.len() != 1,
        decreases n - i,
    {
        if !digit(s[i]) {
            return false;
        }
        i += 1;
    }
    true
}

/// Whether a closing bracket found at offset `j` past the opening bracket is
/// within the look-ahead window: always for an unbounded scan, and only below
/// the bound for a bounded one.
pub open spec fn within_window(j: int, w: Option<int>) -> bool {
    match w {
        Option::None => true,
        Option::Some(b) => j < b,
    }
}

/// Citation-bracket stripping. On `[`, the next `]` within the window closes
/// a span: a citation span is deleted whole, any other span keeps its content
/// and loses its brackets. An unmatched `[` stays; a `]` met outside a span
/// is dropped.
pub open spec fn strip_citations_spec(s: Seq<char>, w: Option<int>) -> Seq<char>
    decreases s.len(),
{
    if s.len() == 0 {
        Seq::empty()
    } else if s[0] == '[' {
        let j = find_from(s, ']', 1);
        if 0 < j < s.len() && within_window(j, w) {
            if is_citation_content(s.subrange(1, j)) {
                strip_citations_spec(s.skip(j + 1), w)
            } else {
                strip_citations_spec(s.skip(1), w)
            }
        } else {
            seq!['['] + strip_citations_spec(s.skip(1), w)
        }
    } else if s[0] == ']' {
        strip_citations_spec(s.skip(1), w)
    } else {
        seq![s[0]] + strip_citations_spec(s.skip(1), w)
    }
}

proof fn lemma_find_from_shift(s: Seq<char>, c: char, k: int, from: int)
    requires
        0 <= k <= s.len(),
        0 <= from <= s.len() - k,
    ensures
        find_from(s.skip(k), c, from) == find_from(s, c, k + from) - k,
    decreases s.len() - k - from,
{
    let t = s.skip(k);
    if from >= t.len() {
    } else if t[from] == c {
        assert(s[k + from] == t[from]);
    } else {
        assert(s[k + from] == t[from]);
        lemma_find_from_shift(s, c, k, from + 1);
    }
}

/// Strip citation brackets from `s`, looking ahead at most `window`
/// characters for the closing bracket when a bound is given.
pub fn strip_citations(s: &Vec<char>, window: Option<usize>) -> (r: Vec<char>)
    ensures
        r@ == strip_citations_spec(s@, window_view(window)),
{
    let ghost w = window_view(window);
    let n = s.len();
    let mut r: Vec<char> = Vec::new();
    let mut i: usize = 0;
    proof {
        assert(s@.skip(0) =~= s@);
    }
    while i < n
        invariant
            0 <= i <= n == s.len(),
            strip_citations_spec(s@, w) == r@ + strip_citations_spec(s@.skip(i as int), w),
            w == window_view(window),
        decreases n - i,
    {
        let ghost t = s@.skip(i as int);
        let ghost prev = r@;
        if s[i] == '[' {
            let j = find_char_from(s, ']', i + 1);
            proof {
                lemma_find_from_shift(s@, ']', i as int, 1);
                lemma_find_from_props(s@, ']', i + 1);
                assert(find_from(t, ']', 1) == j - i);
            }
            let within = match window {
                Option::Some(b) => j - i < b,
                Option::None => true,
            };
            if j < n && within {
                let content = copy_range(s, i + 1, j);
                proof {
                    assert(t.subrange(1, j - i) =~= s@.subrange(i + 1, j as int));
                    assert(content@ == t.subrange(1, j - i));
                }
                if citation_content(&content) {
                    proof {
                        assert(t.skip(j - i + 1) =~= s@.skip(j + 1));
                        assert(strip_citations_spec(t, w) == strip_citations_spec(
                            s@.skip(j + 1),
                            w,
                        ));
                    }
                    i = j + 1;
                } else {
                    proof {
                        assert(t.skip(1) =~= s@.skip(i + 1));
                    }
                    i += 1;
                }
            } else {
                r.push('[');
                proof {
                    assert(t.skip(1) =~= s@.skip(i + 1));
                    assert(r@ =~= prev + seq!['[']);
                    assert(prev + (seq!['['] + strip_citations_spec(s@.skip(i + 1), w)) =~= r@
                        + strip_citations_spec(s@.skip(i + 1), w));
                }
                i += 1;
            }
        } else if s[i] == ']' {
            proof {
                assert(t.skip(1) =~= s@.skip(i + 1));
            }
            i += 1;
        } else {
            let c = s[i];
            r.push(c);
            proof {
                assert(t.skip(1) =~= s@.skip(i + 1));
                assert(r@ =~= prev + seq![s@[i as int]]);
                assert(prev + (seq![s@[i as int]] + strip_citations_spec(s@.skip(i + 1), w)) =~= r@
                    + strip_citations_spec(s@.skip(i + 1), w));
            }
            i += 1;
        }
    }
    proof {
        assert(s@.skip(n as int) =~= Seq::<char>::empty());
        assert(r@ + Seq::<char>::empty() =~= r@);
    }
    r
}

/// The look-ahead window as the specification sees it.
pub open spec fn window_view(w: Option<usize>) -> Option<int> {
    match w {
        Option::None => Option::<int>::None,
        Option::Some(b) => Option::Some(b as int),
    }
}

/// No closing bracket survives stripping.
pub proof fn lemma_strip_no_close(s: Seq<char>, w: Option<int>)
    ensures
        forall|i: int|
            0 <= i < strip_citations_spec(s, w).len() ==> strip_citations_spec(s, w)[i] != ']',
    decreases s.len(),
{
    if s.len() == 0 {
    } else if s[0] == '[' {
        let j = find_from(s, ']', 1);
        lemma_find_from_props(s, ']', 1);
        if 0 < j < s.len() && within_window(j, w) {
            if is_citation_content(s.subrange(1, j)) {
                lemma_strip_no_close(s.skip(j + 1), w);
                assert(strip_citations_spec(s, w) == strip_citations_spec(s.skip(j + 1), w));
            } else {
                lemma_strip_no_close(s.skip(1), w);
                assert(strip_citations_spec(s, w) == strip_citations_spec(s.skip(1), w));
            }
        } else {
            lemma_strip_no_close(s.skip(1), w);
            let out = seq!['['] + strip_citations_spec(s.skip(1), w);
            assert forall|i: int| 0 <= i < out.len() implies out[i] != ']' by {
                if i > 0 {
                    assert(out[i] == strip_citations_spec(s.skip(1), w)[i - 1]);
                }
            }
        }
    } else if s[0] == ']' {
        lemma_strip_no_close(s.skip(1), w);
        assert(strip_citations_spec(s, w) == strip_citations_spec(s.skip(1), w));
    } else {
        lemma_strip_no_close(s.skip(1), w);
        let out = seq![s[0]] + strip_citations_spec(s.skip(1), w);
        assert forall|i: int| 0 <= i < out.len() implies out[i] != ']' by {
            if i > 0 {
                assert(out[i] == strip_citations_spec(s.skip(1), w)[i - 1]);
            }
        }
    }
}

/// Stripping leaves a sequence without closing brackets unchanged.
pub proof fn lemma_strip_no_close_identity(s: Seq<char>, w: Option<int>)
    requires
        forall|i: int| 0 <= i < s.len() ==> s[i] != ']',
    ensures
        strip_citations_spec(s, w) == s,
    decreases s.len(),
{
    if s.len() == 0 {
        assert(strip_citations_spec(s, w) =~= s);
    } else {
        assert forall|i: int| 0 <= i < s.skip(1).len() implies s.skip(1)[i] != ']' by {
            assert(s.skip(1)[i] == s[i + 1]);
        }
        lemma_strip_no_close_identity(s.skip(1), w);
        if s[0] == '[' {
            let j = find_from(s, ']', 1);
            lemma_find_from_props(s, ']', 1);
            assert(j == s.len());
            assert(seq!['['] + s.skip(1) =~= s);
        } else {
            assert(seq![s[0]] + s.skip(1) =~= s);
        }
    }
}

/// Citation-bracket stripping is idempotent: a second pass changes nothing.
pub proof fn lemma_strip_citations_idempotent(s: Seq<char>, w: Option<int>)
    ensures
        strip_citations_spec(strip_citations_spec(s, w), w) == strip_citations_spec(s, w),
{
    lemma_strip_no_close(s, w);
    lemma_strip_no_close_identity(strip_citations_spec(s, w), w);
}


/// A non-empty, all-digit sequence.
pub open spec fn is_digits(s: Seq<char>) -> bool {
    s.len() > 0 && forall|i: int| 0 <= i < s.len() ==> is_digit(s[i])
}

/// The number the digit sequence denotes in base ten.
pub open spec fn digits_value(s: Seq<char>) -> int
    decreases s.len(),
{
    if s.len() == 0 {
        0
    } else {
        digits_value(s.take(s.len() - 1)) * 10 + (s[s.len() - 1] as int - '0' as int)
    }
}

proof fn lemma_digits_value_grows(s: Seq<char>, k: int)
    requires
        0 <= k <= s.len(),
        digits_value(s.take(k)) >= 0,
        forall|i: int| k <= i < s.len() ==> is_digit(s[i]),
    ensures
        digits_value(s) >= digits_value(s.take(k)),
    decreases s.len() - k,
{
    if k == s.len() {
        assert(s.take(k) =~= s);
    } else {
        assert(s.take(k + 1).take(k) =~= s.take(k));
        assert(s.take(k + 1)[k] == s[k]);
        assert(is_digit(s[k]));
        assert(digits_value(s.take(k + 1)) == digits_value(s.take(k)) * 10 + (s[k] as int
            - '0' as int));
        lemma_digits_value_grows(s, k + 1);
    }
}

/// Parse a non-empty all-digit buffer as a number; `None` on any other
/// buffer, or when the number does not fit.
pub fn parse_usize(s: &Vec<char>) -> (r: Option<usize>)
    ensures
        match r {
            Option::Some(v) => is_digits(s@) && digits_value(s@) == v as int,
            Option::None => !is_digits(s@) || digits_value(s@) > usize::MAX as int,
        },
{
    let n = s.len();
    if n == 0 {
        return Option::None;
    }
    let mut acc: usize = 0;
    let mut i: usize = 0;
    proof {
        assert(s@.take(0) =~= Seq::<char>::empty());
    }
    while i < n
        invariant
            0 <= i <= n == s@.len(),
            forall|m: int| 0 <= m < i ==> is_digit(s@[m]),
            acc as int == digits_value(s@.take(i as int)),
        decreases n - i,
    {
        let c = s[i];
        if !digit(c) {
            return Option::None;
        }
        let d: usize = (c as u32 - '0' as u32) as usize;
        proof {
            assert(d as int == c as int - '0' as int);
            assert(0 <= d <= 9);
            vstd::arithmetic::div_mod::lemma_fundamental_div_mod((usize::MAX - d) as int, 10);
            assert(s@.take(i + 1).take(i as int) =~= s@.take(i as int));
            assert(s@.take(i + 1)[i as int] == s@[i as int]);
        }
        if acc > (usize::MAX - d) / 10 {
            proof {
                assert(acc as int * 10 + d > usize::MAX as int);
                assert(digits_value(s@.take(i + 1)) > usize::MAX as int);
                if is_digits(s@) {
                    lemma_digits_value_grows(s@, i + 1);
                }
            }
            return Option::None;
        }
        proof {
            assert(acc as int * 10 + d <= usize::MAX as int);
        }
        acc = acc * 10 + d;
        i += 1;
    }
    proof {
        assert(s@.take(n as int) =~= s@);
    }
    Option::Some(acc)
}

} // verus!
