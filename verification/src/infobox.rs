//! Infobox text cleanup: the captured table's markup, rendered to narrow
//! plain text, is reduced to its key/value lines.
use crate::extract::{
    join_lines, rendered_text, render_markup, starts_with,
};
use crate::sanitize::contains_sub;
use crate::text::{lines_spec, strip_citations_spec, trim_spec};
use vstd::prelude::*;

verus! {

/// A line made solely of box-drawing and separator characters.
pub open spec fn is_box_line(t: Seq<char>) -> bool {
    t.len() > 0 && forall|i: int|
        0 <= i < t.len() ==> t[i] == '_' || t[i] == '-' || t[i] == '\u{2500}' || t[i] == ' '
            || t[i] == '|'
}

/// A pure wikilink or file-reference line.
pub open spec fn is_wikilink_line(t: Seq<char>) -> bool {
    starts_with(t, "[["@) || contains_sub(t, "File:"@)
}

/// A caption-style bracket-prefixed line.
pub open spec fn is_caption_line(t: Seq<char>) -> bool {
    t.len() > 0 && t[0] == '[' && contains_sub(t, "]:"@)
}

/// The look-ahead bound of the infobox bracket rule.
pub open spec fn infobox_window() -> Option<int> {
    Option::Some(6int)
}

/// The cleaned lines, in order: separator and link lines dropped, runs of
/// blank lines collapsed to one, citation brackets stripped from the rest.
pub open spec fn clean_lines(lines: Seq<Seq<char>>, last_blank: bool) -> Seq<Seq<char>>
    decreases lines.len(),
{
    if lines.len() == 0 {
        Seq::empty()
    } else {
        let t = trim_spec(lines[0]);
        if is_box_line(t) || is_wikilink_line(t) || is_caption_line(t) {
            clean_lines(lines.skip(1), last_blank)
        } else if t.len() == 0 {
            if last_blank {
                clean_lines(lines.skip(1), true)
            } else {
                seq![Seq::<char>::empty()] + clean_lines(lines.skip(1), true)
            }
        } else {
            seq![trim_spec(strip_citations_spec(t, infobox_window()))] + clean_lines(
                lines.skip(1),
                false,
            )
        }
    }
}

/// The whole cleanup of rendered infobox text.
pub open spec fn clean_infobox_spec(text: Seq<char>) -> Seq<char> {
    trim_spec(join_lines(clean_lines(lines_spec(text), false)))
}

fn box_line_exec(t: &Vec<char>) -> (r: bool)
    ensures
        r == is_box_line(t@),
{
    let n = t.len();
    if n == 0 {
        return false;
    }
    let mut i: usize = 0;
    while i < n
        invariant
            0 <= i <= n == t@.len(),
            forall|m: int|
                0 <= m < i ==> t@[m] == '_' || t@[m] == '-' || t@[m] == '\u{2500}' || t@[m] == ' '
                    || t@[m] == '|',
        decreases n - i,
    {
        let c = t[i];
        if c != '_' && c != '-' && c != '\u{2500}' && c != ' ' && c != '|' {
            return false;
        }
        i += 1;
    }
    true
}

/// Clean the rendered infobox text line by line.
pub fn clean_infobox_text(text: &str) -> (r: String)
    ensures
        r@ == clean_infobox_spec(text@),
{
    proof {
        reveal_strlit("[[");
        reveal_strlit("File:");
        reveal_strlit("]:");
    }
    let wiki_pat = crate::strings::str_to_chars("[[");
    let file_pat = crate::strings::str_to_chars("File:");
    let ref_pat = crate::strings::str_to_chars("]:");
    let tc = crate::strings::str_to_chars(text);
    let lines = crate::extract::lines_exec(&tc);
    let ghost ll = lines.deep_view();
    let mut kept: Vec<Vec<char>> = Vec::new();
    let mut last_blank: bool = false;
    let n = lines.len();
    let mut i: usize = 0;
    proof {
        assert(ll.skip(0) =~~= ll);
        assert(kept.deep_view() + clean_lines(ll, false) =~~= clean_lines(ll, false));
    }
    while i < n
        invariant
            0 <= i <= n == ll.len(),
            ll == lines.deep_view(),
            wiki_pat@ == "[["@ && file_pat@ == "File:"@ && ref_pat@ == "]:"@,
            clean_lines(ll, false) == kept.deep_view() + clean_lines(
                ll.skip(i as int),
                last_blank,
            ),
        decreases n - i,
    {
        let ghost tail = ll.skip(i as int);
        proof {
            reveal_strlit("[[");
            reveal_strlit("File:");
            reveal_strlit("]:");
            assert(tail[0] == ll[i as int]);
            assert(ll[i as int] == lines@[i as int]@);
            assert(tail.skip(1) =~~= ll.skip(i + 1));
        }
        let t = crate::text::trim(&lines[i]);
        let is_wiki = crate::extract::starts_with_exec(&t, &wiki_pat) || crate::sanitize::contains_sub_exec(
            &t,
            &file_pat,
        );
        let is_cap = t.len() > 0 && t[0] == '[' && crate::sanitize::contains_sub_exec(
            &t,
            &ref_pat,
        );
        if box_line_exec(&t) || is_wiki || is_cap {
        } else if t.len() == 0 {
            if !last_blank {
                let ghost prev = kept.deep_view();
                let blank: Vec<char> = Vec::new();
                kept.push(blank);
                proof {
                    assert(kept.deep_view() =~~= prev + seq![Seq::<char>::empty()]);
                }
            }
            last_blank = true;
        } else {
            let stripped = crate::text::strip_citations(&t, Option::Some(6));
            let f = crate::text::trim(&stripped);
            let ghost prev = kept.deep_view();
            kept.push(f);
            proof {
                assert(kept.deep_view() =~~= prev + seq![
                    trim_spec(strip_citations_spec(t@, infobox_window())),
                ]);
            }
            last_blank = false;
        }
        i += 1;
    }
    proof {
        assert(ll.skip(n as int) =~~= Seq::<Seq<char>>::empty());
        assert(kept.deep_view() + clean_lines(ll.skip(n as int), last_blank) =~~= kept.deep_view());
    }
    let joined = crate::extract::join_exec(&kept);
    let trimmed = crate::text::trim(&joined);
    crate::strings::chars_to_string(&trimmed)
}

/// Render the captured infobox markup at a compact width and clean it; an
/// empty result when the renderer reports an error.
pub fn infobox_text(markup: &str) -> (r: String)
    ensures
        rendered_text(markup@, 50) matches Option::Some(t) ==> r@ == clean_infobox_spec(t),
        rendered_text(markup@, 50) is None ==> r@ == Seq::<char>::empty(),
{
    match render_markup(markup, 50) {
        Option::Some(t) => clean_infobox_text(t.as_str()),
        Option::None => String::new(),
    }
}

} // verus!
