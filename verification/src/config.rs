//! Configuration parsing: the theme override, a `theme_color` line holding a
//! seven-character `#RRGGBB` value. Reading the file is the caller's job;
//! this module decides what a file's text means.
use crate::extract::{leading_run, starts_with, trailing_run};
use crate::session::Color;
use crate::text::{find_from, is_digit, lines_spec, trim_spec};
use vstd::prelude::*;

verus! {

pub open spec fn is_hex_digit(c: char) -> bool {
    is_digit(c) || ('a' <= c && c <= 'f') || ('A' <= c && c <= 'F')
}

pub open spec fn hex_val(c: char) -> int {
    if is_digit(c) {
        c as int - '0' as int
    } else if 'a' <= c && c <= 'f' {
        c as int - 'a' as int + 10
    } else if 'A' <= c && c <= 'F' {
        c as int - 'A' as int + 10
    } else {
        0
    }
}

pub open spec fn hex_byte(h: char, l: char) -> int {
    hex_val(h) * 16 + hex_val(l)
}

/// `s` with every leading and trailing occurrence of `c` removed.
pub open spec fn strip_edges(s: Seq<char>, c: char) -> Seq<char> {
    let u = s.skip(leading_run(s, c));
    u.take(u.len() - trailing_run(u, c))
}

/// The color a single configuration line sets, if it is a well-formed
/// `theme_color` line: the key, an equals sign, and a quoted or bare
/// seven-character `#RRGGBB` value.
pub open spec fn line_color(line: Seq<char>) -> Option<Color> {
    let t = trim_spec(line);
    if !starts_with(t, "theme_color"@) {
        Option::None
    } else {
        let eq = find_from(t, '=', 0);
        if eq >= t.len() {
            Option::None
        } else {
            let val = strip_edges(strip_edges(trim_spec(t.skip(eq + 1)), '"'), '\u{27}');
            if val.len() == 7 && val[0] == '#' && (forall|i: int|
                1 <= i < 7 ==> is_hex_digit(val[i])) {
                Option::Some(
                    Color::Rgb(
                        hex_byte(val[1], val[2]) as u8,
                        hex_byte(val[3], val[4]) as u8,
                        hex_byte(val[5], val[6]) as u8,
                    ),
                )
            } else {
                Option::None
            }
        }
    }
}

/// The theme the whole configuration text sets: the first line that sets one
/// decides; the default stands otherwise.
pub open spec fn theme_lines(lines: Seq<Seq<char>>) -> Color
    decreases lines.len(),
{
    if lines.len() == 0 {
        Color::Default
    } else {
        match line_color(lines[0]) {
            Option::Some(c) => c,
            Option::None => theme_lines(lines.skip(1)),
        }
    }
}

pub open spec fn theme_of(content: Seq<char>) -> Color {
    theme_lines(lines_spec(content))
}

fn hex_digit_exec(c: char) -> (r: bool)
    ensures
        r == is_hex_digit(c),
{
    crate::text::digit(c) || ('a' <= c && c <= 'f') || ('A' <= c && c <= 'F')
}

fn hex_val_exec(c: char) -> (r: u8)
    requires
        is_hex_digit(c),
    ensures
        r as int == hex_val(c),
        r < 16,
{
    if crate::text::digit(c) {
        (c as u32 - '0' as u32) as u8
    } else if 'a' <= c && c <= 'f' {
        (c as u32 - 'a' as u32 + 10) as u8
    } else {
        (c as u32 - 'A' as u32 + 10) as u8
    }
}

/// Strip every leading and trailing occurrence of `c`.
fn strip_edges_exec(s: &Vec<char>, c: char) -> (r: Vec<char>)
    ensures
        r@ == strip_edges(s@, c),
{
    let k = crate::extract::run_start(s, c);
    let u = crate::text::copy_range(s, k, s.len());
    proof {
        assert(u@ =~= s@.skip(leading_run(s@, c)));
    }
    let m = crate::extract::run_end_start(&u, c);
    let v = crate::text::copy_range(&u, 0, m);
    proof {
        assert(v@ =~= u@.take(u@.len() - trailing_run(u@, c)));
    }
    v
}

fn all_hex(val: &Vec<char>) -> (r: bool)
    requires
        val@.len() == 7,
    ensures
        r == forall|i: int| 1 <= i < 7 ==> is_hex_digit(val@[i]),
{
    let mut i: usize = 1;
    while i < 7
        invariant
            1 <= i <= 7 == val@.len(),
            forall|m: int| 1 <= m < i ==> is_hex_digit(val@[m]),
        decreases 7 - i,
    {
        if !hex_digit_exec(val[i]) {
            return false;
        }
        i += 1;
    }
    true
}

fn line_color_exec(line: &Vec<char>) -> (r: Option<Color>)
    ensures
        r == line_color(line@),
{
    proof {
        reveal_strlit("theme_color");
    }
    let key = crate::strings::str_to_chars("theme_color");
    let t = crate::text::trim(line);
    if !crate::extract::starts_with_exec(&t, &key) {
        return Option::None;
    }
    let eq = crate::text::find_char_from(&t, '=', 0);
    proof {
        crate::text::lemma_find_from_props(t@, '=', 0);
    }
    if eq >= t.len() {
        return Option::None;
    }
    let after = crate::text::copy_range(&t, eq + 1, t.len());
    proof {
        assert(after@ =~= t@.skip(eq + 1));
    }
    let tv = crate::text::trim(&after);
    let v1 = strip_edges_exec(&tv, '"');
    let val = strip_edges_exec(&v1, '\u{27}');
    if val.len() != 7 {
        return Option::None;
    }
    if val[0] != '#' {
        return Option::None;
    }
    if !all_hex(&val) {
        return Option::None;
    }
    let r = hex_val_exec(val[1]) * 16 + hex_val_exec(val[2]);
    let g = hex_val_exec(val[3]) * 16 + hex_val_exec(val[4]);
    let b = hex_val_exec(val[5]) * 16 + hex_val_exec(val[6]);
    Option::Some(Color::Rgb(r, g, b))
}

/// The theme a configuration file's text sets; `Default` when no line sets
/// one.
pub fn parse_theme(content: &str) -> (r: Color)
    ensures
        r == theme_of(content@),
{
    let tc = crate::strings::str_to_chars(content);
    let lines = crate::extract::lines_exec(&tc);
    let ghost ll = lines.deep_view();
    let n = lines.len();
    let mut i: usize = 0;
    proof {
        assert(ll.skip(0) =~~= ll);
    }
    while i < n
        invariant
            0 <= i <= n == ll.len(),
            ll == lines.deep_view(),
            theme_of(content@) == theme_lines(ll.skip(i as int)),
        decreases n - i,
    {
        let ghost tail = ll.skip(i as int);
        proof {
            assert(tail[0] == ll[i as int]);
            assert(ll[i as int] == lines@[i as int]@);
            assert(tail.skip(1) =~~= ll.skip(i + 1));
        }
        match line_color_exec(&lines[i]) {
            Option::Some(c) => {
                return c;
            },
            Option::None => {},
        }
        i += 1;
    }
    proof {
        assert(ll.skip(n as int) =~~= Seq::<Seq<char>>::empty());
    }
    Color::Default
}

} // verus!
