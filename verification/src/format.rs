//! Format templates: `{}` placeholders and their format specifiers.
//!
//! A template is text with placeholders. `{}` takes the next argument as
//! it is; `{:spec}` formats it by `spec`:
//!
//! | spec   | meaning                         |
//! |--------|---------------------------------|
//! | `.N`   | a number with `N` decimals      |
//! | `x`    | hexadecimal, lower case         |
//! | `X`    | hexadecimal, upper case         |
//! | `>N`   | right-aligned in `N` characters |
//! | `<N`   | left-aligned in `N` characters  |
//!
//! `{{` stands for `{` and `}}` for `}`. Braces that enclose anything that
//! does not start with `:` are kept as text, as is a `{` with no `}` after
//! it. A placeholder left without an argument is kept as written; arguments
//! left without a placeholder are ignored.

use vstd::prelude::*;
use crate::lexer::{push_char, push_str, string_of};
use crate::token::chars_of;

verus! {

/// How a placeholder formats its argument.
#[derive(Debug, Clone, Copy, PartialEq, Eq, Structural)]
pub enum FormatSpec {
    /// `{}`, or a specifier that is not recognised: the argument as it is.
    Default,
    /// `{:.N}`: a number with `N` digits after the point.
    Float(usize),
    /// `{:x}`: an integer in lower-case hexadecimal.
    HexLower,
    /// `{:X}`: an integer in upper-case hexadecimal.
    HexUpper,
    /// `{:>N}`: right-aligned in a field of `N` characters.
    RightAlign(usize),
    /// `{:<N}`: left-aligned in a field of `N` characters.
    LeftAlign(usize),
}

/// Whether `c` is an ASCII decimal digit.
pub open spec fn is_digit(c: char) -> bool {
    '0' <= c && c <= '9'
}

/// Whether every character of `s` is an ASCII decimal digit.
pub open spec fn all_digits(s: Seq<char>) -> bool {
    forall|i: int| 0 <= i < s.len() ==> is_digit(#[trigger] s[i])
}

/// The value of the decimal digit `c`.
pub open spec fn digit_value(c: char) -> nat {
    (c as int - '0' as int) as nat
}

/// The number that the decimal digits `s` denote.
pub open spec fn digits_value(s: Seq<char>) -> nat
    decreases s.len(),
{
    if s.len() == 0 {
        0
    } else {
        digits_value(s.drop_last()) * 10 + digit_value(s.last())
    }
}

/// The machine integer that `s` denotes, as `str::parse::<usize>` reads
/// it: an optional `+`, then at least one decimal digit, with a value that
/// fits in a `usize`.
pub open spec fn usize_of(s: Seq<char>) -> Option<usize> {
    let d = if s.len() > 0 && s[0] == '+' {
        s.drop_first()
    } else {
        s
    };
    if d.len() > 0 && all_digits(d) && digits_value(d) <= usize::MAX {
        Some(digits_value(d) as usize)
    } else {
        None
    }
}

/// The format a specifier (the text after the `:` of a placeholder) asks
/// for; a specifier that is not recognised asks for the default.
pub open spec fn format_spec_of(s: Seq<char>) -> FormatSpec {
    if s.len() == 0 {
        FormatSpec::Default
    } else if s[0] == '.' {
        match usize_of(s.drop_first()) {
            Some(n) => FormatSpec::Float(n),
            None => FormatSpec::Default,
        }
    } else if s == seq!['x'] {
        FormatSpec::HexLower
    } else if s == seq!['X'] {
        FormatSpec::HexUpper
    } else if s[0] == '>' && usize_of(s.drop_first()) is Some {
        FormatSpec::RightAlign(usize_of(s.drop_first())->Some_0)
    } else if s[0] == '<' && usize_of(s.drop_first()) is Some {
        FormatSpec::LeftAlign(usize_of(s.drop_first())->Some_0)
    } else {
        FormatSpec::Default
    }
}

/// A longer run of digits is worth at least as much as its prefix.
proof fn lemma_digits_value_prefix(s: Seq<char>, i: int)
    requires
        0 <= i <= s.len(),
    ensures
        digits_value(s.take(i)) <= digits_value(s),
    decreases s.len() - i,
{
    if i < s.len() {
        lemma_digits_value_prefix(s, i + 1);
        assert(s.take(i + 1).drop_last() =~= s.take(i));
    } else {
        assert(s.take(i) =~= s);
    }
}

/// Reads the characters `s[from..]` as `str::parse::<usize>` does.
fn parse_usize(s: &Vec<char>, from: usize) -> (r: Option<usize>)
    requires
        from <= s@.len(),
    ensures
        r == usize_of(s@.skip(from as int)),
{
    let ghost t = s@.skip(from as int);
    let mut start = from;
    if start < s.len() && s[start] == '+' {
        start = start + 1;
    }
    let ghost d = s@.skip(start as int);
    assert(d =~= (if t.len() > 0 && t[0] == '+' { t.drop_first() } else { t }));
    if start >= s.len() {
        return None;
    }
    let mut value: usize = 0;
    let mut i = start;
    assert(usize_of(t) == (if all_digits(d) && digits_value(d) <= usize::MAX {
        Some(digits_value(d) as usize)
    } else {
        None
    }));
    while i < s.len()
        invariant
            start <= i <= s@.len(),
            d == s@.skip(start as int),
            d.len() > 0,
            t == s@.skip(from as int),
            usize_of(t) == (if all_digits(d) && digits_value(d) <= usize::MAX {
                Some(digits_value(d) as usize)
            } else {
                None
            }),
            all_digits(d.take(i - start)),
            value == digits_value(d.take(i - start)),
        decreases s@.len() - i,
    {
        let c = s[i];
        if c < '0' || c > '9' {
            assert(d[i - start] == c);
            return None;
        }
        let dv = (c as u32 - '0' as u32) as usize;
        assert(d.take(i + 1 - start).drop_last() =~= d.take(i - start));
        assert(d.take(i + 1 - start).last() == c);
        if value > (usize::MAX - dv) / 10 {
            proof {
                lemma_digits_value_prefix(d, i + 1 - start);
                assert(digits_value(d.take(i + 1 - start)) == value * 10 + dv);
            }
            return None;
        }
        value = value * 10 + dv;
        i = i + 1;
    }
    assert(d.take(i - start) =~= d);
    Some(value)
}

/// Reads a format specifier (the text after the `:` of a placeholder).
/// A specifier that is not recognised gives [`FormatSpec::Default`].
pub fn parse_format_spec(spec: &str) -> (r: FormatSpec)
    ensures
        r == format_spec_of(spec@),
{
    let s = chars_of(spec);
    if s.len() == 0 {
        return FormatSpec::Default;
    }
    assert(s@.drop_first() =~= s@.skip(1));
    if s[0] == '.' {
        return match parse_usize(&s, 1) {
            Some(n) => FormatSpec::Float(n),
            None => FormatSpec::Default,
        };
    }
    if s.len() == 1 && s[0] == 'x' {
        assert(s@ =~= seq!['x']);
        return FormatSpec::HexLower;
    }
    if s.len() == 1 && s[0] == 'X' {
        assert(s@ =~= seq!['X']);
        return FormatSpec::HexUpper;
    }
    assert(s@ != seq!['x'] && s@ != seq!['X']) by {
        if s@.len() == 1 {
            assert(s@[0] == seq!['x'][0] ==> s@ =~= seq!['x']);
        }
    }
    if s[0] == '>' {
        if let Some(n) = parse_usize(&s, 1) {
            return FormatSpec::RightAlign(n);
        }
    }
    if s[0] == '<' {
        if let Some(n) = parse_usize(&s, 1) {
            return FormatSpec::LeftAlign(n);
        }
    }
    FormatSpec::Default
}

/// The index of the first `}` at or after `i` in `t`.
pub open spec fn next_close(t: Seq<char>, i: int) -> Option<int>
    decreases t.len() - i,
{
    if i < 0 || i >= t.len() {
        None
    } else if t[i] == '}' {
        Some(i)
    } else {
        next_close(t, i + 1)
    }
}

/// What `next_close` finds: a `}` inside `t`, at or after `i`, with none
/// between; or no `}` at all from `i` on.
pub proof fn lemma_next_close(t: Seq<char>, i: int)
    requires
        0 <= i,
    ensures
        next_close(t, i) matches Some(k) ==> i <= k < t.len() && t[k] == '}'
            && forall|j: int| i <= j < k ==> t[j] != '}',
        next_close(t, i) is None ==> forall|j: int| i <= j < t.len() ==> t[j] != '}',
    decreases t.len() - i,
{
    if i < t.len() && t[i] != '}' {
        lemma_next_close(t, i + 1);
    }
}

/// The index of the first `}` at or after `start` in `chars`.
pub fn find_close_brace(chars: &[char], start: usize) -> (r: Option<usize>)
    ensures
        r == (match next_close(chars@, start as int) {
            Some(k) => Some(k as usize),
            None => None::<usize>,
        }),
{
    proof {
        lemma_next_close(chars@, start as int);
    }
    let mut i = start;
    while i < chars.len()
        invariant
            start <= i,
            next_close(chars@, start as int) == next_close(chars@, i as int),
        decreases chars@.len() - i,
    {
        if chars[i] == '}' {
            return Some(i);
        }
        i = i + 1;
    }
    None
}

/// A piece of a template.
#[derive(Debug)]
pub enum TemplatePiece {
    /// Text that goes to the output as it stands.
    Text(String),
    /// A placeholder; holds its specifier, the text after its `:` (empty
    /// for `{}`).
    Slot(String),
}

/// A template piece as a plain value: whether it is a placeholder, and its
/// text or specifier.
pub open spec fn piece_view(p: TemplatePiece) -> (bool, Seq<char>) {
    match p {
        TemplatePiece::Text(s) => (false, s@),
        TemplatePiece::Slot(s) => (true, s@),
    }
}

/// The pieces of a template list, as plain values.
pub open spec fn pieces_view(ps: Seq<TemplatePiece>) -> Seq<(bool, Seq<char>)> {
    ps.map_values(|p: TemplatePiece| piece_view(p))
}

/// A text piece.
pub open spec fn text_piece(s: Seq<char>) -> (bool, Seq<char>) {
    (false, s)
}

/// A placeholder piece with specifier `s`.
pub open spec fn slot_piece(s: Seq<char>) -> (bool, Seq<char>) {
    (true, s)
}

/// The pieces of the template `t` from index `i` on.
pub open spec fn template_pieces(t: Seq<char>, i: int) -> Seq<(bool, Seq<char>)>
    decreases t.len() - i,
{
    if i < 0 || i >= t.len() {
        seq![]
    } else if t[i] == '{' {
        if i + 1 < t.len() && t[i + 1] == '{' {
            seq![text_piece(seq!['{'])] + template_pieces(t, i + 2)
        } else {
            match next_close(t, i + 1) {
                Some(k) => {
                    proof {
                        lemma_next_close(t, i + 1);
                    }
                    let content = t.subrange(i + 1, k);
                    let piece = if content.len() == 0 {
                        slot_piece(seq![])
                    } else if content[0] == ':' {
                        slot_piece(content.drop_first())
                    } else {
                        text_piece(seq!['{'] + content + seq!['}'])
                    };
                    seq![piece] + template_pieces(t, k + 1)
                },
                None => seq![text_piece(seq!['{'])] + template_pieces(t, i + 1),
            }
        }
    } else if t[i] == '}' {
        if i + 1 < t.len() && t[i + 1] == '}' {
            seq![text_piece(seq!['}'])] + template_pieces(t, i + 2)
        } else {
            seq![text_piece(seq!['}'])] + template_pieces(t, i + 1)
        }
    } else {
        seq![text_piece(seq![t[i]])] + template_pieces(t, i + 1)
    }
}

/// A string holding the one character `c`.
fn char_string(c: char) -> (r: String)
    ensures
        r@ == seq![c],
{
    let mut s = String::new();
    push_char(&mut s, c);
    s
}

/// Splits a template into text and placeholders.
pub fn scan_template(template: &str) -> (r: Vec<TemplatePiece>)
    ensures
        pieces_view(r@) == template_pieces(template@, 0),
{
    let chars = chars_of(template);
    let ghost t = chars@;
    let mut out: Vec<TemplatePiece> = Vec::new();
    let mut i: usize = 0;
    while i < chars.len()
        invariant
            t == chars@,
            t == template@,
            i <= t.len(),
            pieces_view(out@) + template_pieces(t, i as int) == template_pieces(t, 0),
        decreases t.len() - i,
    {
        let ghost before = out@;
        let ghost i0 = i as int;
        let c = chars[i];
        if c == '{' {
            if i + 1 < chars.len() && chars[i + 1] == '{' {
                out.push(TemplatePiece::Text(char_string('{')));
                i = i + 2;
            } else {
                proof {
                    lemma_next_close(t, i + 1);
                }
                match find_close_brace(chars.as_slice(), i + 1) {
                    Some(close) => {
                        let content = string_of(&chars, i + 1, close);
                        let n = close - (i + 1);
                        assert(template_pieces(t, i0) == seq![(if n == 0 {
                            slot_piece(seq![])
                        } else if t[i0 + 1] == ':' {
                            slot_piece(t.subrange(i0 + 1, close as int).drop_first())
                        } else {
                            text_piece(seq!['{'] + t.subrange(i0 + 1, close as int) + seq!['}'])
                        })] + template_pieces(t, close + 1));
                        if n == 0 {
                            out.push(TemplatePiece::Slot(String::new()));
                        } else if chars[i + 1] == ':' {
                            assert(content@.drop_first() =~= t.subrange(i + 2, close as int));
                            out.push(TemplatePiece::Slot(string_of(&chars, i + 2, close)));
                        } else {
                            let mut text = char_string('{');
                            push_str(&mut text, content.as_str());
                            push_char(&mut text, '}');
                            assert(text@ =~= seq!['{'] + t.subrange(i + 1, close as int) + seq!['}']);
                            out.push(TemplatePiece::Text(text));
                        }
                        i = close + 1;
                    },
                    None => {
                        out.push(TemplatePiece::Text(char_string('{')));
                        i = i + 1;
                    },
                }
            }
        } else if c == '}' {
            out.push(TemplatePiece::Text(char_string('}')));
            if i + 1 < chars.len() && chars[i + 1] == '}' {
                i = i + 2;
            } else {
                i = i + 1;
            }
        } else {
            out.push(TemplatePiece::Text(char_string(c)));
            i = i + 1;
        }
        proof {
            let p = pieces_view(out@).last();
            assert(pieces_view(out@) =~= pieces_view(before).push(p));
            assert(template_pieces(t, i0) == seq![p] + template_pieces(t, i as int));
            assert(pieces_view(before).push(p) + template_pieces(t, i as int) =~= pieces_view(before)
                + (seq![p] + template_pieces(t, i as int)));
        }
    }
    out
}

/// How a placeholder left without an argument is written back: `{}`, or
/// `{:` and its specifier and `}`.
pub open spec fn slot_text(spec: Seq<char>) -> Seq<char> {
    if spec.len() == 0 {
        seq!['{', '}']
    } else {
        seq!['{', ':'] + spec + seq!['}']
    }
}

/// The output of the pieces `ps` with the formatted arguments `vs`: each
/// placeholder takes the next argument; once they run out, placeholders
/// are written back as they were; arguments left over are ignored.
pub open spec fn filled(ps: Seq<(bool, Seq<char>)>, vs: Seq<Seq<char>>) -> Seq<char>
    decreases ps.len(),
{
    if ps.len() == 0 {
        seq![]
    } else if !ps[0].0 {
        ps[0].1 + filled(ps.drop_first(), vs)
    } else if vs.len() > 0 {
        vs[0] + filled(ps.drop_first(), vs.drop_first())
    } else {
        slot_text(ps[0].1) + filled(ps.drop_first(), vs)
    }
}

/// The texts of a list of strings.
pub open spec fn strings_view(vs: Seq<String>) -> Seq<Seq<char>> {
    vs.map_values(|v: String| v@)
}

/// Writes out a template's pieces, putting the formatted arguments
/// `values` in its placeholders in order.
pub fn fill_template(pieces: &Vec<TemplatePiece>, values: &Vec<String>) -> (r: String)
    ensures
        r@ == filled(pieces_view(pieces@), strings_view(values@)),
{
    let ghost pv = pieces_view(pieces@);
    let ghost vv = strings_view(values@);
    let mut out = String::new();
    let mut i: usize = 0;
    let mut j: usize = 0;
    assert(pv.skip(0) =~= pv);
    assert(vv.skip(0) =~= vv);
    assert(out@ + filled(pv, vv) =~= filled(pv, vv));
    while i < pieces.len()
        invariant
            pv == pieces_view(pieces@),
            vv == strings_view(values@),
            i <= pieces@.len(),
            j <= values@.len(),
            out@ + filled(pv.skip(i as int), vv.skip(j as int)) == filled(pv, vv),
        decreases pieces@.len() - i,
    {
        let ghost before = out@;
        let ghost rest = pv.skip(i as int);
        assert(rest[0] == piece_view(pieces@[i as int]));
        assert(rest.drop_first() =~= pv.skip(i + 1));
        match &pieces[i] {
            TemplatePiece::Text(text) => {
                push_str(&mut out, text.as_str());
            },
            TemplatePiece::Slot(spec) => {
                if j < values.len() {
                    assert(vv.skip(j as int)[0] == values@[j as int]@);
                    assert(vv.skip(j as int).drop_first() =~= vv.skip(j + 1));
                    push_str(&mut out, values[j].as_str());
                    j = j + 1;
                } else {
                    assert(vv.skip(j as int).len() == 0);
                    push_char(&mut out, '{');
                    if !spec.as_str().is_empty() {
                        push_char(&mut out, ':');
                        push_str(&mut out, spec.as_str());
                    }
                    push_char(&mut out, '}');
                    assert(out@ =~= before + slot_text(spec@));
                }
            },
        }
        i = i + 1;
    }
    assert(pv.skip(i as int).len() == 0);
    assert(out@ + seq![] =~= out@);
    out
}

/// Whether `t` holds neither `{{` nor `}}`.
pub open spec fn no_brace_escapes(t: Seq<char>) -> bool {
    forall|i: int|
        0 <= i < t.len() - 1 ==> !(#[trigger] t[i] == '{' && t[i + 1] == '{') && !(t[i] == '}' && t[i
            + 1] == '}')
}

/// Whether `t` holds no placeholder `{:}` with an empty specifier (which is
/// written back as `{}`).
pub open spec fn no_empty_specifier(t: Seq<char>) -> bool {
    forall|i: int|
        0 <= i < t.len() - 2 ==> !(#[trigger] t[i] == '{' && t[i + 1] == ':' && t[i + 2] == '}')
}

/// What one piece contributes when no argument is left.
pub open spec fn unfilled_piece(p: (bool, Seq<char>)) -> Seq<char> {
    if p.0 {
        slot_text(p.1)
    } else {
        p.1
    }
}

proof fn lemma_filled_prepend(p: (bool, Seq<char>), rest: Seq<(bool, Seq<char>)>)
    ensures
        filled(seq![p] + rest, seq![]) == unfilled_piece(p) + filled(rest, seq![]),
{
    assert((seq![p] + rest).drop_first() =~= rest);
}

proof fn lemma_unfilled_from(t: Seq<char>, i: int)
    requires
        no_brace_escapes(t),
        no_empty_specifier(t),
        0 <= i <= t.len(),
    ensures
        filled(template_pieces(t, i), seq![]) == t.skip(i),
    decreases t.len() - i,
{
    if i == t.len() {
        assert(t.skip(i) =~= seq![]);
    } else if t[i] == '{' {
        if i + 1 < t.len() {
            assert(!(t[i] == '{' && t[i + 1] == '{'));
        }
        lemma_next_close(t, i + 1);
        match next_close(t, i + 1) {
            Some(k) => {
                let content = t.subrange(i + 1, k);
                let piece = if content.len() == 0 {
                    slot_piece(seq![])
                } else if content[0] == ':' {
                    slot_piece(content.drop_first())
                } else {
                    text_piece(seq!['{'] + content + seq!['}'])
                };
                lemma_unfilled_from(t, k + 1);
                lemma_filled_prepend(piece, template_pieces(t, k + 1));
                assert(t.subrange(i, k + 1) =~= seq!['{'] + content + seq!['}']);
                if content.len() == 0 {
                    assert(unfilled_piece(piece) =~= t.subrange(i, k + 1));
                } else if content[0] == ':' {
                    if content.len() == 1 {
                        assert(t[i] == '{' && t[i + 1] == ':' && t[i + 2] == '}');
                    }
                    assert(content =~= seq![':'] + content.drop_first());
                    assert(unfilled_piece(piece) =~= t.subrange(i, k + 1));
                } else {
                    assert(unfilled_piece(piece) =~= t.subrange(i, k + 1));
                }
                assert(t.skip(i) =~= t.subrange(i, k + 1) + t.skip(k + 1));
            },
            None => {
                lemma_unfilled_from(t, i + 1);
                lemma_filled_prepend(text_piece(seq!['{']), template_pieces(t, i + 1));
                assert(t.skip(i) =~= seq![t[i]] + t.skip(i + 1));
            },
        }
    } else if t[i] == '}' {
        if i + 1 < t.len() {
            assert(!(t[i] == '}' && t[i + 1] == '}'));
        }
        lemma_unfilled_from(t, i + 1);
        lemma_filled_prepend(text_piece(seq!['}']), template_pieces(t, i + 1));
        assert(t.skip(i) =~= seq![t[i]] + t.skip(i + 1));
    } else {
        lemma_unfilled_from(t, i + 1);
        lemma_filled_prepend(text_piece(seq![t[i]]), template_pieces(t, i + 1));
        assert(t.skip(i) =~= seq![t[i]] + t.skip(i + 1));
    }
}

/// A template without `{{`, `}}` or `{:}`, filled with no arguments, comes
/// out as it was written: every placeholder, and every brace that is not
/// one, is kept.
pub proof fn lemma_unfilled_template_kept(t: Seq<char>)
    requires
        no_brace_escapes(t),
        no_empty_specifier(t),
    ensures
        filled(template_pieces(t, 0), seq![]) == t,
{
    lemma_unfilled_from(t, 0);
    assert(t.skip(0) =~= t);
}

/// The hexadecimal digit for a value below 16.
pub open spec fn hex_digit(d: nat, upper: bool) -> char {
    if d < 10 {
        (0x30 + d) as char
    } else if upper {
        (0x41 + d - 10) as char
    } else {
        (0x61 + d - 10) as char
    }
}

/// The hexadecimal notation of `n`, without leading zeros.
pub open spec fn hex(n: nat, upper: bool) -> Seq<char>
    decreases n,
{
    if n < 16 {
        seq![hex_digit(n, upper)]
    } else {
        hex(n / 16, upper).push(hex_digit(n % 16, upper))
    }
}

fn hex_of(n: u64, upper: bool) -> (r: String)
    ensures
        r@ == hex(n as nat, upper),
    decreases n,
{
    let d = (n % 16) as u8;
    let ch = if d < 10 {
        (0x30u8 + d) as char
    } else if upper {
        (0x41u8 + d - 10) as char
    } else {
        (0x61u8 + d - 10) as char
    };
    if n < 16 {
        char_string(ch)
    } else {
        let mut s = hex_of(n / 16, upper);
        push_char(&mut s, ch);
        s
    }
}

/// An integer in hexadecimal, as `{:x}` (or, with `upper`, `{:X}`) writes
/// it: a negative number is written as its 64-bit two's complement.
pub fn hex_string(value: i64, upper: bool) -> (r: String)
    ensures
        r@ == hex((value as u64) as nat, upper),
{
    hex_of(value as u64, upper)
}

/// `n` spaces.
pub open spec fn spaces(n: nat) -> Seq<char> {
    Seq::new(n, |_i: int| ' ')
}

/// `s` right-aligned in a field of `width` characters.
pub open spec fn right_aligned(s: Seq<char>, width: nat) -> Seq<char> {
    if s.len() < width {
        spaces((width - s.len()) as nat) + s
    } else {
        s
    }
}

/// `s` left-aligned in a field of `width` characters.
pub open spec fn left_aligned(s: Seq<char>, width: nat) -> Seq<char> {
    if s.len() < width {
        s + spaces((width - s.len()) as nat)
    } else {
        s
    }
}

fn push_spaces(s: &mut String, n: usize)
    ensures
        final(s)@ == old(s)@ + spaces(n as nat),
{
    let mut k: usize = 0;
    while k < n
        invariant
            k <= n,
            s@ == old(s)@ + spaces(k as nat),
        decreases n - k,
    {
        push_char(s, ' ');
        k = k + 1;
        assert(s@ =~= old(s)@ + spaces(k as nat));
    }
}

/// `text` right-aligned in a field of `width` characters (`{:>N}`).
pub fn align_right(text: &str, width: usize) -> (r: String)
    ensures
        r@ == right_aligned(text@, width as nat),
{
    let n = chars_of(text).len();
    let mut out = String::new();
    if n < width {
        push_spaces(&mut out, width - n);
    }
    push_str(&mut out, text);
    assert(out@ =~= right_aligned(text@, width as nat));
    out
}

/// `text` left-aligned in a field of `width` characters (`{:<N}`).
pub fn align_left(text: &str, width: usize) -> (r: String)
    ensures
        r@ == left_aligned(text@, width as nat),
{
    let n = chars_of(text).len();
    let mut out = String::new();
    push_str(&mut out, text);
    if n < width {
        push_spaces(&mut out, width - n);
    }
    assert(out@ =~= left_aligned(text@, width as nat));
    out
}

} // verus!
