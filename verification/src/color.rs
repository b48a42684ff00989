//! Hex colour strings such as `"#FF0000"` or `"#FF000080"`.

use vstd::prelude::*;
use crate::token::chars_of;

verus! {

#[verifier::external_type_specification]
#[verifier::external_body]
pub struct ExColor32(egui::Color32);

/// The colour `egui::Color32::from_rgb` makes of red, green and blue.
pub uninterp spec fn rgb_color(r: u8, g: u8, b: u8) -> egui::Color32;

/// The colour `egui::Color32::from_rgba_unmultiplied` makes of red, green,
/// blue and a separate alpha.
pub uninterp spec fn rgba_unmultiplied_color(r: u8, g: u8, b: u8, a: u8) -> egui::Color32;

/// An opaque colour (`egui::Color32::from_rgb`). The colour is claimed to
/// depend on the three components alone.
#[verifier::external_body]
fn color_from_rgb(r: u8, g: u8, b: u8) -> (c: egui::Color32)
    ensures
        c == rgb_color(r, g, b),
{
    egui::Color32::from_rgb(r, g, b)
}

/// A colour with separate alpha (`egui::Color32::from_rgba_unmultiplied`,
/// which premultiplies it). The colour is claimed to depend on the four
/// components alone.
#[verifier::external_body]
fn color_from_rgba_unmultiplied(r: u8, g: u8, b: u8, a: u8) -> (c: egui::Color32)
    ensures
        c == rgba_unmultiplied_color(r, g, b, a),
{
    egui::Color32::from_rgba_unmultiplied(r, g, b, a)
}

/// Whether `c` is an ASCII hexadecimal digit.
pub open spec fn is_hex_digit(c: char) -> bool {
    ('0' <= c && c <= '9') || ('a' <= c && c <= 'f') || ('A' <= c && c <= 'F')
}

/// The value of the hexadecimal digit `c`.
pub open spec fn hex_value(c: char) -> nat {
    if '0' <= c && c <= '9' {
        (c as int - '0' as int) as nat
    } else if 'a' <= c && c <= 'f' {
        (c as int - 'a' as int + 10) as nat
    } else {
        (c as int - 'A' as int + 10) as nat
    }
}

/// `s` without the `#` characters it starts with.
pub open spec fn without_leading_hashes(s: Seq<char>) -> Seq<char>
    decreases s.len(),
{
    if s.len() > 0 && s[0] == '#' {
        without_leading_hashes(s.drop_first())
    } else {
        s
    }
}

/// The byte written by the two hexadecimal digits of `t` at `i`.
pub open spec fn hex_byte(t: Seq<char>, i: int) -> u8 {
    (hex_value(t[i]) * 16 + hex_value(t[i + 1])) as u8
}

/// The components a hex colour string denotes: after any leading `#`,
/// exactly six or eight hexadecimal digits, two for each of red, green,
/// blue and (with eight) alpha.
pub open spec fn hex_color_of(s: Seq<char>) -> Option<(u8, u8, u8, Option<u8>)> {
    let t = without_leading_hashes(s);
    if (t.len() == 6 || t.len() == 8) && forall|i: int| 0 <= i < t.len() ==> is_hex_digit(#[trigger] t[i]) {
        Some(
            (
                hex_byte(t, 0),
                hex_byte(t, 2),
                hex_byte(t, 4),
                if t.len() == 8 {
                    Some(hex_byte(t, 6))
                } else {
                    None
                },
            ),
        )
    } else {
        None
    }
}

proof fn lemma_without_leading_hashes(s: Seq<char>, i: int)
    requires
        0 <= i <= s.len(),
        forall|j: int| 0 <= j < i ==> s[j] == '#',
    ensures
        without_leading_hashes(s) == without_leading_hashes(s.skip(i)),
    decreases i,
{
    if i > 0 {
        lemma_without_leading_hashes(s.drop_first(), i - 1);
        assert(s.drop_first().skip(i - 1) =~= s.skip(i));
    } else {
        assert(s.skip(0) =~= s);
    }
}

fn hex_digit_value(c: char) -> (r: u8)
    requires
        is_hex_digit(c),
    ensures
        r == hex_value(c),
{
    if '0' <= c && c <= '9' {
        (c as u32 - '0' as u32) as u8
    } else if 'a' <= c && c <= 'f' {
        (c as u32 - 'a' as u32 + 10) as u8
    } else {
        (c as u32 - 'A' as u32 + 10) as u8
    }
}

/// The red, green, blue and (if given) alpha components of a hex colour
/// string, or `None` when it is not one.
pub fn hex_color_components(s: &str) -> (r: Option<(u8, u8, u8, Option<u8>)>)
    ensures
        r == hex_color_of(s@),
{
    let chars = chars_of(s);
    let mut start: usize = 0;
    while start < chars.len() && chars[start] == '#'
        invariant
            start <= chars@.len(),
            forall|j: int| 0 <= j < start ==> chars@[j] == '#',
        decreases chars@.len() - start,
    {
        start = start + 1;
    }
    proof {
        lemma_without_leading_hashes(chars@, start as int);
    }
    let ghost t = chars@.skip(start as int);
    assert(without_leading_hashes(t) == t);
    let n = chars.len() - start;
    assert(chars@ == s@);
    if n != 6 && n != 8 {
        return None;
    }
    let mut k: usize = 0;
    while k < n
        invariant
            k <= n,
            n == t.len(),
            t == chars@.skip(start as int),
            start + n == chars@.len(),
            chars@.len() <= usize::MAX,
            chars@ == s@,
            without_leading_hashes(s@) == t,
            forall|j: int| 0 <= j < k ==> is_hex_digit(#[trigger] t[j]),
        decreases n - k,
    {
        if !('0' <= chars[start + k] && chars[start + k] <= '9') && !('a' <= chars[start + k]
            && chars[start + k] <= 'f') && !('A' <= chars[start + k] && chars[start + k] <= 'F') {
            assert(!is_hex_digit(t[k as int]));
            return None;
        }
        k = k + 1;
    }
    let mut bytes: Vec<u8> = Vec::new();
    let mut b: usize = 0;
    while b < n / 2
        invariant
            n == 6 || n == 8,
            n == t.len(),
            t == chars@.skip(start as int),
            start + n == chars@.len(),
            chars@.len() <= usize::MAX,
            forall|j: int| 0 <= j < n ==> is_hex_digit(#[trigger] t[j]),
            b <= n / 2,
            bytes@.len() == b,
            forall|j: int| 0 <= j < b ==> bytes@[j] == hex_byte(t, 2 * j),
        decreases n / 2 - b,
    {
        assert(t[2 * b as int] == chars@[start + 2 * b]);
        assert(t[2 * b + 1] == chars@[start + 2 * b + 1]);
        let hi = hex_digit_value(chars[start + 2 * b]);
        let lo = hex_digit_value(chars[start + 2 * b + 1]);
        bytes.push(hi * 16 + lo);
        b = b + 1;
    }
    let alpha = if n == 8 {
        Some(bytes[3])
    } else {
        None
    };
    Some((bytes[0], bytes[1], bytes[2], alpha))
}

/// Reads a hex colour string (`"#RRGGBB"` or `"#RRGGBBAA"`, the `#`s
/// optional) as a colour; `None` when it is not one. Eight digits give a
/// colour with separate (unmultiplied) alpha.
pub fn parse_hex_color(s: &str) -> (r: Option<egui::Color32>)
    ensures
        r == (match hex_color_of(s@) {
            Some((red, green, blue, None)) => Some(rgb_color(red, green, blue)),
            Some((red, green, blue, Some(alpha))) => Some(rgba_unmultiplied_color(red, green, blue, alpha)),
            None => None::<egui::Color32>,
        }),
{
    match hex_color_components(s) {
        Some((red, green, blue, None)) => Some(color_from_rgb(red, green, blue)),
        Some((red, green, blue, Some(alpha))) => Some(color_from_rgba_unmultiplied(red, green, blue, alpha)),
        None => None,
    }
}

} // verus!
