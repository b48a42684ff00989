//! The list and string operations of the scripts' builtins: clamped
//! ranges (`substring`, `slice`) and removal of repeated values (`unique`).

use vstd::prelude::*;
use crate::lexer::push_char;
use crate::token::chars_of;

verus! {

broadcast use vstd::std_specs::hash::group_hash_axioms;

/// The part `[start, end)` of a sequence, with `end` cut down to its length
/// and nothing at all where `start` is not before that.
pub open spec fn clamped<T>(s: Seq<T>, start: nat, end: nat) -> Seq<T> {
    let e = if end < s.len() { end } else { s.len() };
    if start < e {
        s.subrange(start as int, e as int)
    } else {
        seq![]
    }
}

/// The characters `[start, end)` of `s` (`substring`): `end` is cut down
/// to the length, and a start at or past the end gives the empty string.
pub fn substring(s: &str, start: usize, end: usize) -> (r: String)
    ensures
        r@ == clamped(s@, start as nat, end as nat),
{
    let chars = chars_of(s);
    let e = if end < chars.len() { end } else { chars.len() };
    let mut out = String::new();
    if start < e {
        let mut i = start;
        while i < e
            invariant
                start <= i <= e <= chars@.len(),
                out@ == chars@.subrange(start as int, i as int),
            decreases e - i,
        {
            push_char(&mut out, chars[i]);
            i = i + 1;
            assert(out@ =~= chars@.subrange(start as int, i as int));
        }
    } else {
        assert(out@ =~= seq![]);
    }
    out
}

/// The items `[start, end)` of `items` (`slice`), clamped as
/// [`substring`] clamps.
pub fn slice_clamped<T: Copy>(items: &[T], start: usize, end: usize) -> (r: Vec<T>)
    ensures
        r@ == clamped(items@, start as nat, end as nat),
{
    let e = if end < items.len() { end } else { items.len() };
    let mut out: Vec<T> = Vec::new();
    if start < e {
        let mut i = start;
        while i < e
            invariant
                start <= i <= e <= items@.len(),
                out@ == items@.subrange(start as int, i as int),
            decreases e - i,
        {
            out.push(items[i]);
            i = i + 1;
            assert(out@ =~= items@.subrange(start as int, i as int));
        }
    } else {
        assert(out@ =~= seq![]);
    }
    out
}

/// `s` with every value after its first occurrence removed.
pub open spec fn first_occurrences(s: Seq<u64>) -> Seq<u64>
    decreases s.len(),
{
    if s.len() == 0 {
        seq![]
    } else {
        let prev = first_occurrences(s.drop_last());
        if prev.contains(s.last()) {
            prev
        } else {
            prev.push(s.last())
        }
    }
}

/// A value stays exactly when it occurs.
pub proof fn lemma_first_occurrences_contains(s: Seq<u64>, x: u64)
    ensures
        first_occurrences(s).contains(x) <==> s.contains(x),
    decreases s.len(),
{
    if s.len() > 0 {
        lemma_first_occurrences_contains(s.drop_last(), x);
        let prev = first_occurrences(s.drop_last());
        if s.contains(x) && x != s.last() {
            let i = choose|i: int| 0 <= i < s.len() && s[i] == x;
            assert(s.drop_last()[i] == x);
        }
        if s.drop_last().contains(x) {
            let i = choose|i: int| 0 <= i < s.len() - 1 && s.drop_last()[i] == x;
            assert(s[i] == x);
        }
        if !prev.contains(s.last()) {
            assert(prev.push(s.last())[prev.len() as int] == s.last());
            if prev.push(s.last()).contains(x) && x != s.last() {
                let i = choose|i: int| 0 <= i < prev.len() + 1 && prev.push(s.last())[i] == x;
                assert(prev[i] == x);
            }
            if prev.contains(x) {
                let i = choose|i: int| 0 <= i < prev.len() && prev[i] == x;
                assert(prev.push(s.last())[i] == x);
            }
        }
    }
}

/// No value occurs twice in what is left.
pub proof fn lemma_first_occurrences_distinct(s: Seq<u64>)
    ensures
        first_occurrences(s).no_duplicates(),
    decreases s.len(),
{
    if s.len() > 0 {
        lemma_first_occurrences_distinct(s.drop_last());
    }
}

/// The values of `keys` without repeats, in the order of their first
/// occurrence (`unique`, on values told apart by their 64-bit encoding).
pub fn unique_keys(keys: &[u64]) -> (r: Vec<u64>)
    ensures
        r@ == first_occurrences(keys@),
{
    let mut seen: std::collections::HashSet<u64> = std::collections::HashSet::new();
    let mut out: Vec<u64> = Vec::new();
    let mut i: usize = 0;
    while i < keys.len()
        invariant
            i <= keys@.len(),
            out@ == first_occurrences(keys@.take(i as int)),
            forall|x: u64| seen@.contains(x) <==> out@.contains(x),
        decreases keys@.len() - i,
    {
        let k = keys[i];
        assert(keys@.take(i + 1).drop_last() =~= keys@.take(i as int));
        assert(keys@.take(i + 1).last() == k);
        let ghost old_out = out@;
        let ghost old_seen = seen@;
        if seen.insert(k) {
            out.push(k);
            assert forall|x: u64| seen@.contains(x) <==> out@.contains(x) by {
                if x != k {
                    if out@.contains(x) {
                        let j = choose|j: int| 0 <= j < out@.len() && out@[j] == x;
                        assert(old_out[j] == x);
                    }
                    if old_out.contains(x) {
                        let j = choose|j: int| 0 <= j < old_out.len() && old_out[j] == x;
                        assert(out@[j] == x);
                    }
                } else {
                    assert(out@[out@.len() - 1] == k);
                }
            }
        } else {
            assert(seen@ =~= old_seen);
        }
        i = i + 1;
    }
    assert(keys@.take(i as int) =~= keys@);
    out
}

} // verus!
