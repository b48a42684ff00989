//! The IO sandbox: unless it is turned off, a file path with a `..`
//! component is refused, so that scripts cannot climb out of their
//! directory.

use vstd::prelude::*;
use crate::lexer::push_str;

verus! {

/// Whether `s` holds `..` somewhere.
pub open spec fn contains_dot_dot(s: Seq<char>) -> bool {
    exists|i: int| 0 <= i < s.len() - 1 && #[trigger] s[i] == '.' && s[i + 1] == '.'
}

/// Whether the `..` at index `i` of `s` is a whole segment: between `/`
/// separators, at the start or at the end.
pub open spec fn dot_dot_segment_at(s: Seq<char>, i: int) -> bool {
    &&& 0 <= i && i + 1 < s.len()
    &&& s[i] == '.' && s[i + 1] == '.'
    &&& (i == 0 || s[i - 1] == '/')
    &&& (i + 2 == s.len() || s[i + 2] == '/')
}

/// Whether `s` has a `..` segment.
pub open spec fn has_dot_dot_segment(s: Seq<char>) -> bool {
    exists|i: int| #[trigger] dot_dot_segment_at(s, i)
}

/// Whether a path splits the same way on every platform: it holds no `\`
/// and no `:` (so no Windows prefix or drive), and does not start with `//`
/// (a Windows network share).
pub open spec fn portable_path(s: Seq<char>) -> bool {
    &&& forall|i: int| 0 <= i < s.len() ==> #[trigger] s[i] != '\\' && s[i] != ':'
    &&& !(s.len() >= 2 && s[0] == '/' && s[1] == '/')
}

/// For each component of the path (`std::path::Path::components`), whether
/// it is a `..` (`Component::ParentDir`). How a path splits into components
/// depends on the platform (which characters separate them), so only what
/// holds on every platform is claimed: a `..` component is written `..`;
/// and `/` separates components everywhere, so in a path without `\`, `:`
/// or a leading `//`, a `..` segment between `/` separators, at the start or
/// at the end is a `..` component.
#[verifier::external_body]
fn parent_dir_flags(path: &str) -> (r: Vec<bool>)
    ensures
        r@.contains(true) ==> contains_dot_dot(path@),
        portable_path(path@) && has_dot_dot_segment(path@) ==> r@.contains(true),
{
    let mut flags: Vec<bool> = Vec::new();
    for c in std::path::Path::new(path).components() {
        flags.push(matches!(c, std::path::Component::ParentDir));
    }
    flags
}

/// The message of a path refused by the sandbox.
pub open spec fn refusal_message(path: Seq<char>, fn_name: Seq<char>) -> Seq<char> {
    fn_name + "(\""@ + path + "\") rejected: path traversal ('..') blocked by IO sandbox; call set_allow_unsafe_io_paths(true) to override"@
}

/// The sandbox's verdict on a path, given whether the path has a `..`
/// component: refused, with a message naming the function and the path,
/// exactly when the sandbox is on and it has one.
pub fn sandbox_verdict(path: &str, fn_name: &str, allow_unsafe: bool, has_parent_dir: bool) -> (r: Result<(), String>)
    ensures
        r is Err <==> !allow_unsafe && has_parent_dir,
        r matches Err(m) ==> m@ == refusal_message(path@, fn_name@),
{
    if allow_unsafe || !has_parent_dir {
        return Ok(());
    }
    let mut message = fn_name.to_owned();
    push_str(&mut message, "(\"");
    push_str(&mut message, path);
    push_str(&mut message, "\") rejected: path traversal ('..') blocked by IO sandbox; call set_allow_unsafe_io_paths(true) to override");
    proof {
        reveal_strlit("(\"");
        reveal_strlit("\") rejected: path traversal ('..') blocked by IO sandbox; call set_allow_unsafe_io_paths(true) to override");
    }
    assert(message@ =~= refusal_message(path@, fn_name@));
    Err(message)
}

/// Checks a path that the function `fn_name` is about to use. With the
/// sandbox off every path passes; with it on, a path with a `..` component
/// is refused. A path without `..` in it always passes; while the sandbox is
/// on, a path with a `..` segment (between `/` separators, at the start or
/// at the end) never does, wherever `/` is the only separator it holds.
pub fn check_io_path(path: &str, fn_name: &str, allow_unsafe: bool) -> (r: Result<(), String>)
    ensures
        allow_unsafe ==> r is Ok,
        !contains_dot_dot(path@) ==> r is Ok,
        !allow_unsafe && portable_path(path@) && has_dot_dot_segment(path@) ==> r is Err,
        r matches Err(m) ==> m@ == refusal_message(path@, fn_name@),
{
    if allow_unsafe {
        return Ok(());
    }
    let flags = parent_dir_flags(path);
    let mut has_parent_dir = false;
    let mut i: usize = 0;
    while i < flags.len()
        invariant
            i <= flags@.len(),
            has_parent_dir <==> flags@.take(i as int).contains(true),
        decreases flags@.len() - i,
    {
        if flags[i] {
            assert(flags@.take(i + 1)[i as int] == true);
            has_parent_dir = true;
        } else {
            proof {
                let before = flags@.take(i as int);
                let after = flags@.take(i + 1);
                if after.contains(true) {
                    let j = choose|j: int| 0 <= j < after.len() && after[j] == true;
                    assert(j < i);
                    assert(before[j] == true);
                }
                if before.contains(true) {
                    let j = choose|j: int| 0 <= j < before.len() && before[j] == true;
                    assert(after[j] == true);
                }
            }
        }
        i = i + 1;
    }
    assert(flags@.take(i as int) =~= flags@);
    sandbox_verdict(path, fn_name, allow_unsafe, has_parent_dir)
}

} // verus!
