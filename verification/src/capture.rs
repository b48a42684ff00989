//! The stack of output-capture frames.
//!
//! Each frame says where printed output goes: into a capture buffer
//! (`Some`) or to standard output (`None`). The top frame decides; with no
//! frame at all, output goes to standard output. Pushing a frame before
//! running a script and popping it afterwards keeps the stack balanced.

use vstd::prelude::*;

verus! {

/// A stack of capture frames, the top one last.
pub struct CaptureStack<T> {
    frames: Vec<Option<T>>,
}

/// The frames after pushing `capture` onto `s`.
pub open spec fn pushed<T>(s: Seq<Option<T>>, capture: Option<T>) -> Seq<Option<T>> {
    s.push(capture)
}

/// The frames after popping the top of `s` (nothing happens when it is
/// empty).
pub open spec fn popped<T>(s: Seq<Option<T>>) -> Seq<Option<T>> {
    if s.len() > 0 {
        s.drop_last()
    } else {
        s
    }
}

/// The frames after replacing all of `s` by `capture`: one frame holding
/// the buffer, or none when there is no buffer.
pub open spec fn configured<T>(capture: Option<T>) -> Seq<Option<T>> {
    match capture {
        Some(c) => seq![Some(c)],
        None => seq![],
    }
}

/// Where output goes under the frames `s`: the top frame's buffer, or
/// `None` (standard output) when the top frame has none or there is no
/// frame.
pub open spec fn current_capture<T>(s: Seq<Option<T>>) -> Option<T> {
    if s.len() > 0 {
        s.last()
    } else {
        None
    }
}

impl<T> CaptureStack<T> {
    /// The frames, bottom first.
    pub closed spec fn frames(&self) -> Seq<Option<T>> {
        self.frames@
    }

    /// An empty stack: output goes to standard output.
    pub fn new() -> (r: Self)
        ensures
            r.frames() == Seq::<Option<T>>::empty(),
    {
        CaptureStack { frames: Vec::new() }
    }

    /// Pushes a frame.
    pub fn push(&mut self, capture: Option<T>)
        ensures
            final(self).frames() == pushed(old(self).frames(), capture),
    {
        self.frames.push(capture);
    }

    /// Pops the top frame, if there is one.
    pub fn pop(&mut self)
        ensures
            final(self).frames() == popped(old(self).frames()),
    {
        if self.frames.len() > 0 {
            let _ = self.frames.pop();
        }
    }

    /// Clears the stack, then pushes the buffer as its only frame if there
    /// is one.
    pub fn configure(&mut self, capture: Option<T>)
        ensures
            final(self).frames() == configured(capture),
    {
        self.frames.clear();
        if let Some(c) = capture {
            self.frames.push(Some(c));
        }
    }

    /// The buffer that output goes to, or `None` for standard output.
    pub fn current(&self) -> (r: Option<&T>)
        ensures
            r == match current_capture(self.frames()) {
                Some(c) => Some(&c),
                None => None::<&T>,
            },
    {
        let n = self.frames.len();
        if n == 0 {
            return None;
        }
        match &self.frames[n - 1] {
            Some(c) => Some(c),
            None => None,
        }
    }

    /// The number of frames.
    pub fn depth(&self) -> (r: usize)
        ensures
            r == self.frames().len(),
    {
        self.frames.len()
    }
}

/// Popping undoes pushing: a frame pushed and then popped leaves the
/// stack as it was.
pub proof fn lemma_pop_undoes_push<T>(s: Seq<Option<T>>, capture: Option<T>)
    ensures
        popped(pushed(s, capture)) == s,
{
    assert(s.push(capture).drop_last() =~= s);
}

/// Output goes where the frame pushed last says: into its buffer, or to
/// standard output for a frame without one.
pub proof fn lemma_current_is_top<T>(s: Seq<Option<T>>, capture: Option<T>)
    ensures
        current_capture(pushed(s, capture)) == capture,
{
}

/// After configuring, output goes to the buffer given, or to standard
/// output when none was given.
pub proof fn lemma_configured_current<T>(capture: Option<T>)
    ensures
        current_capture(configured(capture)) == capture,
{
}

} // verus!
