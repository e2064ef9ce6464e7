//! The shared, growable text store: appended to by the capture worker,
//! read line-wise or whole by the command loop.

use crate::text::lines_of;
use crate::text::spec_lines;
use vstd::prelude::*;

verus! {

/// Append-only text store.  Its view is the current content as a
/// character sequence; [`LogBuffer::appends`] is the history of chunks it
/// has received, oldest first.
pub struct LogBuffer {
    content: String,
    history: Ghost<Seq<Seq<char>>>,
}

impl View for LogBuffer {
    type V = Seq<char>;

    closed spec fn view(&self) -> Seq<char> {
        self.content@
    }
}

impl LogBuffer {
    /// The chunks appended so far, oldest first.
    pub closed spec fn appends(&self) -> Seq<Seq<char>> {
        self.history@
    }

    #[verifier::type_invariant]
    spec fn wf(&self) -> bool {
        self.content@ == self.history@.flatten()
    }

    /// The empty buffer, before any capture.
    pub fn new() -> (b: LogBuffer)
        ensures
            b@ == Seq::<char>::empty(),
            b.appends() == Seq::<Seq<char>>::empty(),
    {
        LogBuffer { content: String::new(), history: Ghost(Seq::empty()) }
    }

    /// Grow the tail by one chunk; existing content is untouched.
    pub fn append(&mut self, chunk: &str)
        ensures
            final(self)@ == old(self)@ + chunk@,
            final(self).appends() == old(self).appends().push(chunk@),
    {
        proof {
            use_type_invariant(&*self);
        }
        let mut taken = LogBuffer::new();
        core::mem::swap(self, &mut taken);
        let LogBuffer { content: mut text, history } = taken;
        text.append(chunk);
        proof {
            history@.lemma_flatten_push(chunk@);
        }
        *self = LogBuffer { content: text, history: Ghost(history@.push(chunk@)) };
    }

    /// The content split into lines at newline characters, as of this call.
    ///
    /// The second clause is the no-torn-read law: what a reader gets is
    /// the newline-split of the concatenation of the chunks appended so
    /// far, whole chunks only, never part of one.
    pub fn lines(&self) -> (r: Vec<String>)
        ensures
            r.deep_view() == spec_lines(self@),
            r.deep_view() == spec_lines(self.appends().flatten()),
    {
        proof {
            use_type_invariant(&*self);
        }
        lines_of(self.content.as_str())
    }

    /// The full content at this moment, for saving.
    ///
    /// The second clause states that the snapshot is exactly the
    /// concatenation of the chunks appended so far, in order.
    pub fn snapshot(&self) -> (r: String)
        ensures
            r@ == self@,
            r@ == self.appends().flatten(),
    {
        proof {
            use_type_invariant(&*self);
        }
        self.content.clone()
    }
}

} // verus!
