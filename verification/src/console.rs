//! The buffer that collects a formatted diagnostic before it goes out as one
//! control frame. What does not fit is cut off: the front of a message is
//! worth more than its end.

use vstd::prelude::*;
use vstd::string::StringSliceAdditionalSpecFns;

verus! {

/// How many bytes one diagnostic frame carries.
pub const DIAGNOSTIC_CAPACITY: usize = 256;

/// The text collected so far, and whether anything was cut off.
pub struct DiagnosticView {
    pub text: Seq<u8>,
    pub overflowed: bool,
}

/// The text that appending `fragment` to `text` keeps: all of it while it
/// fits, else its first `DIAGNOSTIC_CAPACITY` bytes.
pub open spec fn appended(text: Seq<u8>, fragment: Seq<u8>) -> Seq<u8> {
    let whole = text + fragment;
    if whole.len() > DIAGNOSTIC_CAPACITY {
        whole.take(DIAGNOSTIC_CAPACITY as int)
    } else {
        whole
    }
}

/// The text kept after writing each of `fragments` in turn, from `text`.
pub open spec fn appended_all(text: Seq<u8>, fragments: Seq<Seq<u8>>) -> Seq<u8>
    decreases fragments.len(),
{
    if fragments.len() == 0 {
        text
    } else {
        appended(appended_all(text, fragments.drop_last()), fragments.last())
    }
}

/// All of `fragments` one after the other.
pub open spec fn concat(fragments: Seq<Seq<u8>>) -> Seq<u8>
    decreases fragments.len(),
{
    if fragments.len() == 0 {
        Seq::empty()
    } else {
        concat(fragments.drop_last()) + fragments.last()
    }
}

/// A fixed buffer for one diagnostic.
pub struct DiagnosticBuffer {
    bytes: [u8; 256],
    len: usize,
    overflowed: bool,
}

impl DiagnosticBuffer {
    pub closed spec fn view(&self) -> DiagnosticView {
        DiagnosticView {
            text: self.bytes@.subrange(0, self.len as int),
            overflowed: self.overflowed,
        }
    }

    pub closed spec fn wf(&self) -> bool {
        self.len <= DIAGNOSTIC_CAPACITY
    }

    /// An empty buffer.
    pub fn new() -> (r: Self)
        ensures
            r.wf(),
            r.view().text == Seq::<u8>::empty(),
            !r.view().overflowed,
    {
        let r = DiagnosticBuffer {
            bytes: vstd::array::array_fill_for_copy_types(0u8),
            len: 0,
            overflowed: false,
        };
        assert(r.view().text =~= Seq::<u8>::empty());
        r
    }

    /// The text collected so far.
    pub fn text(&self) -> (r: &[u8])
        requires
            self.wf(),
        ensures
            r@ == self.view().text,
    {
        vstd::slice::slice_subrange(self.bytes.as_slice(), 0, self.len)
    }

    /// Appends `fragment`; what does not fit is cut off, the buffer is marked
    /// as overflowed and the write fails.
    pub fn write_str(&mut self, fragment: &str) -> (r: Result<(), ()>)
        requires
            old(self).wf(),
        ensures
            final(self).wf(),
            final(self).view().text == appended(old(self).view().text, fragment.spec_bytes()),
            r is Ok <==> old(self).view().text.len() + fragment.spec_bytes().len()
                <= DIAGNOSTIC_CAPACITY,
            final(self).view().overflowed == (old(self).view().overflowed || r is Err),
    {
        let source = fragment.as_bytes();
        let room = DIAGNOSTIC_CAPACITY - self.len;
        let fits = source.len() <= room;
        let count = if fits { source.len() } else { room };
        let ghost before = self.view().text;
        let start = self.len;
        let mut i: usize = 0;
        while i < count
            invariant
                start == old(self).len,
                start <= DIAGNOSTIC_CAPACITY,
                count <= DIAGNOSTIC_CAPACITY - start,
                count <= source@.len(),
                i <= count,
                self.len == start,
                self.overflowed == old(self).overflowed,
                before == old(self).bytes@.subrange(0, start as int),
                forall|j: int| 0 <= j < start ==> #[trigger] self.bytes@[j] == old(self).bytes@[j],
                forall|j: int| 0 <= j < i ==> #[trigger] self.bytes@[start + j] == source@[j],
            decreases count - i,
        {
            self.bytes[start + i] = source[i];
            i = i + 1;
        }
        self.len = start + count;
        proof {
            let whole = before + source@;
            assert(self.view().text =~= appended(before, source@)) by {
                assert forall|j: int| 0 <= j < self.len implies #[trigger] self.bytes@[j] == whole[j] by {
                    if j >= start {
                        assert(self.bytes@[start + (j - start)] == source@[j - start]);
                    }
                }
            }
        }
        if fits {
            Ok(())
        } else {
            self.overflowed = true;
            Err(())
        }
    }
}

/// A diagnostic keeps the front of what was written to it: after any run of
/// writes into an empty buffer, the text is the concatenation of the
/// fragments, cut to the buffer's capacity.
pub proof fn lemma_keeps_the_front(fragments: Seq<Seq<u8>>)
    ensures
        appended_all(Seq::empty(), fragments) == (if concat(fragments).len()
            > DIAGNOSTIC_CAPACITY {
            concat(fragments).take(DIAGNOSTIC_CAPACITY as int)
        } else {
            concat(fragments)
        }),
    decreases fragments.len(),
{
    if fragments.len() > 0 {
        let prefix = fragments.drop_last();
        let last = fragments.last();
        lemma_keeps_the_front(prefix);
        let whole = concat(prefix);
        let kept = appended_all(Seq::empty(), prefix);
        if whole.len() > DIAGNOSTIC_CAPACITY {
            assert((kept + last).take(DIAGNOSTIC_CAPACITY as int) =~= (whole + last).take(
                DIAGNOSTIC_CAPACITY as int,
            ));
        } else {
            assert(kept == whole);
        }
    } else {
        assert(concat(fragments) =~= Seq::<u8>::empty());
    }
}

} // verus!
