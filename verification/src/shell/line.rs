//! The shell's input line: printable ASCII only, with a sticky overflow mark.

use vstd::prelude::*;
use vstd::string::StringSliceAdditionalSpecFns;
use crate::text::{lemma_ascii_valid_utf8, str_from_utf8};

verus! {

#[derive(Debug, Clone, Copy, PartialEq, Eq, Structural)]
pub enum LineError {
    Full,
    NonPrintable,
}

/// Printable ASCII, space through tilde.
pub open spec fn printable(b: u8) -> bool {
    0x20 <= b <= 0x7e
}

/// A line being typed: its text so far, and whether input was lost to a full
/// buffer since the last `clear`.
pub struct LineView {
    pub text: Seq<u8>,
    pub overflowed: bool,
}

/// What `push` of `byte` does to a line of capacity `cap`: printable ASCII
/// joins it while it fits and nothing was lost; once full, the byte is lost
/// and the line is marked overflowed; anything else is refused.
pub open spec fn push_outcome(v: LineView, cap: nat, byte: u8) -> (Result<(), LineError>, LineView) {
    if !printable(byte) {
        (Err(LineError::NonPrintable), v)
    } else if v.overflowed || v.text.len() >= cap {
        (Err(LineError::Full), LineView { text: v.text, overflowed: true })
    } else {
        (Ok(()), LineView { text: v.text.push(byte), overflowed: false })
    }
}

/// What `backspace` does: the last byte goes, the overflow mark stays.
pub open spec fn backspace_view(v: LineView) -> LineView {
    if v.text.len() == 0 {
        v
    } else {
        LineView { text: v.text.drop_last(), overflowed: v.overflowed }
    }
}

pub struct LineBuffer<const N: usize> {
    bytes: [u8; N],
    len: usize,
    overflowed: bool,
}

impl<const N: usize> LineBuffer<N> {
    pub closed spec fn view(&self) -> LineView {
        LineView { text: self.bytes@.subrange(0, self.len as int), overflowed: self.overflowed }
    }

    /// The text fits the buffer and holds printable ASCII only.
    pub closed spec fn wf(&self) -> bool {
        &&& self.len <= N
        &&& forall|i: int| 0 <= i < self.len ==> printable(#[trigger] self.bytes@[i])
    }

    pub fn new() -> (r: Self)
        ensures
            r.wf(),
            r.view().text == Seq::<u8>::empty(),
            !r.view().overflowed,
    {
        let r = LineBuffer { bytes: vstd::array::array_fill_for_copy_types(0u8), len: 0, overflowed: false };
        assert(r.view().text =~= Seq::<u8>::empty());
        r
    }

    /// Appends `byte`. Refuses what is not printable ASCII, leaving the line
    /// as it was; refuses any byte once the buffer has been full, and marks
    /// the line as overflowed.
    pub fn push(&mut self, byte: u8) -> (r: Result<(), LineError>)
        requires
            old(self).wf(),
        ensures
            final(self).wf(),
            (r, final(self).view()) == push_outcome(old(self).view(), N as nat, byte),
            !printable(byte) ==> r == Err::<(), LineError>(LineError::NonPrintable) && final(self).view()
                == old(self).view(),
            printable(byte) && (old(self).view().overflowed || old(self).view().text.len() == N)
                ==> r == Err::<(), LineError>(LineError::Full) && final(self).view() == (LineView {
                text: old(self).view().text,
                overflowed: true,
            }),
            printable(byte) && !old(self).view().overflowed && old(self).view().text.len() < N
                ==> r is Ok && final(self).view() == (LineView {
                text: old(self).view().text.push(byte),
                overflowed: false,
            }),
    {
        if byte < 0x20 || byte > 0x7e {
            return Err(LineError::NonPrintable);
        }
        if self.overflowed || self.len == N {
            self.overflowed = true;
            return Err(LineError::Full);
        }
        let ghost before = self.view().text;
        self.bytes[self.len] = byte;
        self.len = self.len + 1;
        assert(self.view().text =~= before.push(byte));
        Ok(())
    }

    /// Removes and returns the last byte, if any; the overflow mark stays.
    pub fn backspace(&mut self) -> (r: Option<u8>)
        requires
            old(self).wf(),
        ensures
            final(self).wf(),
            final(self).view() == backspace_view(old(self).view()),
            final(self).view().overflowed == old(self).view().overflowed,
            old(self).view().text.len() == 0 ==> r is None && final(self).view() == old(self).view(),
            old(self).view().text.len() > 0 ==> r == Some(old(self).view().text.last())
                && final(self).view().text == old(self).view().text.drop_last(),
    {
        if self.len == 0 {
            return None;
        }
        let ghost before = self.view().text;
        self.len = self.len - 1;
        assert(self.view().text =~= before.drop_last());
        Some(self.bytes[self.len])
    }

    /// The text typed so far.
    pub fn as_str(&self) -> (r: &str)
        requires
            self.wf(),
        ensures
            r.spec_bytes() == self.view().text,
    {
        let typed = vstd::slice::slice_subrange(self.bytes.as_slice(), 0, self.len);
        proof {
            assert(typed@ =~= self.view().text);
            lemma_ascii_valid_utf8(typed@);
        }
        str_from_utf8(typed).unwrap()
    }

    /// The submitted line, unless input was lost to a full buffer.
    pub fn finish(&self) -> (r: Result<&str, LineError>)
        requires
            self.wf(),
        ensures
            self.view().overflowed ==> r == Err::<&str, LineError>(LineError::Full),
            !self.view().overflowed ==> (r matches Ok(s) && s.spec_bytes() == self.view().text),
    {
        if self.overflowed {
            Err(LineError::Full)
        } else {
            Ok(self.as_str())
        }
    }

    /// Empties the line and drops the overflow mark.
    pub fn clear(&mut self)
        requires
            old(self).wf(),
        ensures
            final(self).wf(),
            final(self).view().text == Seq::<u8>::empty(),
            !final(self).view().overflowed,
    {
        self.len = 0;
        self.overflowed = false;
        assert(self.view().text =~= Seq::<u8>::empty());
    }
}

impl<const N: usize> Default for LineBuffer<N> {
    fn default() -> (r: Self)
        ensures
            r.wf(),
            r.view().text == Seq::<u8>::empty(),
            !r.view().overflowed,
    {
        Self::new()
    }
}

/// What the shell does with one key.
#[derive(Debug, Clone, Copy, PartialEq, Eq, Structural)]
pub enum KeyAction {
    /// The line is complete: run it.
    Submit,
    /// A byte was erased: rub it out on the terminal.
    Erase,
    /// The byte joined the line: echo it.
    Echo(u8),
    /// Nothing to show.
    Ignore,
}

pub const BACKSPACE: u8 = 0x08;

pub const DELETE: u8 = 0x7f;

pub const CARRIAGE_RETURN: u8 = 0x0d;

pub const LINE_FEED: u8 = 0x0a;

/// What one key does to a line of capacity `cap` and what to show for it:
/// a carriage return or a line feed submits the line, backspace and delete
/// erase its last byte, printable ASCII joins it when it fits (else the line
/// is marked overflowed), anything else is ignored.
pub open spec fn key_outcome(before: LineView, cap: nat, byte: u8) -> (KeyAction, LineView) {
    if byte == CARRIAGE_RETURN || byte == LINE_FEED {
        (KeyAction::Submit, before)
    } else if byte == BACKSPACE || byte == DELETE {
        if before.text.len() == 0 {
            (KeyAction::Ignore, before)
        } else {
            (KeyAction::Erase, LineView { text: before.text.drop_last(), overflowed: before.overflowed })
        }
    } else if printable(byte) {
        if !before.overflowed && before.text.len() < cap {
            (KeyAction::Echo(byte), LineView { text: before.text.push(byte), overflowed: false })
        } else {
            (KeyAction::Ignore, LineView { text: before.text, overflowed: true })
        }
    } else {
        (KeyAction::Ignore, before)
    }
}

/// Applies one key to `line` and says what to show for it.
pub fn on_key<const N: usize>(line: &mut LineBuffer<N>, byte: u8) -> (r: KeyAction)
    requires
        old(line).wf(),
    ensures
        final(line).wf(),
        (r, final(line).view()) == key_outcome(old(line).view(), N as nat, byte),
{
    if byte == CARRIAGE_RETURN || byte == LINE_FEED {
        KeyAction::Submit
    } else if byte == BACKSPACE || byte == DELETE {
        match line.backspace() {
            Some(_) => KeyAction::Erase,
            None => KeyAction::Ignore,
        }
    } else if 0x20 <= byte && byte <= 0x7e {
        match line.push(byte) {
            Ok(()) => KeyAction::Echo(byte),
            Err(_) => KeyAction::Ignore,
        }
    } else {
        KeyAction::Ignore
    }
}

/// [`on_key`] for a terminal that ends lines with a carriage return and a
/// line feed: a line feed right after a carriage return is dropped, as the
/// carriage return already submitted the line. `after_cr` records whether the
/// previous key was a carriage return.
pub fn on_key_crlf<const N: usize>(line: &mut LineBuffer<N>, byte: u8, after_cr: &mut bool) -> (r:
    KeyAction)
    requires
        old(line).wf(),
    ensures
        final(line).wf(),
        *final(after_cr) == (byte == CARRIAGE_RETURN),
        *old(after_cr) && byte == LINE_FEED ==> r == KeyAction::Ignore && final(line).view() == old(
            line,
        ).view(),
        !(*old(after_cr) && byte == LINE_FEED) ==> (r, final(line).view()) == key_outcome(
            old(line).view(),
            N as nat,
            byte,
        ),
{
    let suppress = *after_cr;
    *after_cr = false;
    if suppress && byte == LINE_FEED {
        return KeyAction::Ignore;
    }
    let action = on_key(line, byte);
    if byte == CARRIAGE_RETURN {
        *after_cr = true;
    }
    action
}

/// Erasing right after typing a byte gives back the line as it was.
pub proof fn lemma_type_then_erase(before: LineView, cap: nat, byte: u8)
    requires
        printable(byte),
        !before.overflowed,
        before.text.len() < cap,
    ensures
        key_outcome(key_outcome(before, cap, byte).1, cap, BACKSPACE) == (KeyAction::Erase, before),
{
    assert(before.text.push(byte).drop_last() =~= before.text);
}

/// Once input has been lost to a full buffer, no key clears the mark: only
/// `clear` does, so the submitted line stays refused.
pub proof fn lemma_overflow_is_sticky(before: LineView, cap: nat, byte: u8)
    requires
        before.overflowed,
    ensures
        key_outcome(before, cap, byte).1.overflowed,
{
}

/// One edit of a line: `push` of a byte, or `backspace`.
pub enum LineEdit {
    Push(u8),
    Backspace,
}

pub open spec fn edit_view(v: LineView, cap: nat, e: LineEdit) -> LineView {
    match e {
        LineEdit::Push(byte) => push_outcome(v, cap, byte).1,
        LineEdit::Backspace => backspace_view(v),
    }
}

/// The line after the edits `es`, in order.
pub open spec fn edits_view(v: LineView, cap: nat, es: Seq<LineEdit>) -> LineView
    decreases es.len(),
{
    if es.len() == 0 {
        v
    } else {
        edit_view(edits_view(v, cap, es.drop_last()), cap, es.last())
    }
}

/// The edit `e` is a `push` that `Full` refuses on the line `v`.
pub open spec fn refused_full(v: LineView, cap: nat, e: LineEdit) -> bool {
    e matches LineEdit::Push(byte) && push_outcome(v, cap, byte).0 == Err::<(), LineError>(
        LineError::Full,
    )
}

/// After any run of pushes and backspaces from a line without the overflow
/// mark (as `new` and `clear` leave it), the line is marked, and `finish`
/// reports `Full`, exactly when one of those pushes was refused with `Full`,
/// however much was erased afterwards.
pub proof fn lemma_full_iff_a_push_was_refused(v: LineView, cap: nat, es: Seq<LineEdit>)
    requires
        !v.overflowed,
    ensures
        edits_view(v, cap, es).overflowed <==> exists|i: int|
            0 <= i < es.len() && #[trigger] refused_full(edits_view(v, cap, es.take(i)), cap, es[i]),
    decreases es.len(),
{
    if es.len() == 0 {
    } else {
        let p = es.drop_last();
        let n = es.len() - 1;
        lemma_full_iff_a_push_was_refused(v, cap, p);
        assert(es.take(n) =~= p);
        assert forall|i: int| 0 <= i < n implies es.take(i) == p.take(i) && es[i] == p[i] by {
            assert(es.take(i) =~= p.take(i));
        }
        if edits_view(v, cap, p).overflowed {
            let i = choose|i: int|
                0 <= i < p.len() && #[trigger] refused_full(edits_view(v, cap, p.take(i)), cap, p[i]);
            assert(es.take(i) == p.take(i) && es[i] == p[i]);
            assert(refused_full(edits_view(v, cap, es.take(i)), cap, es[i]));
        } else {
            if refused_full(edits_view(v, cap, es.take(n)), cap, es[n]) {
            } else {
                assert forall|i: int| 0 <= i < es.len() implies !#[trigger] refused_full(
                    edits_view(v, cap, es.take(i)),
                    cap,
                    es[i],
                ) by {
                    if i < n {
                        assert(es.take(i) == p.take(i) && es[i] == p[i]);
                    }
                }
            }
        }
    }
}

} // verus!
