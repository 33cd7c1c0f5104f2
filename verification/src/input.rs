//! Keyboard and input method events as plain values.

use vstd::prelude::*;

verus! {

/// A key of the keyboard.
#[derive(Clone, Copy, Debug, PartialEq, Eq, Structural)]
pub enum Key {
    /// A letter, by its capital.
    Letter(char),
    /// A digit of the top row.
    Digit(u8),
    /// A function key, by its number.
    Function(u8),
    Enter,
    Backspace,
    Tab,
    Escape,
    Space,
    ArrowUp,
    ArrowDown,
    ArrowLeft,
    ArrowRight,
    Home,
    End,
    PageUp,
    PageDown,
    Delete,
    Insert,
    OpenBracket,
    CloseBracket,
    OpenCurlyBracket,
    CloseCurlyBracket,
    Backslash,
    Comma,
    Period,
    Backtick,
    Other,
}

/// The modifier keys that are held down.
#[derive(Clone, Copy, Debug, PartialEq, Eq, Structural)]
pub struct Modifiers {
    pub alt: bool,
    pub ctrl: bool,
    pub shift: bool,
    pub command: bool,
}

/// What an input method does.
#[derive(Debug)]
pub enum ImeEvent {
    Enabled,
    Preedit(String),
    Commit(String),
    Disabled,
}

/// What happened.
#[derive(Debug)]
pub enum EventKind {
    Ime(ImeEvent),
    Text(String),
    Copy,
    Cut,
    Paste(String),
    Key {
        key: Key,
        physical_key: Option<Key>,
        pressed: bool,
        repeat: bool,
        modifiers: Modifiers,
    },
    Other,
}

/// An event and its place in the queue of the frame.
#[derive(Debug)]
pub struct InputEvent {
    pub place: usize,
    pub kind: EventKind,
}

/// Keeps the events that are flagged.
pub(crate) fn keep_flagged(
    events: &mut Vec<InputEvent>,
    keep: &Vec<bool>,
    Ghost(wanted): Ghost<spec_fn(InputEvent) -> bool>,
)
    requires
        keep@.len() == old(events)@.len(),
        forall|i: int| 0 <= i < keep@.len() ==> keep@[i] == wanted(#[trigger] old(events)@[i]),
    ensures
        final(events)@ == old(events)@.filter(wanted),
{
    let ghost all = events@;
    let mut rest: Vec<InputEvent> = Vec::new();
    std::mem::swap(events, &mut rest);
    let mut i: usize = 0;
    let n: usize = keep.len();
    proof {
        reveal(Seq::filter);
        assert(all.take(0).filter(wanted) =~= Seq::empty());
        assert(rest@ =~= all.skip(0));
    }
    while i < n
        invariant
            i <= n,
            n == keep@.len() == all.len(),
            rest@ == all.skip(i as int),
            forall|k: int| 0 <= k < keep@.len() ==> keep@[k] == wanted(#[trigger] all[k]),
            events@ == all.take(i as int).filter(wanted),
        decreases n - i,
    {
        let e = rest.remove(0);
        assert(e == all[i as int]);
        assert(rest@ =~= all.skip(i + 1));
        proof {
            reveal(Seq::filter);
            assert(all.take(i + 1).drop_last() =~= all.take(i as int));
        }
        if keep[i] {
            events.push(e);
        }
        i += 1;
    }
    assert(all.take(i as int) =~= all);
}

} // verus!
