//! What the keyboard and the input method send to the shell.

use vstd::prelude::*;

use crate::input::{keep_flagged, EventKind, ImeEvent, InputEvent, Key};
use crate::terminal::effects;
use crate::terminal::screen;
use crate::terminal::screen::Screen;

verus! {

/// The state of the input method at the terminal.
#[derive(Debug)]
pub struct TerminalImeState {
    pub enabled: bool,
    /// The text that is being composed and has not been sent.
    pub preedit: String,
}

impl Default for TerminalImeState {
    fn default() -> (r: TerminalImeState)
        ensures
            !r.enabled,
            r.preedit@.len() == 0,
    {
        TerminalImeState { enabled: false, preedit: String::new() }
    }
}

/// The control code of a letter held with Ctrl.
pub open spec fn ctrl_code(key: Key) -> Option<u8> {
    match key {
        Key::Letter(c) => if 'A' <= c <= 'Z' {
            Some((c as u32 - 64) as u8)
        } else {
            None
        },
        _ => None,
    }
}

/// The bytes that a special key sends.
pub open spec fn key_sequence(key: Key) -> Option<Seq<u8>> {
    match key {
        Key::Enter => Some(seq![13u8]),
        Key::Backspace => Some(seq![127u8]),
        Key::Tab => Some(seq![9u8]),
        Key::Escape => Some(seq![27u8]),
        Key::ArrowUp => Some(seq![27u8, 91u8, 65u8]),
        Key::ArrowDown => Some(seq![27u8, 91u8, 66u8]),
        Key::ArrowRight => Some(seq![27u8, 91u8, 67u8]),
        Key::ArrowLeft => Some(seq![27u8, 91u8, 68u8]),
        Key::Home => Some(seq![27u8, 91u8, 72u8]),
        Key::End => Some(seq![27u8, 91u8, 70u8]),
        Key::PageUp => Some(seq![27u8, 91u8, 53u8, 126u8]),
        Key::PageDown => Some(seq![27u8, 91u8, 54u8, 126u8]),
        Key::Delete => Some(seq![27u8, 91u8, 51u8, 126u8]),
        Key::Insert => Some(seq![27u8, 91u8, 50u8, 126u8]),
        Key::Function(n) => function_sequence(n),
        _ => None,
    }
}

/// The bytes that a function key sends: the first four are short sequences, the others carry a
/// number.
pub open spec fn function_sequence(n: u8) -> Option<Seq<u8>> {
    if 1 <= n <= 4 {
        Some(seq![27u8, 79u8, (79 + n) as u8])
    } else if n == 5 {
        Some(seq![27u8, 91u8, 49u8, 53u8, 126u8])
    } else if 6 <= n <= 8 {
        Some(seq![27u8, 91u8, 49u8, (49 + n) as u8, 126u8])
    } else if 9 <= n <= 10 {
        Some(seq![27u8, 91u8, 50u8, (39 + n) as u8, 126u8])
    } else if 11 <= n <= 12 {
        Some(seq![27u8, 91u8, 50u8, (40 + n) as u8, 126u8])
    } else {
        None
    }
}

/// Whether a key moves inside the text that is being composed.
pub open spec fn moves_composition(key: Key) -> bool {
    key == Key::Backspace || key == Key::ArrowUp || key == Key::ArrowDown || key == Key::ArrowLeft
        || key == Key::ArrowRight
}

/// Whether an event belongs to a composition.
pub open spec fn is_composition(e: InputEvent) -> bool {
    match e.kind {
        EventKind::Ime(ImeEvent::Disabled) => false,
        EventKind::Ime(_) => true,
        _ => false,
    }
}

/// Whether any event belongs to a composition.
pub open spec fn has_composition(events: Seq<InputEvent>) -> bool {
    exists|i: int| 0 <= i < events.len() && is_composition(#[trigger] events[i])
}

/// Whether the input method is on, and what it is composing, after the events.
pub open spec fn ime_after(enabled: bool, preedit: Seq<char>, events: Seq<InputEvent>) -> (
    bool,
    Seq<char>,
)
    decreases events.len(),
{
    if events.len() == 0 {
        (enabled, preedit)
    } else {
        let (e, p) = ime_after(enabled, preedit, events.drop_last());
        match events.last().kind {
            EventKind::Ime(ImeEvent::Enabled) => (true, p),
            EventKind::Ime(ImeEvent::Preedit(text)) => (true, text@),
            EventKind::Ime(ImeEvent::Commit(_)) => (false, Seq::empty()),
            EventKind::Ime(ImeEvent::Disabled) => (false, Seq::empty()),
            _ => (e, p),
        }
    }
}

/// What an event commits: composed text, but for a bare line break.
pub open spec fn committed_bytes(e: InputEvent) -> Seq<u8> {
    match e.kind {
        EventKind::Ime(ImeEvent::Commit(text)) => if text@ == seq!['\n'] || text@ == seq!['\r'] {
            Seq::empty()
        } else {
            vstd::utf8::encode_utf8(text@)
        },
        _ => Seq::empty(),
    }
}

/// What all the events commit.
pub open spec fn all_committed(events: Seq<InputEvent>) -> Seq<u8>
    decreases events.len(),
{
    if events.len() == 0 {
        Seq::empty()
    } else {
        all_committed(events.drop_last()) + committed_bytes(events.last())
    }
}

/// What a key sends: a control code, or the sequence of a special key. While a composition is
/// going on its navigation keys send nothing.
pub open spec fn key_bytes(key: Key, ctrl_only: bool, composing: bool) -> Option<Seq<u8>> {
    if composing && moves_composition(key) {
        Some(Seq::empty())
    } else if ctrl_only && ctrl_code(key) is Some {
        Some(seq![ctrl_code(key)->0])
    } else {
        key_sequence(key)
    }
}

/// What an event sends besides composed text, and nothing where the event is left to others.
/// Plain text is held back while an input method is at work.
pub open spec fn sent_bytes(e: InputEvent, composing: bool, hold_text: bool) -> Option<Seq<u8>> {
    match e.kind {
        EventKind::Ime(_) => Some(Seq::empty()),
        EventKind::Text(text) => if hold_text {
            Some(Seq::empty())
        } else {
            Some(vstd::utf8::encode_utf8(text@))
        },
        EventKind::Paste(text) => Some(vstd::utf8::encode_utf8(text@)),
        EventKind::Key { key, physical_key, pressed, repeat, modifiers } => if pressed {
            key_bytes(key, modifiers.ctrl && !modifiers.command && !modifiers.alt, composing)
        } else {
            None
        },
        EventKind::Copy | EventKind::Cut | EventKind::Other => None,
    }
}

/// What all the events send besides composed text.
pub open spec fn all_sent(events: Seq<InputEvent>, composing: bool, hold_text: bool) -> Seq<u8>
    decreases events.len(),
{
    if events.len() == 0 {
        Seq::empty()
    } else {
        all_sent(events.drop_last(), composing, hold_text) + match sent_bytes(
            events.last(),
            composing,
            hold_text,
        ) {
            Some(b) => b,
            None => Seq::empty(),
        }
    }
}

/// Whether plain text is held back in a frame.
pub open spec fn holds_text(was_enabled: bool, is_enabled: bool, events: Seq<InputEvent>) -> bool {
    was_enabled || is_enabled || has_composition(events)
}

/// The control code of a letter held with Ctrl.
pub fn ctrl_seq(key: Key) -> (r: Option<u8>)
    ensures
        r == ctrl_code(key),
{
    match key {
        Key::Letter(c) => if 'A' <= c && c <= 'Z' {
            Some((c as u32 - 64) as u8)
        } else {
            None
        },
        _ => None,
    }
}

/// The bytes that a function key sends.
fn function_seq(n: u8) -> (r: Option<Vec<u8>>)
    ensures
        match r {
            Some(b) => function_sequence(n) == Some(b@),
            None => function_sequence(n) is None,
        },
{
    if 1 <= n && n <= 4 {
        Some(vec![27u8, 79u8, 79 + n])
    } else if n == 5 {
        Some(vec![27u8, 91u8, 49u8, 53u8, 126u8])
    } else if 6 <= n && n <= 8 {
        Some(vec![27u8, 91u8, 49u8, 49 + n, 126u8])
    } else if 9 <= n && n <= 10 {
        Some(vec![27u8, 91u8, 50u8, 39 + n, 126u8])
    } else if 11 <= n && n <= 12 {
        Some(vec![27u8, 91u8, 50u8, 40 + n, 126u8])
    } else {
        None
    }
}

/// The bytes that a special key sends.
pub fn special_seq(key: Key) -> (r: Option<Vec<u8>>)
    ensures
        match r {
            Some(b) => key_sequence(key) == Some(b@),
            None => key_sequence(key) is None,
        },
{
    match key {
        Key::Enter => Some(vec![13u8]),
        Key::Backspace => Some(vec![127u8]),
        Key::Tab => Some(vec![9u8]),
        Key::Escape => Some(vec![27u8]),
        Key::ArrowUp => Some(vec![27u8, 91u8, 65u8]),
        Key::ArrowDown => Some(vec![27u8, 91u8, 66u8]),
        Key::ArrowRight => Some(vec![27u8, 91u8, 67u8]),
        Key::ArrowLeft => Some(vec![27u8, 91u8, 68u8]),
        Key::Home => Some(vec![27u8, 91u8, 72u8]),
        Key::End => Some(vec![27u8, 91u8, 70u8]),
        Key::PageUp => Some(vec![27u8, 91u8, 53u8, 126u8]),
        Key::PageDown => Some(vec![27u8, 91u8, 54u8, 126u8]),
        Key::Delete => Some(vec![27u8, 91u8, 51u8, 126u8]),
        Key::Insert => Some(vec![27u8, 91u8, 50u8, 126u8]),
        Key::Function(n) => function_seq(n),
        _ => None,
    }
}

/// Whether a key moves inside the text that is being composed.
pub fn is_ime_navigation_key(key: Key) -> (r: bool)
    ensures
        r == moves_composition(key),
{
    match key {
        Key::Backspace | Key::ArrowUp | Key::ArrowDown | Key::ArrowLeft | Key::ArrowRight => true,
        _ => false,
    }
}

/// Appends the bytes of a text.
fn append_text(out: &mut Vec<u8>, text: &str)
    ensures
        final(out)@ == old(out)@ + vstd::utf8::encode_utf8(text@),
{
    let bytes = text.as_bytes();
    let ghost before = out@;
    let mut i: usize = 0;
    while i < bytes.len()
        invariant
            i <= bytes@.len(),
            out@ == before + bytes@.take(i as int),
        decreases bytes@.len() - i,
    {
        out.push(bytes[i]);
        i += 1;
        assert(out@ =~= before + bytes@.take(i as int));
    }
    assert(bytes@.take(i as int) =~= bytes@);
}

/// Whether a text is a single line break.
fn is_line_break(text: &str) -> (r: bool)
    ensures
        r == (text@ == seq!['\n'] || text@ == seq!['\r']),
{
    let chars = crate::text::chars_of(text);
    if chars.len() == 1 && (chars[0] == '\n' || chars[0] == '\r') {
        assert(text@ =~= seq!['\n'] || text@ =~= seq!['\r']);
        true
    } else {
        assert(text@ == seq!['\n'] ==> text@.len() == 1 && text@[0] == '\n');
        assert(text@ == seq!['\r'] ==> text@.len() == 1 && text@[0] == '\r');
        false
    }
}

/// Takes in what the input method does, and returns what it commits.
fn run_input_method(events: &Vec<InputEvent>, ime: &mut TerminalImeState) -> (r: Vec<u8>)
    ensures
        (final(ime).enabled, final(ime).preedit@) == ime_after(
            old(ime).enabled,
            old(ime).preedit@,
            events@,
        ),
        r@ == all_committed(events@),
{
    let mut out: Vec<u8> = Vec::new();
    let mut i: usize = 0;
    let ghost first = (ime.enabled, ime.preedit@);
    while i < events.len()
        invariant
            i <= events@.len(),
            (ime.enabled, ime.preedit@) == ime_after(first.0, first.1, events@.take(i as int)),
            out@ == all_committed(events@.take(i as int)),
        decreases events@.len() - i,
    {
        assert(events@.take(i + 1).drop_last() =~= events@.take(i as int));
        assert(events@.take(i + 1).last() == events@[i as int]);
        match &events[i].kind {
            EventKind::Ime(ImeEvent::Enabled) => {
                ime.enabled = true;
            },
            EventKind::Ime(ImeEvent::Preedit(text)) => {
                ime.enabled = true;
                ime.preedit = text.clone();
            },
            EventKind::Ime(ImeEvent::Commit(text)) => {
                if !is_line_break(text.as_str()) {
                    append_text(&mut out, text.as_str());
                }
                ime.enabled = false;
                ime.preedit = String::new();
            },
            EventKind::Ime(ImeEvent::Disabled) => {
                ime.enabled = false;
                ime.preedit = String::new();
            },
            _ => {},
        }
        i += 1;
        assert(out@ =~= all_committed(events@.take(i as int)));
    }
    assert(events@.take(i as int) =~= events@);
    out
}

/// Whether any event belongs to a composition.
fn any_composition(events: &Vec<InputEvent>) -> (r: bool)
    ensures
        r == has_composition(events@),
{
    let mut i: usize = 0;
    while i < events.len()
        invariant
            i <= events@.len(),
            forall|k: int| 0 <= k < i ==> !is_composition(#[trigger] events@[k]),
        decreases events@.len() - i,
    {
        let found = match &events[i].kind {
            EventKind::Ime(ImeEvent::Disabled) => false,
            EventKind::Ime(_) => true,
            _ => false,
        };
        if found {
            assert(is_composition(events@[i as int]));
            return true;
        }
        i += 1;
    }
    false
}

/// What an event sends besides composed text, and nothing where it is left to others.
fn event_bytes(e: &InputEvent, composing: bool, hold_text: bool) -> (r: Option<Vec<u8>>)
    ensures
        match r {
            Some(b) => sent_bytes(*e, composing, hold_text) == Some(b@),
            None => sent_bytes(*e, composing, hold_text) is None,
        },
{
    let mut out: Vec<u8> = Vec::new();
    match &e.kind {
        EventKind::Ime(_) => Some(out),
        EventKind::Text(text) => {
            if !hold_text {
                append_text(&mut out, text.as_str());
                assert(out@ =~= vstd::utf8::encode_utf8(text@));
            }
            Some(out)
        },
        EventKind::Paste(text) => {
            append_text(&mut out, text.as_str());
            assert(out@ =~= vstd::utf8::encode_utf8(text@));
            Some(out)
        },
        EventKind::Key { key, physical_key: _, pressed, repeat: _, modifiers } => {
            if !*pressed {
                return None;
            }
            if composing && is_ime_navigation_key(*key) {
                return Some(out);
            }
            if modifiers.ctrl && !modifiers.command && !modifiers.alt {
                if let Some(code) = ctrl_seq(*key) {
                    out.push(code);
                    assert(out@ =~= seq![code]);
                    return Some(out);
                }
            }
            special_seq(*key)
        },
        EventKind::Copy | EventKind::Cut | EventKind::Other => None,
    }
}

/// Takes the events that belong to the terminal out of the queue and returns the bytes that they
/// send to the shell. Composed text goes first: the keys that composed it can stand before it in
/// the same frame, and are not sent as well.
pub fn collect_terminal_input(events: &mut Vec<InputEvent>, ime: &mut TerminalImeState) -> (r: Vec<
    u8,
>)
    ensures
        (final(ime).enabled, final(ime).preedit@) == ime_after(
            old(ime).enabled,
            old(ime).preedit@,
            old(events)@,
        ),
        ({
            let hold = holds_text(old(ime).enabled, final(ime).enabled, old(events)@);
            &&& r@ == all_committed(old(events)@) + all_sent(old(events)@, old(ime).enabled, hold)
            &&& final(events)@ == old(events)@.filter(
                |e: InputEvent| sent_bytes(e, old(ime).enabled, hold) is None,
            )
        }),
{
    let was_enabled = ime.enabled;
    let composition = any_composition(events);
    let mut out = run_input_method(events, ime);
    let hold = was_enabled || ime.enabled || composition;
    let ghost committed = out@;
    let mut keep: Vec<bool> = Vec::new();
    let mut i: usize = 0;
    assert(out@ =~= committed + all_sent(events@.take(0), was_enabled, hold));
    while i < events.len()
        invariant
            i <= events@.len(),
            keep@.len() == i,
            forall|k: int|
                0 <= k < i ==> keep@[k] == (sent_bytes(#[trigger] events@[k], was_enabled, hold)
                    is None),
            out@ == committed + all_sent(events@.take(i as int), was_enabled, hold),
        decreases events@.len() - i,
    {
        assert(events@.take(i + 1).drop_last() =~= events@.take(i as int));
        assert(events@.take(i + 1).last() == events@[i as int]);
        let ghost before = out@;
        match event_bytes(&events[i], was_enabled, hold) {
            Some(mut b) => {
                out.append(&mut b);
                keep.push(false);
            },
            None => {
                keep.push(true);
            },
        }
        i += 1;
        assert(out@ =~= committed + all_sent(events@.take(i as int), was_enabled, hold));
    }
    assert(events@.take(i as int) =~= events@);
    keep_flagged(
        events,
        &keep,
        Ghost(|e: InputEvent| sent_bytes(e, was_enabled, hold) is None),
    );
    out
}

/// While a composition is going on and nothing is committed or pasted, no text reaches the shell:
/// a frame of text and composition events alone sends nothing.
pub proof fn composing_sends_no_text(events: Seq<InputEvent>, enabled: bool, preedit: Seq<char>)
    requires
        holds_text(enabled, ime_after(enabled, preedit, events).0, events),
        forall|i: int|
            0 <= i < events.len() ==> match (#[trigger] events[i]).kind {
                EventKind::Ime(ImeEvent::Commit(_)) => false,
                EventKind::Ime(_) => true,
                EventKind::Text(_) => true,
                _ => false,
            },
    ensures
        all_committed(events) + all_sent(
            events,
            enabled,
            holds_text(enabled, ime_after(enabled, preedit, events).0, events),
        ) == Seq::<u8>::empty(),
{
    lemma_text_only(events, enabled);
}

proof fn lemma_text_only(events: Seq<InputEvent>, enabled: bool)
    requires
        forall|i: int|
            0 <= i < events.len() ==> match (#[trigger] events[i]).kind {
                EventKind::Ime(ImeEvent::Commit(_)) => false,
                EventKind::Ime(_) => true,
                EventKind::Text(_) => true,
                _ => false,
            },
    ensures
        all_committed(events) == Seq::<u8>::empty(),
        all_sent(events, enabled, true) == Seq::<u8>::empty(),
        all_committed(events) + all_sent(events, enabled, true) == Seq::<u8>::empty(),
    decreases events.len(),
{
    if events.len() > 0 {
        let rest = events.drop_last();
        assert forall|i: int| 0 <= i < rest.len() implies match (#[trigger] rest[i]).kind {
            EventKind::Ime(ImeEvent::Commit(_)) => false,
            EventKind::Ime(_) => true,
            EventKind::Text(_) => true,
            _ => false,
        } by {
            assert(rest[i] == events[i]);
        }
        lemma_text_only(rest, enabled);
        assert(events.last() == events[events.len() - 1]);
        assert(all_committed(events) =~= Seq::<u8>::empty());
        assert(all_sent(events, enabled, true) =~= Seq::<u8>::empty());
    }
    assert(all_committed(events) + all_sent(events, enabled, true) =~= Seq::<u8>::empty());
}

/// Outside an input method a text reaches the shell as it is.
pub proof fn plain_text_is_sent(e: InputEvent, text: String)
    requires
        e.kind == EventKind::Text(text),
    ensures
        all_committed(seq![e]) + all_sent(seq![e], false, holds_text(false, false, seq![e]))
            == vstd::utf8::encode_utf8(text@),
{
    let s = seq![e];
    assert(s.drop_last() =~= Seq::empty());
    assert(s.last() == e);
    assert(!has_composition(s)) by {
        assert(s[0] == e);
    }
    reveal_with_fuel(all_committed, 2);
    reveal_with_fuel(all_sent, 2);
    assert(all_committed(s) + all_sent(s, false, false) =~= vstd::utf8::encode_utf8(text@));
}

/// The events that are left keep their order, and none of them is text, pasted text or the input
/// method's.
pub proof fn terminal_takes_all_text(
    events: Seq<InputEvent>,
    composing: bool,
    hold: bool,
    i: int,
)
    requires
        0 <= i < events.filter(|e: InputEvent| sent_bytes(e, composing, hold) is None).len(),
    ensures
        match events.filter(|e: InputEvent| sent_bytes(e, composing, hold) is None)[i].kind {
            EventKind::Key { .. } => true,
            EventKind::Copy | EventKind::Cut | EventKind::Other => true,
            _ => false,
        },
{
    let f = |e: InputEvent| sent_bytes(e, composing, hold) is None;
    events.lemma_filter_pred(f, i);
}

/// An arrow key sends the control sequence that moves the cursor of a screen its own way.
pub proof fn arrow_keys_send_their_direction(g: Screen)
    requires
        screen::well_formed(g),
        0 < g.cursor_col < g.cols - 1,
        g.scroll_top < g.cursor_row < g.scroll_bottom,
    ensures
        forall|key: Key|
            #![trigger key_sequence(key)]
            key == Key::ArrowUp || key == Key::ArrowDown || key == Key::ArrowLeft || key
                == Key::ArrowRight ==> {
                let s = key_sequence(key)->0;
                &&& key_sequence(key) is Some && s.len() == 3 && s[0] == 27 && s[1] == 91
                &&& ({
                    let h = screen::dispatched(g, Seq::empty(), s[2] as char);
                    &&& key == Key::ArrowUp ==> h == (Screen { cursor_row: g.cursor_row - 1, ..g })
                    &&& key == Key::ArrowDown ==> h == (Screen { cursor_row: g.cursor_row + 1, ..g })
                    &&& key == Key::ArrowLeft ==> h == (Screen { cursor_col: g.cursor_col - 1, ..g })
                    &&& key == Key::ArrowRight ==> h == (Screen {
                        cursor_col: g.cursor_col + 1,
                        ..g
                    })
                })
            },
{
    let none = Seq::<u16>::empty();
    effects::cursor_goes_up(g, none);
    effects::cursor_goes_down(g, none, 'B');
    effects::cursor_goes_left(g, none);
    effects::cursor_goes_right(g, none, 'C');
}

/// The keys that send one character send that of their name: a carriage return, a delete, a tab and
/// an escape. The others send what terminals of the VT100 family send for them.
pub proof fn keys_send_what_terminals_send()
    ensures
        key_sequence(Key::Enter) == Some(seq![13u8]),
        key_sequence(Key::Backspace) == Some(seq![127u8]),
        key_sequence(Key::Tab) == Some(seq![9u8]),
        key_sequence(Key::Escape) == Some(seq![27u8]),
        key_sequence(Key::Home) == Some(seq![27u8, '[' as u8, 'H' as u8]),
        key_sequence(Key::End) == Some(seq![27u8, '[' as u8, 'F' as u8]),
        key_sequence(Key::Insert) == Some(seq![27u8, '[' as u8, '2' as u8, '~' as u8]),
        key_sequence(Key::Delete) == Some(seq![27u8, '[' as u8, '3' as u8, '~' as u8]),
        key_sequence(Key::PageUp) == Some(seq![27u8, '[' as u8, '5' as u8, '~' as u8]),
        key_sequence(Key::PageDown) == Some(seq![27u8, '[' as u8, '6' as u8, '~' as u8]),
        key_sequence(Key::Space) is None,
        forall|c: char| #![auto] key_sequence(Key::Letter(c)) is None,
{
}

/// The first four function keys send `P`, `Q`, `R` and `S` behind `ESC O`. The others send a number
/// between `ESC [` and `~`: 15, 17 to 21, 23 and 24 from the fifth to the twelfth. There are no more.
pub proof fn function_keys_send_what_terminals_send(n: u8)
    ensures
        1 <= n <= 4 ==> function_sequence(n) == Some(seq![27u8, 'O' as u8, ('P' as u8 + n - 1) as u8]),
        n == 5 ==> function_sequence(n) == Some(seq![27u8, '[' as u8, '1' as u8, '5' as u8, '~' as u8]),
        5 <= n <= 12 ==> {
            let s = function_sequence(n)->0;
            let number: int = (s[2] - '0' as u8) * 10 + (s[3] - '0' as u8);
            &&& function_sequence(n) is Some && s.len() == 5
            &&& s[0] == 27 && s[1] == '[' as u8 && s[4] == '~' as u8
            &&& number == if n == 5 {
                15int
            } else if n <= 10 {
                n + 11
            } else {
                n + 12
            }
        },
        n == 0 || n > 12 ==> function_sequence(n) is None,
        key_sequence(Key::Function(n)) == function_sequence(n),
{
}

/// Control with a letter sends the place of the letter in the alphabet, and with any other key what
/// the key sends by itself. While text is being composed, the keys that move in it send nothing.
pub proof fn control_sends_the_letter_number(key: Key, c: char)
    requires
        'A' <= c <= 'Z',
    ensures
        key_bytes(Key::Letter(c), true, false) == Some(seq![(c as u32 - 'A' as u32 + 1) as u8]),
        key_bytes(Key::Letter(c), false, false) is None,
        !(key is Letter) ==> key_bytes(key, true, false) == key_sequence(key),
        key_bytes(key, false, false) == key_sequence(key),
        key == Key::Backspace || key == Key::ArrowUp || key == Key::ArrowDown || key
            == Key::ArrowLeft || key == Key::ArrowRight ==> key_bytes(key, false, true) is Some
            && key_bytes(key, false, true)->0.len() == 0 && key_bytes(key, true, true) is Some
            && key_bytes(key, true, true)->0.len() == 0,
        !(key == Key::Backspace || key == Key::ArrowUp || key == Key::ArrowDown || key
            == Key::ArrowLeft || key == Key::ArrowRight) ==> key_bytes(key, false, true)
            == key_bytes(key, false, false) && key_bytes(key, true, true) == key_bytes(
            key,
            true,
            false,
        ),
{
}

/// What one event sends: typed text its bytes, unless it is held back; pasted text its bytes always;
/// a key that goes down what it stands for, and one that comes up nothing; copying and cutting
/// nothing.
pub proof fn an_event_sends_what_it_carries(e: InputEvent, composing: bool, hold_text: bool)
    ensures
        ({
            let sent = all_sent(seq![e], composing, hold_text);
            match e.kind {
                EventKind::Text(text) => {
                    &&& !hold_text ==> sent == vstd::utf8::encode_utf8(text@)
                    &&& hold_text ==> sent.len() == 0
                },
                EventKind::Paste(text) => sent == vstd::utf8::encode_utf8(text@),
                EventKind::Key { key, physical_key, pressed, repeat, modifiers } => {
                    let bytes = key_bytes(
                        key,
                        modifiers.ctrl && !modifiers.command && !modifiers.alt,
                        composing,
                    );
                    &&& pressed && bytes is Some ==> sent == bytes->0
                    &&& !pressed || bytes is None ==> sent.len() == 0
                },
                EventKind::Ime(_) => sent.len() == 0,
                EventKind::Copy => sent.len() == 0,
                EventKind::Cut => sent.len() == 0,
                EventKind::Other => sent.len() == 0,
            }
        }),
{
    reveal_with_fuel(all_sent, 2);
    assert(seq![e].drop_last() =~= Seq::<InputEvent>::empty());
    let sent = all_sent(seq![e], composing, hold_text);
    assert(sent =~= match sent_bytes(e, composing, hold_text) {
        Some(b) => b,
        None => Seq::empty(),
    });
}

/// What the events send is sent in their order, and so is what was composed.
pub proof fn events_are_sent_in_turn(
    a: Seq<InputEvent>,
    b: Seq<InputEvent>,
    composing: bool,
    hold_text: bool,
)
    ensures
        all_sent(a + b, composing, hold_text) == all_sent(a, composing, hold_text) + all_sent(
            b,
            composing,
            hold_text,
        ),
        all_committed(a + b) == all_committed(a) + all_committed(b),
    decreases b.len(),
{
    if b.len() == 0 {
        assert(a + b =~= a);
        assert(all_sent(a, composing, hold_text) + all_sent(b, composing, hold_text) =~= all_sent(
            a,
            composing,
            hold_text,
        ));
        assert(all_committed(a) + all_committed(b) =~= all_committed(a));
    } else {
        events_are_sent_in_turn(a, b.drop_last(), composing, hold_text);
        assert((a + b).drop_last() =~= a + b.drop_last());
        assert((a + b).last() == b.last());
        assert(all_sent(a + b, composing, hold_text) =~= all_sent(a, composing, hold_text)
            + all_sent(b, composing, hold_text));
        assert(all_committed(a + b) =~= all_committed(a) + all_committed(b));
    }
}

/// Composed text is sent once it is complete, but for a line end alone; nothing else counts as
/// composed.
pub proof fn composed_text_is_sent_when_complete(e: InputEvent)
    ensures
        match e.kind {
            EventKind::Ime(ImeEvent::Commit(text)) => {
                &&& text@ != seq!['\n'] && text@ != seq!['\r'] ==> all_committed(seq![e])
                    == vstd::utf8::encode_utf8(text@)
                &&& text@ == seq!['\n'] || text@ == seq!['\r'] ==> all_committed(seq![e]).len() == 0
            },
            _ => all_committed(seq![e]).len() == 0,
        },
{
    reveal_with_fuel(all_committed, 2);
    assert(seq![e].drop_last() =~= Seq::<InputEvent>::empty());
    assert(all_committed(seq![e]) =~= committed_bytes(e));
}

/// Composing goes on from the first sign of it until the text is complete or given up: the text so
/// far is the last that was reported, and nothing once it is over. Other events leave it as it is.
pub proof fn composing_goes_on_until_complete(
    enabled: bool,
    preedit: Seq<char>,
    events: Seq<InputEvent>,
    e: InputEvent,
)
    ensures
        ({
            let before = ime_after(enabled, preedit, events);
            let after = ime_after(enabled, preedit, events.push(e));
            match e.kind {
                EventKind::Ime(ImeEvent::Enabled) => after.0 && after.1 == before.1,
                EventKind::Ime(ImeEvent::Preedit(text)) => after.0 && after.1 == text@,
                EventKind::Ime(ImeEvent::Commit(_)) => !after.0 && after.1.len() == 0,
                EventKind::Ime(ImeEvent::Disabled) => !after.0 && after.1.len() == 0,
                _ => after == before,
            }
        }),
        ime_after(enabled, preedit, Seq::empty()) == (enabled, preedit),
{
    assert(events.push(e).drop_last() =~= events);
}

/// Typed text is held back where text was or is being composed, or any event is of composing.
pub proof fn text_is_held_while_composing(before: bool, now: bool, events: Seq<InputEvent>, i: int)
    requires
        0 <= i < events.len(),
    ensures
        before ==> holds_text(before, now, events),
        now ==> holds_text(before, now, events),
        (events[i].kind matches EventKind::Ime(k) && !(k is Disabled)) ==> holds_text(
            before,
            now,
            events,
        ),
        !before && !now && (forall|k: int|
            0 <= k < events.len() ==> !((#[trigger] events[k]).kind is Ime)) ==> !holds_text(
            before,
            now,
            events,
        ),
{
    if events[i].kind matches EventKind::Ime(k) && !(k is Disabled) {
        assert(is_composition(events[i]));
    }
    if forall|k: int| 0 <= k < events.len() ==> !((#[trigger] events[k]).kind is Ime) {
        assert(!has_composition(events)) by {
            if has_composition(events) {
                let k = choose|k: int| 0 <= k < events.len() && is_composition(#[trigger] events[k]);
                assert(!(events[k].kind is Ime));
            }
        }
    }
}

} // verus!
