//! Keyboard shortcuts.

use vstd::prelude::*;

use crate::browser::pane::TabCycleDirection;
use crate::input::{keep_flagged, EventKind, InputEvent, Key, Modifiers};

verus! {

/// Whether keys go to the file list: not while a text field or the terminal has the focus.
pub fn file_list_owns_keyboard_commands(
    wants_keyboard_input: bool,
    terminal_grid_has_focus: bool,
) -> (r: bool)
    ensures
        r == (!wants_keyboard_input && !terminal_grid_has_focus),
{
    !wants_keyboard_input && !terminal_grid_has_focus
}

/// Whether a key stands for the bracket that opens, or its physical key is that one.
pub open spec fn is_opening(key: Key, physical_key: Option<Key>) -> bool {
    key == Key::OpenCurlyBracket || key == Key::OpenBracket || physical_key == Some(
        Key::OpenBracket,
    )
}

/// Whether a key stands for the bracket that closes, or its physical key is that one.
pub open spec fn is_closing(key: Key, physical_key: Option<Key>) -> bool {
    key == Key::CloseCurlyBracket || key == Key::CloseBracket || physical_key == Some(
        Key::CloseBracket,
    )
}

/// Which way an event cycles the tabs, where it does, and whether it is a repetition.
pub open spec fn cycle_of(e: InputEvent) -> Option<(TabCycleDirection, bool)> {
    match e.kind {
        EventKind::Key { key, physical_key, pressed, repeat, modifiers } => if pressed
            && modifiers.command && modifiers.shift && !modifiers.alt {
            if is_opening(key, physical_key) {
                Some((TabCycleDirection::Previous, repeat))
            } else if is_closing(key, physical_key) {
                Some((TabCycleDirection::Next, repeat))
            } else {
                None
            }
        } else {
            None
        },
        _ => None,
    }
}

/// Whether a key is one of two, or the physical key a third.
fn is_key(key: Key, physical_key: Option<Key>, a: Key, b: Key, physical: Key) -> (r: bool)
    ensures
        r == (key == a || key == b || physical_key == Some(physical)),
{
    if key == a || key == b {
        return true;
    }
    match physical_key {
        Some(k) => k == physical,
        None => false,
    }
}

/// Which way an event cycles the tabs, where it does, and whether it is a repetition.
pub fn tab_cycle_key_event(event: &InputEvent) -> (r: Option<(TabCycleDirection, bool)>)
    ensures
        r == cycle_of(*event),
{
    match &event.kind {
        EventKind::Key { key, physical_key, pressed, repeat, modifiers } => {
            if !*pressed || !modifiers.command || !modifiers.shift || modifiers.alt {
                return None;
            }
            if is_key(
                *key,
                *physical_key,
                Key::OpenCurlyBracket,
                Key::OpenBracket,
                Key::OpenBracket,
            ) {
                Some((TabCycleDirection::Previous, *repeat))
            } else if is_key(
                *key,
                *physical_key,
                Key::CloseCurlyBracket,
                Key::CloseBracket,
                Key::CloseBracket,
            ) {
                Some((TabCycleDirection::Next, *repeat))
            } else {
                None
            }
        },
        _ => None,
    }
}

/// Not cycling the tabs.
pub open spec fn cycles_nothing() -> spec_fn(InputEvent) -> bool {
    |e: InputEvent| cycle_of(e) is None
}

/// Which way the first event cycles the tabs that does and is no repetition.
pub open spec fn first_cycle(events: Seq<InputEvent>, i: int) -> Option<TabCycleDirection>
    decreases events.len() - i,
{
    if i < 0 || i >= events.len() {
        None
    } else {
        match cycle_of(events[i]) {
            Some((direction, false)) => Some(direction),
            _ => first_cycle(events, i + 1),
        }
    }
}

/// Takes the events that cycle the tabs, so that no text field and no terminal sees them.
/// Repetitions are taken too, and cycle nothing.
pub fn take_tab_cycle_shortcut(events: &mut Vec<InputEvent>) -> (r: Option<TabCycleDirection>)
    ensures
        r == first_cycle(old(events)@, 0),
        final(events)@ == old(events)@.filter(cycles_nothing()),
{
    let ghost all = events@;
    let mut keep: Vec<bool> = Vec::new();
    let mut shortcut: Option<TabCycleDirection> = None;
    let mut i: usize = 0;
    while i < events.len()
        invariant
            i <= events@.len(),
            all == events@,
            keep@.len() == i,
            forall|k: int| 0 <= k < i ==> keep@[k] == (cycle_of(#[trigger] all[k]) is None),
            first_cycle(all, 0) == (match shortcut {
                Some(d) => Some(d),
                None => first_cycle(all, i as int),
            }),
        decreases events@.len() - i,
    {
        match tab_cycle_key_event(&events[i]) {
            Some((direction, repeat)) => {
                if !repeat && shortcut.is_none() {
                    shortcut = Some(direction);
                }
                keep.push(false);
            },
            None => keep.push(true),
        }
        i += 1;
    }
    proof {
        let wanted = cycles_nothing();
        assert forall|k: int| 0 <= k < keep@.len() implies keep@[k] == wanted(
            #[trigger] events@[k],
        ) by {
            assert(events@[k] == all[k]);
        }
    }
    keep_flagged(events, &keep, Ghost(cycles_nothing()));
    shortcut
}

/// Whether a key has been pressed.
pub open spec fn pressed(events: Seq<InputEvent>, k: Key) -> bool {
    exists|i: int| 0 <= i < events.len() && is_press(#[trigger] events[i], k)
}

/// Whether an event is the press of a key.
pub open spec fn is_press(e: InputEvent, k: Key) -> bool {
    match e.kind {
        EventKind::Key { key, physical_key, pressed, repeat, modifiers } => key == k && pressed,
        _ => false,
    }
}

/// Whether a key has been pressed.
pub fn key_pressed(events: &Vec<InputEvent>, k: Key) -> (r: bool)
    ensures
        r == pressed(events@, k),
{
    let mut i: usize = 0;
    while i < events.len()
        invariant
            i <= events@.len(),
            forall|j: int| 0 <= j < i ==> !is_press(#[trigger] events@[j], k),
        decreases events@.len() - i,
    {
        let hit = match &events[i].kind {
            EventKind::Key { key, physical_key: _, pressed, repeat: _, modifiers: _ } => *key == k
                && *pressed,
            _ => false,
        };
        if hit {
            return true;
        }
        i += 1;
    }
    false
}

/// Whether an event asks to paste: the request itself, or the key with the command key.
pub open spec fn asks_to_paste(e: InputEvent) -> bool {
    match e.kind {
        EventKind::Paste(_) => true,
        EventKind::Key { key, physical_key, pressed, repeat, modifiers } => key == Key::Letter('V')
            && pressed && modifiers.command,
        _ => false,
    }
}

/// Whether some event satisfies a condition.
pub open spec fn some_event(events: Seq<InputEvent>, f: spec_fn(InputEvent) -> bool) -> bool {
    exists|i: int| 0 <= i < events.len() && f(#[trigger] events[i])
}

/// The number of the highest digit key from 1 to `n` that has been pressed, and 0 where none has.
pub open spec fn highest_digit(events: Seq<InputEvent>, n: int) -> int
    decreases n,
{
    if n <= 0 {
        0
    } else if pressed(events, Key::Digit(n as u8)) {
        n
    } else {
        highest_digit(events, n - 1)
    }
}

/// What the keys ask for.
#[derive(Clone, Copy, Debug, PartialEq, Eq, Structural)]
pub struct Shortcuts {
    pub new_tab: bool,
    pub close_tab: bool,
    pub close_right: bool,
    pub new_window: bool,
    pub go_back: bool,
    pub reload: bool,
    pub toggle_hidden: bool,
    pub switch_focus: bool,
    /// The place of a tab to show.
    pub switch_tab: Option<usize>,
    pub open_search: bool,
    pub toggle_git: bool,
    pub toggle_terminal: bool,
    pub open_prefs: bool,
    pub copy_file: bool,
    pub cut_file: bool,
    pub paste_file: bool,
    pub delete_file: bool,
}

/// Being a request to copy.
pub open spec fn is_copy() -> spec_fn(InputEvent) -> bool {
    |e: InputEvent| e.kind is Copy
}

/// Being a request to cut.
pub open spec fn is_cut() -> spec_fn(InputEvent) -> bool {
    |e: InputEvent| e.kind is Cut
}

/// Being a request to paste.
pub open spec fn is_paste() -> spec_fn(InputEvent) -> bool {
    |e: InputEvent| asks_to_paste(e)
}

/// What the keys ask for. `in_list` says whether keys go to the file list.
pub open spec fn shortcuts_of(events: Seq<InputEvent>, m: Modifiers, in_list: bool) -> Shortcuts {
    Shortcuts {
        new_tab: m.command && pressed(events, Key::Letter('T')),
        close_tab: m.command && pressed(events, Key::Letter('W')),
        close_right: m.command && pressed(events, Key::Backslash),
        new_window: m.command && pressed(events, Key::Letter('N')),
        go_back: in_list && pressed(events, Key::Backspace) && !m.command,
        reload: m.command && pressed(events, Key::Letter('R')),
        toggle_hidden: m.command && m.shift && pressed(events, Key::Period),
        switch_focus: m.command && pressed(events, Key::Backtick),
        switch_tab: if m.command && highest_digit(events, 9) > 0 {
            Some((highest_digit(events, 9) - 1) as usize)
        } else {
            None
        },
        open_search: m.command && pressed(events, Key::Letter('F')),
        toggle_git: m.command && pressed(events, Key::Letter('G')),
        toggle_terminal: m.command && pressed(events, Key::Letter('J')),
        open_prefs: m.command && pressed(events, Key::Comma),
        copy_file: in_list && some_event(events, is_copy()),
        cut_file: in_list && some_event(events, is_cut()),
        paste_file: in_list && some_event(events, is_paste()),
        delete_file: in_list && pressed(events, Key::Backspace) && m.command,
    }
}

/// Requests to copy, to cut and to paste among the events.
fn clipboard_requests(events: &Vec<InputEvent>) -> (r: (bool, bool, bool))
    ensures
        r.0 == some_event(events@, is_copy()),
        r.1 == some_event(events@, is_cut()),
        r.2 == some_event(events@, is_paste()),
{
    let mut copy = false;
    let mut cut = false;
    let mut paste = false;
    let ghost c = is_copy();
    let ghost x = is_cut();
    let ghost v = is_paste();
    let mut i: usize = 0;
    while i < events.len()
        invariant
            i <= events@.len(),
            c == is_copy(),
            x == is_cut(),
            v == is_paste(),
            copy == exists|k: int| 0 <= k < i && c(#[trigger] events@[k]),
            cut == exists|k: int| 0 <= k < i && x(#[trigger] events@[k]),
            paste == exists|k: int| 0 <= k < i && v(#[trigger] events@[k]),
        decreases events@.len() - i,
    {
        assert(c(events@[i as int]) == (events@[i as int].kind is Copy));
        assert(x(events@[i as int]) == (events@[i as int].kind is Cut));
        assert(v(events@[i as int]) == asks_to_paste(events@[i as int]));
        match &events[i].kind {
            EventKind::Copy => {
                copy = true;
            },
            EventKind::Cut => {
                cut = true;
            },
            EventKind::Paste(_) => {
                paste = true;
            },
            EventKind::Key { key, physical_key: _, pressed, repeat: _, modifiers } => {
                if *key == Key::Letter('V') && *pressed && modifiers.command {
                    paste = true;
                }
            },
            _ => {},
        }
        i += 1;
    }
    (copy, cut, paste)
}

/// The number of the highest digit key that has been pressed, and 0 where none has.
fn pressed_digit(events: &Vec<InputEvent>) -> (r: u8)
    ensures
        r == highest_digit(events@, 9),
{
    let mut n: u8 = 9;
    while n > 0
        invariant
            n <= 9,
            highest_digit(events@, 9) == highest_digit(events@, n as int),
        decreases n,
    {
        if key_pressed(events, Key::Digit(n)) {
            return n;
        }
        n = n - 1;
    }
    0
}

/// What the keys ask for.
pub fn read_shortcuts(events: &Vec<InputEvent>, modifiers: Modifiers, in_list: bool) -> (r: Shortcuts)
    ensures
        r == shortcuts_of(events@, modifiers, in_list),
{
    let command = modifiers.command;
    let (copy, cut, paste) = clipboard_requests(events);
    let digit = pressed_digit(events);
    let backspace = in_list && key_pressed(events, Key::Backspace);
    Shortcuts {
        new_tab: command && key_pressed(events, Key::Letter('T')),
        close_tab: command && key_pressed(events, Key::Letter('W')),
        close_right: command && key_pressed(events, Key::Backslash),
        new_window: command && key_pressed(events, Key::Letter('N')),
        go_back: backspace && !command,
        reload: command && key_pressed(events, Key::Letter('R')),
        toggle_hidden: command && modifiers.shift && key_pressed(events, Key::Period),
        switch_focus: command && key_pressed(events, Key::Backtick),
        switch_tab: if command && digit > 0 {
            Some((digit - 1) as usize)
        } else {
            None
        },
        open_search: command && key_pressed(events, Key::Letter('F')),
        toggle_git: command && key_pressed(events, Key::Letter('G')),
        toggle_terminal: command && key_pressed(events, Key::Letter('J')),
        open_prefs: command && key_pressed(events, Key::Comma),
        copy_file: in_list && copy,
        cut_file: in_list && cut,
        paste_file: in_list && paste,
        delete_file: backspace && command,
    }
}

/// While a text field or the terminal has the focus, no key touches the files.
pub proof fn typing_does_not_touch_files(events: Seq<InputEvent>, m: Modifiers)
    ensures
        ({
            let s = shortcuts_of(events, m, false);
            !s.copy_file && !s.cut_file && !s.paste_file && !s.delete_file && !s.go_back
        }),
{
}

/// No event that cycles the tabs is left for anything else.
pub proof fn cycle_keys_are_all_taken(events: Seq<InputEvent>, i: int)
    requires
        0 <= i < events.filter(cycles_nothing()).len(),
    ensures
        cycle_of(events.filter(cycles_nothing())[i]) is None,
{
    events.lemma_filter_pred(cycles_nothing(), i);
}

/// Each shortcut is its own key with the command key held; showing hidden files needs shift as well.
/// A digit shows the tab of that number, the highest where there are several.
pub proof fn shortcuts_are_keys_with_command(
    events: Seq<InputEvent>,
    m: Modifiers,
    in_list: bool,
    i: int,
    key: Key,
)
    requires
        0 <= i < events.len(),
        events[i].kind matches EventKind::Key { key: k, physical_key, pressed: p, repeat, modifiers }
            && k == key && p,
        m.command,
    ensures
        ({
            let s = shortcuts_of(events, m, in_list);
            &&& key == Key::Letter('T') ==> s.new_tab
            &&& key == Key::Letter('W') ==> s.close_tab
            &&& key == Key::Backslash ==> s.close_right
            &&& key == Key::Letter('N') ==> s.new_window
            &&& key == Key::Letter('R') ==> s.reload
            &&& key == Key::Period && m.shift ==> s.toggle_hidden
            &&& key == Key::Backtick ==> s.switch_focus
            &&& key == Key::Letter('F') ==> s.open_search
            &&& key == Key::Letter('G') ==> s.toggle_git
            &&& key == Key::Letter('J') ==> s.toggle_terminal
            &&& key == Key::Comma ==> s.open_prefs
            &&& key == Key::Backspace && in_list ==> s.delete_file
            &&& !s.go_back
            &&& !m.shift ==> !s.toggle_hidden
        }),
        match key {
            Key::Digit(d) => 1 <= d <= 9 ==> shortcuts_of(events, m, in_list).switch_tab is Some
                && shortcuts_of(events, m, in_list).switch_tab->0 >= d - 1,
            _ => true,
        },
{
    assert(is_press(events[i], key));
    assert(pressed(events, key));
    match key {
        Key::Digit(d) => {
            if 1 <= d <= 9 {
                lemma_highest_digit(events, 9, d as int);
            }
        },
        _ => {},
    }
}

proof fn lemma_highest_digit(events: Seq<InputEvent>, n: int, d: int)
    requires
        0 <= n <= 9,
    ensures
        0 <= highest_digit(events, n) <= n,
        1 <= d <= n && pressed(events, Key::Digit(d as u8)) ==> highest_digit(events, n) >= d,
        highest_digit(events, n) > 0 ==> pressed(events, Key::Digit(highest_digit(events, n) as u8)),
    decreases n,
{
    if n > 0 && !pressed(events, Key::Digit(n as u8)) {
        lemma_highest_digit(events, n - 1, d);
    }
}

/// A shortcut needs its key: where no event is a press of it, it is not asked for, and without the
/// command key none is, but going back with the backspace.
pub proof fn no_shortcut_without_its_key(events: Seq<InputEvent>, m: Modifiers, in_list: bool)
    ensures
        ({
            let s = shortcuts_of(events, m, in_list);
            &&& s.new_tab ==> m.command && pressed(events, Key::Letter('T'))
            &&& s.close_tab ==> m.command && pressed(events, Key::Letter('W'))
            &&& s.close_right ==> m.command && pressed(events, Key::Backslash)
            &&& s.new_window ==> m.command && pressed(events, Key::Letter('N'))
            &&& s.reload ==> m.command && pressed(events, Key::Letter('R'))
            &&& s.toggle_hidden ==> m.command && m.shift && pressed(events, Key::Period)
            &&& s.switch_focus ==> m.command && pressed(events, Key::Backtick)
            &&& s.open_search ==> m.command && pressed(events, Key::Letter('F'))
            &&& s.toggle_git ==> m.command && pressed(events, Key::Letter('G'))
            &&& s.toggle_terminal ==> m.command && pressed(events, Key::Letter('J'))
            &&& s.open_prefs ==> m.command && pressed(events, Key::Comma)
            &&& s.delete_file ==> m.command && in_list && pressed(events, Key::Backspace)
            &&& s.go_back <==> !m.command && in_list && pressed(events, Key::Backspace)
            &&& s.switch_tab is Some ==> m.command && s.switch_tab->0 < 9 && pressed(
                events,
                Key::Digit((s.switch_tab->0 + 1) as u8),
            )
        }),
{
    lemma_highest_digit(events, 9, 0);
}

/// Files are copied, cut and pasted where the system or, for pasting, the key asks for it, and only
/// while the list is in use.
pub proof fn clipboard_events_reach_the_list(events: Seq<InputEvent>, m: Modifiers, i: int)
    requires
        0 <= i < events.len(),
    ensures
        events[i].kind is Copy ==> shortcuts_of(events, m, true).copy_file,
        events[i].kind is Cut ==> shortcuts_of(events, m, true).cut_file,
        events[i].kind is Paste ==> shortcuts_of(events, m, true).paste_file,
        (events[i].kind matches EventKind::Key { key, physical_key, pressed: p, repeat, modifiers }
            && key == Key::Letter('V') && p && modifiers.command) ==> shortcuts_of(
            events,
            m,
            true,
        ).paste_file,
        (forall|k: int| 0 <= k < events.len() ==> !((#[trigger] events[k]).kind is Copy))
            ==> !shortcuts_of(events, m, true).copy_file,
        (forall|k: int| 0 <= k < events.len() ==> !((#[trigger] events[k]).kind is Cut))
            ==> !shortcuts_of(events, m, true).cut_file,
{
    assert(is_copy()(events[i]) == (events[i].kind is Copy));
    assert(is_cut()(events[i]) == (events[i].kind is Cut));
    assert(is_paste()(events[i]) == asks_to_paste(events[i]));
}

/// The tabs are cycled by the brackets with command and shift, the opening one to the tab before and
/// the closing one to the next, also by where the key is. The first press decides; a key that is held
/// does not count.
pub proof fn brackets_cycle_the_tabs(e: InputEvent, events: Seq<InputEvent>)
    ensures
        match e.kind {
            EventKind::Key { key, physical_key, pressed: p, repeat, modifiers } => {
                let held = p && modifiers.command && modifiers.shift && !modifiers.alt;
                let opening = key == Key::OpenBracket || key == Key::OpenCurlyBracket
                    || physical_key == Some(Key::OpenBracket);
                let closing = key == Key::CloseBracket || key == Key::CloseCurlyBracket
                    || physical_key == Some(Key::CloseBracket);
                &&& !held || !(opening || closing) ==> first_cycle(seq![e], 0) is None
                &&& held && !repeat && opening ==> first_cycle(seq![e], 0) == Some(
                    TabCycleDirection::Previous,
                )
                &&& held && !repeat && closing && !opening ==> first_cycle(seq![e], 0) == Some(
                    TabCycleDirection::Next,
                )
                &&& repeat ==> first_cycle(seq![e], 0) is None
            },
            _ => first_cycle(seq![e], 0) is None,
        },
        first_cycle(seq![e], 0) is Some ==> first_cycle(seq![e] + events, 0) == first_cycle(
            seq![e],
            0,
        ),
        first_cycle(seq![e], 0) is None ==> first_cycle(seq![e] + events, 0) == first_cycle(
            events,
            0,
        ),
{
    reveal_with_fuel(first_cycle, 2);
    let all = seq![e] + events;
    assert(all[0] == e);
    lemma_cycle_shift(seq![e], events, 0);
}

proof fn lemma_cycle_shift(front: Seq<InputEvent>, events: Seq<InputEvent>, i: int)
    requires
        0 <= i <= events.len(),
    ensures
        first_cycle(front + events, front.len() + i) == first_cycle(events, i),
    decreases events.len() - i,
{
    if i < events.len() {
        assert((front + events)[front.len() + i] == events[i]);
        lemma_cycle_shift(front, events, i + 1);
    }
}

} // verus!
