//! Other programs to open: what they are asked to do.

use vstd::prelude::*;

use crate::model::config::TerminalApp;
use crate::path;
use crate::path::FsPath;
use crate::text;
use crate::text::replace_char;

verus! {

/// A text as it stands between quotation marks in a script: backslashes and quotation marks are
/// escaped.
pub open spec fn quoted(s: Seq<char>) -> Seq<char> {
    text::replaced(text::replaced(s, '\\', "\\\\"@), '"', "\\\""@)
}

/// The script that moves a path to the trash.
pub fn trash_script(path: &FsPath) -> (r: String)
    ensures
        r@ == "tell application \"Finder\" to delete POSIX file \""@ + quoted(
            text::lossy_text(path@),
        ) + "\""@,
{
    let plain = path.to_text();
    let escaped = replace_char(
        replace_char(plain.as_str(), '\\', "\\\\").as_str(),
        '"',
        "\\\"",
    );
    let mut out = "tell application \"Finder\" to delete POSIX file \"".to_owned();
    out.push_str(escaped.as_str());
    out.push_str("\"");
    out
}

/// What is reported of moving a path to the trash.
pub fn trash_result(success: bool) -> (r: Result<(), String>)
    ensures
        match r {
            Ok(()) => success,
            Err(e) => !success && e@ == "Finder could not move the item to Trash"@,
        },
{
    if success {
        Ok(())
    } else {
        Err("Finder could not move the item to Trash".to_owned())
    }
}

/// The script that shows what is known of a path.
pub fn info_script(path: &FsPath) -> (r: String)
    ensures
        r@ == "tell application \"Finder\" to open information window of (POSIX file \""@
            + text::lossy_text(path@) + "\" as alias)"@,
{
    let mut out =
        "tell application \"Finder\" to open information window of (POSIX file \"".to_owned();
    out.push_str(path.to_text().as_str());
    out.push_str("\" as alias)");
    out
}

/// The directory to open in a terminal: the path itself, or the directory that it is in where it
/// is none.
pub open spec fn terminal_place(p: Seq<u8>, is_dir: bool) -> Seq<u8> {
    if is_dir {
        p
    } else {
        match path::parent_of(p) {
            Some(q) => q,
            None => p,
        }
    }
}

/// The directory to open in a terminal.
pub fn terminal_dir(path: &FsPath, is_dir: bool) -> (r: FsPath)
    ensures
        r@ == terminal_place(path@, is_dir),
{
    if is_dir {
        return path.clone();
    }
    match path.parent() {
        Some(q) => q,
        None => path.clone(),
    }
}

/// The terminals to try, in their order: the chosen one, and where none is chosen iTerm2, Warp
/// and the one that is always there.
pub open spec fn terminals_to_try(terminal: TerminalApp) -> Seq<TerminalApp> {
    match terminal {
        TerminalApp::Auto => seq![
            TerminalApp::ITerm2,
            TerminalApp::Warp,
            TerminalApp::Terminal,
        ],
        other => seq![other],
    }
}

/// The terminals to try, in their order.
pub fn open_in_terminal(terminal: TerminalApp) -> (r: Vec<TerminalApp>)
    ensures
        r@ == terminals_to_try(terminal),
{
    let mut out: Vec<TerminalApp> = Vec::new();
    match terminal {
        TerminalApp::Auto => {
            out.push(TerminalApp::ITerm2);
            out.push(TerminalApp::Warp);
            out.push(TerminalApp::Terminal);
        },
        other => {
            out.push(other);
        },
    }
    assert(out@ =~= terminals_to_try(terminal));
    out
}

/// The terminal to try once `tried` of them have been tried: none once the last of these has
/// started, or when there is none left.
pub open spec fn terminal_after(terminal: TerminalApp, tried: int, started: bool) -> Option<
    TerminalApp,
> {
    if started || tried >= terminals_to_try(terminal).len() {
        None
    } else {
        Some(terminals_to_try(terminal)[tried])
    }
}

/// The terminal to try next.
pub fn next_terminal(terminal: TerminalApp, tried: usize, started: bool) -> (r: Option<TerminalApp>)
    ensures
        r == terminal_after(terminal, tried as int, started),
{
    let all = open_in_terminal(terminal);
    if started || tried >= all.len() {
        None
    } else {
        Some(all[tried])
    }
}

/// The command that goes to a directory, for a shell.
pub open spec fn go_to(dir: Seq<u8>) -> Seq<char> {
    "cd '"@ + text::lossy_text(dir) + "'"@
}

/// The command that goes to a directory, for a shell.
pub fn cd_command(dir: &FsPath) -> (r: String)
    ensures
        r@ == go_to(dir@),
{
    let mut out = "cd '".to_owned();
    out.push_str(dir.to_text().as_str());
    out.push_str("'");
    out
}

/// Whatever terminal is chosen, one is tried, and none twice.
pub proof fn some_terminal_is_tried(terminal: TerminalApp)
    ensures
        terminals_to_try(terminal).len() > 0,
        terminals_to_try(terminal).no_duplicates(),
        terminals_to_try(terminal).last() == if terminal == TerminalApp::Auto {
            TerminalApp::Terminal
        } else {
            terminal
        },
{
}

/// Without a choice iTerm2 is tried first, Warp only if that has not started, and Terminal only if
/// that has not either; nothing is tried once one has started.
pub proof fn terminals_are_tried_until_one_starts(tried: int)
    requires
        0 <= tried,
    ensures
        terminal_after(TerminalApp::Auto, 0, false) == Some(TerminalApp::ITerm2),
        terminal_after(TerminalApp::Auto, 1, false) == Some(TerminalApp::Warp),
        terminal_after(TerminalApp::Auto, 2, false) == Some(TerminalApp::Terminal),
        tried >= 3 ==> terminal_after(TerminalApp::Auto, tried, false) is None,
        forall|terminal: TerminalApp| #[trigger] terminal_after(terminal, tried, true) is None,
{
}

/// A text is put between double quotes so that it is read as it is: a backslash and a double quote in
/// it each get a backslash before them, and every other character stays.
pub proof fn quoted_text_has_its_quotes_escaped(a: Seq<char>, b: Seq<char>, c: char)
    requires
        c != '\\',
        c != '"',
    ensures
        quoted(a + b) == quoted(a) + quoted(b),
        quoted(seq!['"']) == seq!['\\', '"'],
        quoted(seq!['\\']) == seq!['\\', '\\'],
        quoted(seq![c]) == seq![c],
{
    let slash = '\\';
    let quote = '"';
    let two = "\\\\"@;
    let esc = "\\\""@;
    reveal_strlit("\\\\");
    reveal_strlit("\\\"");
    assert(two =~= seq![slash, slash]);
    assert(esc =~= seq![slash, quote]);
    text::replacing_goes_through_the_text(a, b, slash, two, quote);
    text::replacing_goes_through_the_text(
        text::replaced(a, slash, two),
        text::replaced(b, slash, two),
        quote,
        esc,
        slash,
    );
    text::replacing_goes_through_the_text(a, b, slash, two, c);
    text::replacing_goes_through_the_text(seq![slash], seq![slash], quote, esc, slash);
    text::replacing_goes_through_the_text(a, b, quote, esc, c);
    assert(seq![slash] + seq![slash] =~= seq![slash, slash]);
}

/// A terminal is opened in a directory itself, and for anything else in the directory that holds it.
pub proof fn terminal_opens_in_the_directory(base: Seq<u8>, name: Seq<u8>)
    requires
        name.len() > 0,
        !name.contains(path::SLASH),
        name != path::here_component(),
    ensures
        terminal_place(path::joined(base, name), true) == path::joined(base, name),
        path::same_path(terminal_place(path::joined(base, name), false), base),
        terminal_place(seq![path::SLASH], false) == seq![path::SLASH],
{
    path::parent_undoes_joining(base, name);
    path::root_has_no_name();
}

/// A terminal that was chosen is the only one that is tried. Without a choice iTerm2 is tried before
/// Warp and that before the terminal of the system.
pub proof fn chosen_terminal_is_tried_alone(terminal: TerminalApp)
    ensures
        terminal != TerminalApp::Auto ==> terminal_after(terminal, 0, false) == Some(terminal)
            && terminal_after(terminal, 1, false) is None,
        terminal_after(TerminalApp::Auto, 0, false) == Some(TerminalApp::ITerm2),
        terminal_after(TerminalApp::Auto, 1, false) == Some(TerminalApp::Warp),
        terminal_after(TerminalApp::Auto, 2, false) == Some(TerminalApp::Terminal),
        terminal_after(TerminalApp::Auto, 3, false) is None,
        forall|tried: int| #[trigger] terminal_after(terminal, tried, true) is None,
{
}

/// A shell goes to a directory by its name between single quotes.
pub proof fn shell_goes_to_the_directory(dir: Seq<u8>)
    ensures
        go_to(dir) == "cd '"@ + text::lossy_text(dir) + "'"@,
{
}

} // verus!
