//! The preferences: what the choices change, and what has to be done about it.

use vstd::prelude::*;

use crate::model::config::{TerminalApp, Theme};
use crate::model::themes;
use crate::model::themes::{find_theme, CustomTheme, ThemeColor, ThemeColors};
use crate::text;

verus! {

/// Whether the preferences have been changed.
#[derive(Clone, Copy, Debug, PartialEq, Eq, Structural)]
pub struct PrefsAction {
    pub config_changed: bool,
}

/// The preferences that can be chosen.
#[derive(Debug)]
pub struct Choices {
    pub theme: Theme,
    /// The id of a colour theme that is used in place of the look.
    pub custom_theme: Option<String>,
    pub show_hidden: bool,
    pub terminal: TerminalApp,
}

/// Preferences by their views.
#[verifier::ext_equal]
pub struct ChoicesView {
    pub theme: Theme,
    pub custom_theme: Option<Seq<char>>,
    pub show_hidden: bool,
    pub terminal: TerminalApp,
}

impl View for Choices {
    type V = ChoicesView;

    open spec fn view(&self) -> ChoicesView {
        ChoicesView {
            theme: self.theme,
            custom_theme: text::optional_text(self.custom_theme),
            show_hidden: self.show_hidden,
            terminal: self.terminal,
        }
    }
}

impl Choices {
    /// Chooses a look. It takes the place of a colour theme.
    pub fn choose_theme(&mut self, theme: Theme) -> (r: PrefsAction)
        ensures
            final(self)@ == (ChoicesView { theme, custom_theme: None, ..old(self)@ }),
            r.config_changed == (final(self)@ != old(self)@),
    {
        if self.theme != theme || self.custom_theme.is_some() {
            self.theme = theme;
            self.custom_theme = None;
            PrefsAction { config_changed: true }
        } else {
            PrefsAction { config_changed: false }
        }
    }

    /// Chooses a colour theme.
    pub fn choose_custom_theme(&mut self, id: &str) -> (r: PrefsAction)
        ensures
            final(self)@ == (ChoicesView { custom_theme: Some(id@), ..old(self)@ }),
            r.config_changed,
    {
        self.custom_theme = Some(id.to_owned());
        PrefsAction { config_changed: true }
    }

    /// Shows or hides hidden files.
    pub fn set_show_hidden(&mut self, show_hidden: bool) -> (r: PrefsAction)
        ensures
            final(self)@ == (ChoicesView { show_hidden, ..old(self)@ }),
            r.config_changed == (final(self)@ != old(self)@),
    {
        let changed = self.show_hidden != show_hidden;
        self.show_hidden = show_hidden;
        PrefsAction { config_changed: changed }
    }

    /// Chooses a terminal.
    pub fn choose_terminal(&mut self, terminal: TerminalApp) -> (r: PrefsAction)
        ensures
            final(self)@ == (ChoicesView { terminal, ..old(self)@ }),
            r.config_changed == (final(self)@ != old(self)@),
    {
        let changed = self.terminal != terminal;
        self.terminal = terminal;
        PrefsAction { config_changed: changed }
    }
}

/// How the window is to look.
#[derive(Clone, Copy, Debug, PartialEq, Eq, Structural)]
pub enum Look {
    /// As it does.
    Unchanged,
    Plain(Theme),
    Colors(ThemeColors),
}

/// The colours of the theme with an id, where there is one.
pub open spec fn colors_of(themes: Seq<CustomTheme>, id: Seq<char>) -> Option<ThemeColors> {
    let p = themes::theme_place(themes, id, 0);
    if p < themes.len() {
        Some(themes[p].colors)
    } else {
        None
    }
}

/// The look at the start: the colours of the chosen theme, or the plain look where none is chosen
/// or it is not there.
pub fn initial_look(choices: &Choices, themes: &Vec<CustomTheme>) -> (r: Look)
    ensures
        r == (match choices@.custom_theme {
            Some(id) => match colors_of(themes@, id) {
                Some(c) => Look::Colors(c),
                None => Look::Plain(choices@.theme),
            },
            None => Look::Plain(choices@.theme),
        }),
{
    match find_theme(themes, &choices.custom_theme) {
        Some(t) => Look::Colors(t.colors),
        None => Look::Plain(choices.theme),
    }
}

/// The look after the preferences have changed from what they were: a colour theme that is not
/// there leaves it as it is.
pub open spec fn look_after(old: ChoicesView, new: ChoicesView, themes: Seq<CustomTheme>) -> Look {
    if new.custom_theme != old.custom_theme {
        match new.custom_theme {
            Some(id) => match colors_of(themes, id) {
                Some(c) => Look::Colors(c),
                None => Look::Unchanged,
            },
            None => Look::Plain(new.theme),
        }
    } else if new.theme != old.theme {
        Look::Plain(new.theme)
    } else {
        Look::Unchanged
    }
}

/// The look after the preferences have changed from what they were.
pub fn changed_look(before: &Choices, now: &Choices, themes: &Vec<CustomTheme>) -> (r: Look)
    ensures
        r == look_after(before@, now@, themes@),
{
    let same = match (&before.custom_theme, &now.custom_theme) {
        (Some(a), Some(b)) => *a == *b,
        (None, None) => true,
        _ => false,
    };
    if !same {
        match &now.custom_theme {
            Some(_) => match find_theme(themes, &now.custom_theme) {
                Some(t) => Look::Colors(t.colors),
                None => Look::Unchanged,
            },
            None => Look::Plain(now.theme),
        }
    } else if now.theme != before.theme {
        Look::Plain(now.theme)
    } else {
        Look::Unchanged
    }
}

/// Whether colours stand on a light ground: its three parts have a mean above the middle.
pub fn is_light(background: ThemeColor) -> (r: bool)
    ensures
        r == ((background.r + background.g + background.b) / 3 > 127),
{
    let sum: u32 = background.r as u32 + background.g as u32 + background.b as u32;
    sum / 3 > 127
}

/// The label of a look.
pub fn theme_label(theme: Theme) -> (r: &'static str)
    ensures
        r@ == (match theme {
            Theme::System => "System"@,
            Theme::Light => "Light"@,
            Theme::Dark => "Dark"@,
        }),
{
    match theme {
        Theme::System => "System",
        Theme::Light => "Light",
        Theme::Dark => "Dark",
    }
}

/// The label of a terminal.
pub fn terminal_label(terminal: TerminalApp) -> (r: &'static str)
    ensures
        r@ == (match terminal {
            TerminalApp::Auto => "Auto"@,
            TerminalApp::Terminal => "Terminal.app"@,
            TerminalApp::ITerm2 => "iTerm2"@,
            TerminalApp::Warp => "Warp"@,
            TerminalApp::Ghostty => "Ghostty"@,
        }),
{
    match terminal {
        TerminalApp::Auto => "Auto",
        TerminalApp::Terminal => "Terminal.app",
        TerminalApp::ITerm2 => "iTerm2",
        TerminalApp::Warp => "Warp",
        TerminalApp::Ghostty => "Ghostty",
    }
}

/// The look changes only where a choice about it does: to the colours of a newly chosen theme where
/// there is such a theme, and to the plain look where the theme was taken away or another plain look
/// was chosen.
pub proof fn look_follows_the_choice(
    old: ChoicesView,
    new: ChoicesView,
    themes: Seq<CustomTheme>,
    i: int,
)
    ensures
        new.custom_theme == old.custom_theme && new.theme == old.theme ==> look_after(
            old,
            new,
            themes,
        ) == Look::Unchanged,
        new.custom_theme == old.custom_theme && new.theme != old.theme ==> look_after(
            old,
            new,
            themes,
        ) == Look::Plain(new.theme),
        new.custom_theme is None && old.custom_theme is Some ==> look_after(old, new, themes)
            == Look::Plain(new.theme),
        new.custom_theme is Some && new.custom_theme != old.custom_theme && 0 <= i < themes.len()
            && themes[i].id@ == new.custom_theme->0 && (forall|k: int|
            0 <= k < i ==> (#[trigger] themes[k]).id@ != new.custom_theme->0) ==> look_after(
            old,
            new,
            themes,
        ) == Look::Colors(themes[i].colors),
        new.custom_theme is Some && new.custom_theme != old.custom_theme && (forall|k: int|
            0 <= k < themes.len() ==> (#[trigger] themes[k]).id@ != new.custom_theme->0)
            ==> look_after(old, new, themes) == Look::Unchanged,
{
    if new.custom_theme is Some {
        let id = new.custom_theme->0;
        themes::first_theme_with_the_id_is_taken(themes, id, 0);
        let p = themes::theme_place(themes, id, 0);
        if 0 <= i < themes.len() && themes[i].id@ == id && (forall|k: int|
            0 <= k < i ==> (#[trigger] themes[k]).id@ != id) {
            if p < i {
                assert(themes[p].id@ != id);
            }
            assert(p == i);
        }
        if forall|k: int| 0 <= k < themes.len() ==> (#[trigger] themes[k]).id@ != id {
            if p < themes.len() {
                assert(themes[p].id@ != id);
            }
        }
    }
}

} // verus!
