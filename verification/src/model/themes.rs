//! Colour themes.

use vstd::prelude::*;

use crate::text;

verus! {

/// A colour of a theme.
#[derive(Clone, Copy, Debug, PartialEq, Eq, Structural)]
pub struct ThemeColor {
    pub r: u8,
    pub g: u8,
    pub b: u8,
}

/// The colours of a theme.
#[derive(Clone, Copy, Debug, PartialEq, Eq, Structural)]
pub struct ThemeColors {
    pub background: ThemeColor,
    pub primary_text: ThemeColor,
    pub secondary_text: ThemeColor,
    pub accent: ThemeColor,
}

/// A theme.
#[derive(Debug)]
pub struct CustomTheme {
    pub id: String,
    pub name: String,
    pub description: String,
    pub colors: ThemeColors,
}

/// The place of the first theme with an id, and the number of themes where there is none.
pub open spec fn theme_place(themes: Seq<CustomTheme>, id: Seq<char>, i: int) -> int
    decreases themes.len() - i,
{
    if i < 0 || i >= themes.len() {
        themes.len() as int
    } else if themes[i].id@ == id {
        i
    } else {
        theme_place(themes, id, i + 1)
    }
}

/// Finds the theme that is chosen.
pub fn find_theme<'a>(themes: &'a Vec<CustomTheme>, chosen: &Option<String>) -> (r: Option<
    &'a CustomTheme,
>)
    ensures
        match r {
            Some(t) => text::optional_text(*chosen) is Some && ({
                let p = theme_place(themes@, text::optional_text(*chosen)->0, 0);
                p < themes@.len() && *t == themes@[p]
            }),
            None => match text::optional_text(*chosen) {
                Some(id) => theme_place(themes@, id, 0) == themes@.len(),
                None => true,
            },
        },
{
    let id = match chosen {
        Some(id) => id,
        None => {
            return None;
        },
    };
    let mut i: usize = 0;
    while i < themes.len()
        invariant
            i <= themes@.len(),
            text::optional_text(*chosen) == Some(id@),
            theme_place(themes@, id@, 0) == theme_place(themes@, id@, i as int),
        decreases themes@.len() - i,
    {
        if themes[i].id == *id {
            return Some(&themes[i]);
        }
        i += 1;
    }
    None
}

/// The first theme with the chosen id is taken, and none where no theme has it.
pub proof fn first_theme_with_the_id_is_taken(themes: Seq<CustomTheme>, id: Seq<char>, i: int)
    requires
        0 <= i <= themes.len(),
    ensures
        i <= theme_place(themes, id, i) <= themes.len(),
        theme_place(themes, id, i) < themes.len() ==> themes[theme_place(themes, id, i)].id@ == id,
        forall|k: int| i <= k < theme_place(themes, id, i) ==> (#[trigger] themes[k]).id@ != id,
    decreases themes.len() - i,
{
    if i < themes.len() && themes[i].id@ != id {
        first_theme_with_the_id_is_taken(themes, id, i + 1);
    }
}

} // verus!
