//! The colour theme: its CSS class, its persisted form, its toggle, its
//! icons, and how the theme to apply is resolved from a saved choice and the
//! operating system's colour-scheme preference.

use vstd::prelude::*;

use crate::text::same_text;

verus! {

/// The site's two colour themes.
#[derive(Clone, Copy, Debug, PartialEq, Eq, Structural)]
pub enum Theme {
    Dark,
    Light,
}

/// The icons that the theme decides between.
#[derive(Clone, Copy, Debug, PartialEq, Eq, Structural)]
pub enum Icon {
    /// A sun: shown on the dark theme, where the toggle leads to light.
    LightMode,
    /// A moon: shown on the light theme, where the toggle leads to dark.
    DarkMode,
    /// The scroll-to-top arrow drawn in a light colour, for the dark theme.
    ArrowUpLight,
    /// The scroll-to-top arrow drawn in a dark colour, for the light theme.
    ArrowUpDark,
}

/// Key under which the chosen theme is kept in the browser's local storage.
pub const STORAGE_KEY: &'static str = "theme";

/// The other theme.
pub open spec fn toggled(t: Theme) -> Theme {
    match t {
        Theme::Dark => Theme::Light,
        Theme::Light => Theme::Dark,
    }
}

/// The CSS class that the page's `<main>` carries for a theme.
pub open spec fn css_class_text(t: Theme) -> Seq<char> {
    match t {
        Theme::Dark => "theme-dark"@,
        Theme::Light => "theme-light"@,
    }
}

/// The text under which a theme is persisted.
pub open spec fn stored_text(t: Theme) -> Seq<char> {
    match t {
        Theme::Dark => "dark"@,
        Theme::Light => "light"@,
    }
}

/// The theme that a persisted text stands for, if any.
pub open spec fn theme_for_stored(v: Seq<char>) -> Option<Theme> {
    if v == "dark"@ {
        Some(Theme::Dark)
    } else if v == "light"@ {
        Some(Theme::Light)
    } else {
        None
    }
}

/// The accessible label of the toggle button on a theme.
pub open spec fn toggle_label_text(t: Theme) -> Seq<char> {
    match t {
        Theme::Dark => "Switch to light theme"@,
        Theme::Light => "Switch to dark theme"@,
    }
}

/// The theme-toggle icon: the mode the toggle leads to.
pub open spec fn theme_icon(t: Theme) -> Icon {
    match t {
        Theme::Dark => Icon::LightMode,
        Theme::Light => Icon::DarkMode,
    }
}

/// The scroll-to-top arrow, drawn to contrast with the theme.
pub open spec fn arrow_icon(t: Theme) -> Icon {
    match t {
        Theme::Dark => Icon::ArrowUpLight,
        Theme::Light => Icon::ArrowUpDark,
    }
}

/// The theme for a colour-scheme preference (`true`: dark).
pub open spec fn theme_for_preference(prefers_dark: bool) -> Theme {
    if prefers_dark {
        Theme::Dark
    } else {
        Theme::Light
    }
}

/// The theme to apply: a recognised saved choice wins, otherwise the OS
/// preference when it is known; `None` keeps the current theme.
pub open spec fn resolved_theme(saved: Option<Seq<char>>, prefers_dark: Option<bool>) -> Option<Theme> {
    let from_saved = match saved {
        Some(v) => theme_for_stored(v),
        None => None,
    };
    match from_saved {
        Some(t) => Some(t),
        None => match prefers_dark {
            Some(d) => Some(theme_for_preference(d)),
            None => None,
        },
    }
}

impl Theme {
    /// The CSS class that selects this theme's stylesheet.
    pub fn css_class(&self) -> (r: &'static str)
        ensures
            r@ == css_class_text(*self),
    {
        match self {
            Theme::Dark => "theme-dark",
            Theme::Light => "theme-light",
        }
    }

    /// The text under which this theme is persisted; inverse of
    /// [`Theme::from_storage_value`].
    pub fn storage_value(&self) -> (r: &'static str)
        ensures
            r@ == stored_text(*self),
    {
        match self {
            Theme::Dark => "dark",
            Theme::Light => "light",
        }
    }

    /// The theme that a persisted text stands for: `"dark"` or `"light"`,
    /// anything else is `None`.
    pub fn from_storage_value(value: &str) -> (r: Option<Theme>)
        ensures
            r == theme_for_stored(value@),
    {
        if same_text(value, "dark") {
            Some(Theme::Dark)
        } else if same_text(value, "light") {
            Some(Theme::Light)
        } else {
            None
        }
    }

    /// The theme that the toggle button switches to.
    pub fn toggle(&self) -> (r: Theme)
        ensures
            r == toggled(*self),
    {
        match self {
            Theme::Dark => Theme::Light,
            Theme::Light => Theme::Dark,
        }
    }

    /// The icon on the theme toggle: the mode it switches to.
    pub fn icon_theme(&self) -> (r: Icon)
        ensures
            r == theme_icon(*self),
    {
        match self {
            Theme::Dark => Icon::LightMode,
            Theme::Light => Icon::DarkMode,
        }
    }

    /// The scroll-to-top arrow for this theme.
    pub fn icon_up(&self) -> (r: Icon)
        ensures
            r == arrow_icon(*self),
    {
        match self {
            Theme::Dark => Icon::ArrowUpLight,
            Theme::Light => Icon::ArrowUpDark,
        }
    }

    /// The accessible label of the theme toggle while this theme is shown.
    pub fn toggle_label(&self) -> (r: &'static str)
        ensures
            r@ == toggle_label_text(*self),
    {
        match self {
            Theme::Dark => "Switch to light theme",
            Theme::Light => "Switch to dark theme",
        }
    }

    /// Whether this is the dark theme (the toggle's pressed state).
    pub fn is_dark(&self) -> (r: bool)
        ensures
            r == (*self == Theme::Dark),
    {
        match self {
            Theme::Dark => true,
            Theme::Light => false,
        }
    }
}

/// The theme of the first render, the same on the server and the client so
/// that hydration agrees; the resolved theme is applied just after.
pub fn initial_theme() -> (r: Theme)
    ensures
        r == Theme::Light,
{
    Theme::Light
}

/// The theme to apply after hydration, from what the browser holds: `saved`
/// is the persisted text, if any; `prefers_dark` is the OS colour-scheme
/// preference, if it could be queried. A recognised saved choice wins;
/// otherwise the preference decides; `None` keeps the default.
pub fn resolve_theme(saved: Option<&str>, prefers_dark: Option<bool>) -> (r: Option<Theme>)
    ensures
        r == resolved_theme(
            match saved {
                Some(s) => Some(s@),
                None => None,
            },
            prefers_dark,
        ),
{
    let from_saved = match saved {
        Some(s) => Theme::from_storage_value(s),
        None => None,
    };
    match from_saved {
        Some(t) => Some(t),
        None => match prefers_dark {
            Some(d) => Some(if d { Theme::Dark } else { Theme::Light }),
            None => None,
        },
    }
}

/// The persisted texts are `dark` and `light`, and the CSS classes
/// `theme-dark` and `theme-light`.
pub proof fn lemma_theme_texts()
    ensures
        stored_text(Theme::Dark) == seq!['d', 'a', 'r', 'k'],
        stored_text(Theme::Light) == seq!['l', 'i', 'g', 'h', 't'],
        css_class_text(Theme::Dark) == seq!['t', 'h', 'e', 'm', 'e', '-', 'd', 'a', 'r', 'k'],
        css_class_text(Theme::Light) == seq!['t', 'h', 'e', 'm', 'e', '-', 'l', 'i', 'g', 'h', 't'],
{
    reveal_strlit("dark");
    reveal_strlit("light");
    reveal_strlit("theme-dark");
    reveal_strlit("theme-light");
    assert("dark"@ =~= seq!['d', 'a', 'r', 'k']);
    assert("light"@ =~= seq!['l', 'i', 'g', 'h', 't']);
    assert("theme-dark"@ =~= seq!['t', 'h', 'e', 'm', 'e', '-', 'd', 'a', 'r', 'k']);
    assert("theme-light"@ =~= seq!['t', 'h', 'e', 'm', 'e', '-', 'l', 'i', 'g', 'h', 't']);
}

/// Toggling twice gives back the theme, and toggling always changes it.
pub proof fn lemma_toggle_involutive(t: Theme)
    ensures
        toggled(toggled(t)) == t,
        toggled(t) != t,
{
}

/// Reading back a persisted theme gives that theme.
pub proof fn lemma_stored_round_trip(t: Theme)
    ensures
        theme_for_stored(stored_text(t)) == Some(t),
{
    reveal_strlit("dark");
    reveal_strlit("light");
    assert("light"@.len() != "dark"@.len());
}

/// A text that reads as a theme is exactly that theme's persisted text.
pub proof fn lemma_stored_text_unique(v: Seq<char>, t: Theme)
    requires
        theme_for_stored(v) == Some(t),
    ensures
        stored_text(t) == v,
{
    reveal_strlit("dark");
    reveal_strlit("light");
}

/// The two themes carry different CSS classes.
pub proof fn lemma_css_classes_distinct()
    ensures
        css_class_text(Theme::Dark) != css_class_text(Theme::Light),
{
    reveal_strlit("theme-dark");
    reveal_strlit("theme-light");
    assert(css_class_text(Theme::Dark).len() != css_class_text(Theme::Light).len());
}

/// A saved theme is the theme that the next visit resolves, whatever the OS
/// preference.
pub proof fn lemma_saved_theme_wins(t: Theme, prefers_dark: Option<bool>)
    ensures
        resolved_theme(Some(stored_text(t)), prefers_dark) == Some(t),
{
    lemma_stored_round_trip(t);
}

/// With no usable saved choice, the theme follows the OS preference.
pub proof fn lemma_unsaved_follows_preference(saved: Option<Seq<char>>, prefers_dark: bool)
    requires
        saved matches Some(v) ==> theme_for_stored(v) is None,
    ensures
        resolved_theme(saved, Some(prefers_dark)) == Some(theme_for_preference(prefers_dark)),
{
}

} // verus!
