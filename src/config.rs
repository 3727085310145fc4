//! The gallery's settings.

use vstd::prelude::*;

use crate::common::{capitalize, capitalized};

verus! {

/// The settings stored in a gallery's config document.
pub struct Config {
    /// Title of the rendered page.
    pub title: String,
    /// Whether the page follows a dark system theme.
    pub dark_theme_support: bool,
    /// Whether the page animates.
    pub animations: bool,
    /// Address of the published gallery, if any.
    pub remote: Option<String>,
}

/// The default title for the user named `user`, if known.
pub open spec fn default_title(user: Option<Seq<char>>) -> Seq<char> {
    match user {
        Some(u) => capitalized(u) + "'s Wallpapers"@,
        None => "Anon's Wallpapers"@,
    }
}

impl Config {
    /// The settings of a new gallery of the user named `user`, if known:
    /// the title names the user, and nothing else is switched on.
    pub fn default_for(user: Option<&str>) -> (r: Config)
        ensures
            r.title@ == default_title(
                match user {
                    Some(u) => Some(u@),
                    None => None,
                },
            ),
            !r.dark_theme_support,
            !r.animations,
            r.remote is None,
    {
        let title = match user {
            Some(u) => {
                let mut t = capitalize(u);
                t.append("'s Wallpapers");
                t
            },
            None => String::from_str("Anon's Wallpapers"),
        };
        Config { title, dark_theme_support: false, animations: false, remote: None }
    }
}

} // verus!
