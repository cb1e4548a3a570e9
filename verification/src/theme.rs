//! Colours, taken from a file so the desktop can decide them.
//!
//! Stylix and friends generate a scheme for the whole machine, and a lone
//! window with its own opinion looks out of place. The file is optional: with
//! nothing to read, the interface falls back to a built-in theme rather than
//! demanding configuration.

use crate::lighting;
use crate::lighting::Rgb;
use crate::palette;
use crate::palette::Palette;
use crate::text;
use vstd::prelude::*;

verus! {

/// Where the machine's own colours are.
pub const SYSTEM: &'static str = "/etc/flydigictl/theme.toml";

/// Where a user's own colours override the machine's.
pub fn user_path(config_home: Option<&str>, home: Option<&str>) -> (r: Option<String>)
    ensures
        text::opt_view(r) == (match palette::user_dir(
            text::str_view(config_home),
            text::str_view(home),
            ".config"@,
        ) {
            Some(base) => Some(palette::below(base, "flydigictl/theme.toml"@)),
            None => None,
        }),
{
    match palette::find_user_dir(config_home, home, ".config") {
        Some(base) => Some(palette::join(base.as_str(), "flydigictl/theme.toml")),
        None => None,
    }
}

/// The colours as a file spells them.
#[derive(Debug)]
pub struct Colors {
    pub background: String,
    pub text: String,
    pub primary: String,
    pub success: String,
    pub warning: String,
    pub danger: String,
}

/// `rrggbb` and nothing more, with or without a leading hash.
pub fn parse(text: &str) -> (r: Option<Rgb>)
    ensures
        r == lighting::exact_color(text@),
{
    lighting::read_exact_color(text)
}

impl Colors {
    pub open spec fn colors(self) -> Option<Palette> {
        palette::palette_of(
            lighting::exact_color(self.background@),
            lighting::exact_color(self.text@),
            lighting::exact_color(self.primary@),
            lighting::exact_color(self.success@),
            lighting::exact_color(self.warning@),
            lighting::exact_color(self.danger@),
        )
    }

    pub fn palette(&self) -> (r: Option<Palette>)
        ensures
            r == self.colors(),
    {
        palette::gather(
            parse(self.background.as_str()),
            parse(self.text.as_str()),
            parse(self.primary.as_str()),
            parse(self.success.as_str()),
            parse(self.warning.as_str()),
            parse(self.danger.as_str()),
        )
    }
}

/// A user's own colours where they can be read, the machine's otherwise, and
/// nothing where neither can.
pub fn load(user: &Option<Colors>, system: &Option<Colors>) -> (r: Option<Palette>)
    ensures
        r == (match (
            match user {
                Some(user) => user.colors(),
                None => None,
            },
            match system {
                Some(system) => system.colors(),
                None => None,
            },
        ) {
            (Some(palette), _) => Some(palette),
            (None, palette) => palette,
        }),
{
    if let Some(user) = user {
        if let Some(palette) = user.palette() {
            return Some(palette);
        }
    }
    match system {
        Some(system) => system.palette(),
        None => None,
    }
}

/// Each colour of a theme is the one spelled for its role, and one that is not
/// a colour spoils the theme.
pub proof fn law_themes_take_each_colour_for_its_role(colors: Colors)
    ensures
        colors.colors() matches Some(p) ==> lighting::exact_color(colors.background@) == Some(
            p.background,
        ) && lighting::exact_color(colors.text@) == Some(p.text) && lighting::exact_color(
            colors.primary@,
        ) == Some(p.primary) && lighting::exact_color(colors.success@) == Some(p.success)
            && lighting::exact_color(colors.warning@) == Some(p.warning) && lighting::exact_color(
            colors.danger@,
        ) == Some(p.danger),
        colors.colors() is None <==> lighting::exact_color(colors.background@) is None
            || lighting::exact_color(colors.text@) is None || lighting::exact_color(
            colors.primary@,
        ) is None || lighting::exact_color(colors.success@) is None || lighting::exact_color(
            colors.warning@,
        ) is None || lighting::exact_color(colors.danger@) is None,
{
}

} // verus!
