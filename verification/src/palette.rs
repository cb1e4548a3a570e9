//! Colours, taken from whatever the machine already generates.
//!
//! There is no cross-desktop palette to ask for: `org.freedesktop.appearance`
//! offers a light/dark preference, an accent colour and a contrast flag, and
//! nothing else.
//!
//! So the interface reads a file. Its own, written for it and nothing else,
//! which is the only way a colour in it can be argued with individually. And
//! failing that, the files a machine already has: pywal wrote its palette to
//! `~/.cache/wal/colors.json`, wallust inherited both the schema and the
//! ecosystem around it, and between them a great many desktops already have
//! that file. A base16 scheme works too, since that is the shape colour scheme
//! generators speak among themselves.
//!
//! Nothing found means nothing invented: the interface falls back to the
//! desktop's light or dark preference.

use crate::lighting;
use crate::lighting::Rgb;
use crate::text;
use vstd::prelude::*;

verus! {

/// The six colours this interface actually uses, named for what they do.
#[derive(Debug, Clone, Copy, PartialEq, Eq, Structural)]
pub struct Palette {
    pub background: Rgb,
    pub text: Rgb,
    pub primary: Rgb,
    pub success: Rgb,
    pub warning: Rgb,
    pub danger: Rgb,
}

/// The colour a text spells: `rrggbb`, with or without a leading hash and white
/// space around it. Longer forms carry an alpha this has no use for, so the
/// first six digits are all that is read.
pub open spec fn color(s: Seq<char>) -> Option<Rgb> {
    lighting::hex_color(lighting::unhashed(text::trim(s)))
}

pub fn rgb(s: &str) -> (r: Option<Rgb>)
    ensures
        r == color(s@),
{
    let chars = text::chars_of(s);
    lighting::read_hex_color(lighting::without_hash(text::trimmed(chars.as_slice())))
}

/// A palette out of six colours, if every one of them is one.
pub open spec fn palette_of(
    background: Option<Rgb>,
    text: Option<Rgb>,
    primary: Option<Rgb>,
    success: Option<Rgb>,
    warning: Option<Rgb>,
    danger: Option<Rgb>,
) -> Option<Palette> {
    match (background, text, primary, success, warning, danger) {
        (
            Some(background),
            Some(text),
            Some(primary),
            Some(success),
            Some(warning),
            Some(danger),
        ) => Some(Palette { background, text, primary, success, warning, danger }),
        _ => None,
    }
}

/// Put six colours together, if every one of them is one.
pub fn gather(
    background: Option<Rgb>,
    text: Option<Rgb>,
    primary: Option<Rgb>,
    success: Option<Rgb>,
    warning: Option<Rgb>,
    danger: Option<Rgb>,
) -> (r: Option<Palette>)
    ensures
        r == palette_of(background, text, primary, success, warning, danger),
{
    match (background, text, primary, success, warning, danger) {
        (
            Some(background),
            Some(text),
            Some(primary),
            Some(success),
            Some(warning),
            Some(danger),
        ) => Some(Palette { background, text, primary, success, warning, danger }),
        _ => None,
    }
}

/// The six colours by what they do.
///
/// Anything mapping a scheme onto a window has to make these choices anyway;
/// spelling them out means they can be argued with, one colour at a time.
#[derive(Debug)]
pub struct Roles {
    pub background: String,
    pub text: String,
    pub primary: String,
    pub success: String,
    pub warning: String,
    pub danger: String,
}

impl Roles {
    pub open spec fn colors(self) -> Option<Palette> {
        palette_of(
            color(self.background@),
            color(self.text@),
            color(self.primary@),
            color(self.success@),
            color(self.warning@),
            color(self.danger@),
        )
    }

    pub fn palette(&self) -> (r: Option<Palette>)
        ensures
            r == self.colors(),
    {
        gather(
            rgb(self.background.as_str()),
            rgb(self.text.as_str()),
            rgb(self.primary.as_str()),
            rgb(self.success.as_str()),
            rgb(self.warning.as_str()),
            rgb(self.danger.as_str()),
        )
    }
}

/// pywal and wallust: named terminal colours plus the special ones.
#[derive(Debug)]
pub struct Wal {
    pub special: Special,
    /// Names and colours, each name once.
    pub colors: Vec<(String, String)>,
}

#[derive(Debug)]
pub struct Special {
    pub background: String,
    pub foreground: String,
}

/// The value under a name, looking from the front.
pub open spec fn looked_up(colors: Seq<(String, String)>, name: Seq<char>) -> Option<Seq<char>>
    decreases colors.len(),
{
    if colors.len() == 0 {
        None
    } else if colors[0].0@ == name {
        Some(colors[0].1@)
    } else {
        looked_up(colors.drop_first(), name)
    }
}

/// The colour under a name, if there is one and it is one.
pub open spec fn named(colors: Seq<(String, String)>, name: Seq<char>) -> Option<Rgb> {
    match looked_up(colors, name) {
        Some(value) => color(value),
        None => None,
    }
}

fn look_up(colors: &Vec<(String, String)>, name: &str) -> (r: Option<Rgb>)
    ensures
        r == named(colors@, name@),
{
    let mut i: usize = 0;
    proof {
        assert(colors@.skip(0) =~= colors@);
    }
    while i < colors.len()
        invariant
            i <= colors@.len(),
            looked_up(colors@, name@) == looked_up(colors@.skip(i as int), name@),
        decreases colors@.len() - i,
    {
        proof {
            assert(colors@.skip(i as int).drop_first() =~= colors@.skip(i + 1));
        }
        if text::same(colors[i].0.as_str(), name) {
            return rgb(colors[i].1.as_str());
        }
        i += 1;
    }
    None
}

impl Wal {
    /// The ANSI numbering every one of these schemes follows: 1 red, 2 green,
    /// 3 yellow, 4 blue. Which makes the mapping onto danger, success, warning
    /// and primary the obvious one.
    pub open spec fn colors(self) -> Option<Palette> {
        palette_of(
            color(self.special.background@),
            color(self.special.foreground@),
            named(self.colors@, "color4"@),
            named(self.colors@, "color2"@),
            named(self.colors@, "color3"@),
            named(self.colors@, "color1"@),
        )
    }

    pub fn palette(&self) -> (r: Option<Palette>)
        ensures
            r == self.colors(),
    {
        gather(
            rgb(self.special.background.as_str()),
            rgb(self.special.foreground.as_str()),
            look_up(&self.colors, "color4"),
            look_up(&self.colors, "color2"),
            look_up(&self.colors, "color3"),
            look_up(&self.colors, "color1"),
        )
    }
}

/// A base16 scheme, which is what colour scheme generators pass around, by the
/// slots that matter here.
#[derive(Debug)]
pub struct Base16 {
    pub base00: String,
    pub base05: String,
    pub base08: String,
    pub base0a: String,
    pub base0b: String,
    pub base0d: String,
}

impl Base16 {
    pub open spec fn colors(self) -> Option<Palette> {
        palette_of(
            color(self.base00@),
            color(self.base05@),
            color(self.base0d@),
            color(self.base0b@),
            color(self.base0a@),
            color(self.base08@),
        )
    }

    pub fn palette(&self) -> (r: Option<Palette>)
        ensures
            r == self.colors(),
    {
        gather(
            rgb(self.base00.as_str()),
            rgb(self.base05.as_str()),
            rgb(self.base0d.as_str()),
            rgb(self.base0b.as_str()),
            rgb(self.base0a.as_str()),
            rgb(self.base08.as_str()),
        )
    }
}

/// The palette in a file, by what it can be read as.
///
/// Roles first: it is the form written for this application specifically, so it
/// is the one that means what it says.
pub fn parse(roles: &Option<Roles>, wal: &Option<Wal>, base16: &Option<Base16>) -> (r: Option<
    Palette,
>)
    ensures
        r == (match (
            match roles {
                Some(roles) => roles.colors(),
                None => None,
            },
            match wal {
                Some(wal) => wal.colors(),
                None => None,
            },
            match base16 {
                Some(base16) => base16.colors(),
                None => None,
            },
        ) {
            (Some(palette), _, _) => Some(palette),
            (None, Some(palette), _) => Some(palette),
            (None, None, palette) => palette,
        }),
{
    if let Some(roles) = roles {
        if let Some(palette) = roles.palette() {
            return Some(palette);
        }
    }
    if let Some(wal) = wal {
        if let Some(palette) = wal.palette() {
            return Some(palette);
        }
    }
    match base16 {
        Some(base16) => base16.palette(),
        None => None,
    }
}

/// A relative path below another.
pub open spec fn below(base: Seq<char>, path: Seq<char>) -> Seq<char> {
    if base.len() == 0 || base.last() == '/' {
        base + path
    } else {
        base + "/"@ + path
    }
}

/// Put a relative path below another.
pub fn join(base: &str, path: &str) -> (r: String)
    ensures
        r@ == below(base@, path@),
{
    let chars = text::chars_of(base);
    let mut r = base.to_owned();
    if chars.len() > 0 && chars[chars.len() - 1] != '/' {
        r.append("/");
    }
    r.append(path);
    r
}

/// A directory of the user's: the one the environment names, or the usual one
/// below their home.
pub open spec fn user_dir(
    named: Option<Seq<char>>,
    home: Option<Seq<char>>,
    usual: Seq<char>,
) -> Option<Seq<char>> {
    match (named, home) {
        (Some(named), _) => Some(named),
        (None, Some(home)) => Some(below(home, usual)),
        (None, None) => None,
    }
}

/// Find a directory of the user's.
pub fn find_user_dir(named: Option<&str>, home: Option<&str>, usual: &str) -> (r: Option<String>)
    ensures
        text::opt_view(r) == user_dir(text::str_view(named), text::str_view(home), usual@),
{
    match (named, home) {
        (Some(named), _) => Some(named.to_owned()),
        (None, Some(home)) => Some(join(home, usual)),
        (None, None) => None,
    }
}

/// Where to look, most specific first. pywal hardcoded its own, so that one is
/// worth checking even when the cache is elsewhere.
pub open spec fn places(
    explicit: Option<Seq<char>>,
    config_home: Option<Seq<char>>,
    cache_home: Option<Seq<char>>,
    home: Option<Seq<char>>,
) -> Seq<Seq<char>> {
    (match explicit {
        Some(explicit) => seq![explicit],
        None => Seq::empty(),
    }) + (match user_dir(config_home, home, ".config"@) {
        Some(config) => seq![below(config, "flydigictl/palette.json"@)],
        None => Seq::empty(),
    }) + (match user_dir(cache_home, home, ".cache"@) {
        Some(cache) => seq![
            below(cache, "wallust/colors.json"@),
            below(cache, "wal/colors.json"@),
        ],
        None => Seq::empty(),
    }) + (match home {
        Some(home) => seq![below(home, ".cache/wal/colors.json"@)],
        None => Seq::empty(),
    })
}

/// Where to look, most specific first.
pub fn candidates(
    explicit: Option<&str>,
    config_home: Option<&str>,
    cache_home: Option<&str>,
    home: Option<&str>,
) -> (paths: Vec<String>)
    ensures
        text::views(paths@) == places(
            text::str_view(explicit),
            text::str_view(config_home),
            text::str_view(cache_home),
            text::str_view(home),
        ),
{
    let mut paths: Vec<String> = Vec::new();
    if let Some(explicit) = explicit {
        paths.push(explicit.to_owned());
    }
    if let Some(config) = find_user_dir(config_home, home, ".config") {
        paths.push(join(config.as_str(), "flydigictl/palette.json"));
    }
    if let Some(cache) = find_user_dir(cache_home, home, ".cache") {
        paths.push(join(cache.as_str(), "wallust/colors.json"));
        paths.push(join(cache.as_str(), "wal/colors.json"));
    }
    if let Some(home) = home {
        paths.push(join(home, ".cache/wal/colors.json"));
    }
    proof {
        assert(text::views(paths@) =~= places(
            text::str_view(explicit),
            text::str_view(config_home),
            text::str_view(cache_home),
            text::str_view(home),
        ));
    }
    paths
}

/// A colour reads back from what it is written as, with a hash or without, with
/// white space around it or not, and whatever alpha stands behind it.
pub proof fn law_colours_are_read_wherever_they_stand(
    s: Seq<char>,
    color: Rgb,
    alpha: Seq<char>,
)
    requires
        ({
            let digits = text::hex2(color.r) + text::hex2(color.g) + text::hex2(color.b);
            text::trim(s) == digits + alpha || text::trim(s) == seq!['#'] + (digits + alpha)
        }),
    ensures
        self::color(s) == Some(color),
{
    let digits = text::hex2(color.r) + text::hex2(color.g) + text::hex2(color.b);
    lighting::law_colours_read_back(color, alpha);
    text::law_bytes_read_back(color.r);
    assert((digits + alpha)[0] == text::hex_digit((color.r / 16) as nat));
    assert((seq!['#'] + (digits + alpha)).drop_first() =~= digits + alpha);
}

/// A palette takes all six colours, each for its own role.
pub proof fn law_palettes_need_every_colour(
    background: Option<Rgb>,
    text: Option<Rgb>,
    primary: Option<Rgb>,
    success: Option<Rgb>,
    warning: Option<Rgb>,
    danger: Option<Rgb>,
)
    ensures
        ({
            let palette = palette_of(background, text, primary, success, warning, danger);
            &&& palette is Some <==> background is Some && text is Some && primary is Some
                && success is Some && warning is Some && danger is Some
            &&& palette matches Some(p) ==> background == Some(p.background) && text == Some(
                p.text,
            ) && primary == Some(p.primary) && success == Some(p.success) && warning == Some(
                p.warning,
            ) && danger == Some(p.danger)
        }),
{
}

/// Terminal schemes go by the ANSI numbers: one is danger, two success, three
/// warning and four primary; base16 schemes go by their slots.
pub proof fn law_schemes_map_onto_roles(wal: Wal, base16: Base16, roles: Roles)
    ensures
        wal.colors() matches Some(p) ==> named(wal.colors@, "color1"@) == Some(p.danger) && named(
            wal.colors@,
            "color2"@,
        ) == Some(p.success) && named(wal.colors@, "color3"@) == Some(p.warning) && named(
            wal.colors@,
            "color4"@,
        ) == Some(p.primary) && color(wal.special.background@) == Some(p.background) && color(
            wal.special.foreground@,
        ) == Some(p.text),
        base16.colors() matches Some(p) ==> color(base16.base00@) == Some(p.background) && color(
            base16.base05@,
        ) == Some(p.text) && color(base16.base08@) == Some(p.danger) && color(base16.base0a@)
            == Some(p.warning) && color(base16.base0b@) == Some(p.success) && color(
            base16.base0d@,
        ) == Some(p.primary),
        roles.colors() matches Some(p) ==> color(roles.background@) == Some(p.background) && color(
            roles.text@,
        ) == Some(p.text) && color(roles.primary@) == Some(p.primary) && color(roles.success@)
            == Some(p.success) && color(roles.warning@) == Some(p.warning) && color(roles.danger@)
            == Some(p.danger),
{
}

/// What is found under a name stands under it, and nothing in front does; what
/// is not found stands nowhere.
pub proof fn law_names_are_looked_up_from_the_front(
    colors: Seq<(String, String)>,
    name: Seq<char>,
    i: int,
)
    ensures
        looked_up(colors, name) is None && 0 <= i < colors.len() ==> colors[i].0@ != name,
        looked_up(colors, name) matches Some(value) ==> exists|k: int|
            0 <= k < colors.len() && (#[trigger] colors[k]).0@ == name && colors[k].1@ == value
                && (forall|j: int| 0 <= j < k ==> (#[trigger] colors[j]).0@ != name),
    decreases colors.len(),
{
    if colors.len() > 0 && colors[0].0@ != name {
        let rest = colors.drop_first();
        law_names_are_looked_up_from_the_front(rest, name, i - 1);
        if looked_up(colors, name) is None && 0 < i < colors.len() {
            assert(rest[i - 1] == colors[i]);
        }
        if let Some(value) = looked_up(colors, name) {
            let k = choose|k: int|
                0 <= k < rest.len() && (#[trigger] rest[k]).0@ == name && rest[k].1@ == value && (
                forall|j: int| 0 <= j < k ==> (#[trigger] rest[j]).0@ != name);
            assert(colors[k + 1] == rest[k]);
            assert forall|j: int| 0 <= j < k + 1 implies (#[trigger] colors[j]).0@ != name by {
                if j > 0 {
                    assert(rest[j - 1] == colors[j]);
                }
            }
        }
    }
}

/// A path below another has exactly one slash between them.
pub proof fn law_paths_are_joined_by_one_slash(base: Seq<char>, path: Seq<char>)
    ensures
        below(base.push('/'), path) == base.push('/') + path,
        base.len() > 0 && base.last() != '/' ==> below(base, path) == base.push('/') + path,
        below(Seq::empty(), path) == path,
{
    reveal_strlit("/");
    assert(base + "/"@ + path =~= base.push('/') + path);
    assert(Seq::<char>::empty() + path =~= path);
}

/// The place that was named comes before every other, the file written for the
/// interface before those of a machine, and what a user's directories are comes
/// from the environment before their home.
pub proof fn law_places_are_looked_at_in_order(
    explicit: Option<Seq<char>>,
    config_home: Option<Seq<char>>,
    cache_home: Option<Seq<char>>,
    home: Seq<char>,
)
    ensures
        ({
            let all = places(explicit, config_home, cache_home, Some(home));
            let n = if explicit is Some {
                1int
            } else {
                0
            };
            let config = match config_home {
                Some(config) => config,
                None => below(home, ".config"@),
            };
            let cache = match cache_home {
                Some(cache) => cache,
                None => below(home, ".cache"@),
            };
            &&& all.len() == n + 4
            &&& explicit is Some ==> all[0] == explicit->0
            &&& all[n] == below(config, "flydigictl/palette.json"@)
            &&& all[n + 1] == below(cache, "wallust/colors.json"@)
            &&& all[n + 2] == below(cache, "wal/colors.json"@)
            &&& all[n + 3] == below(home, ".cache/wal/colors.json"@)
            &&& places(None, None, None, None).len() == 0
        }),
{
}

} // verus!
