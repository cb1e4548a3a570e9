use flydigictl::lighting::Rgb;
use flydigictl::palette;
use flydigictl::palette::{candidates, join, rgb, Base16, Palette, Roles, Special, Wal};
use flydigictl::theme;
use flydigictl::theme::Colors;
use serde_json::Value;

fn text(value: &Value, name: &str) -> Option<String> {
    value.get(name)?.as_str().map(str::to_string)
}

fn roles(value: &Value) -> Option<Roles> {
    Some(Roles {
        background: text(value, "background")?,
        text: text(value, "text")?,
        primary: text(value, "primary")?,
        success: text(value, "success")?,
        warning: text(value, "warning")?,
        danger: text(value, "danger")?,
    })
}

fn wal(value: &Value) -> Option<Wal> {
    let special = value.get("special")?;
    let mut colors = Vec::new();
    for (name, color) in value.get("colors")?.as_object()? {
        colors.push((name.clone(), color.as_str()?.to_string()));
    }
    Some(Wal {
        special: Special {
            background: text(special, "background")?,
            foreground: text(special, "foreground")?,
        },
        colors,
    })
}

fn base16(value: &Value) -> Option<Base16> {
    Some(Base16 {
        base00: text(value, "base00")?,
        base05: text(value, "base05")?,
        base08: text(value, "base08")?,
        base0a: text(value, "base0A")?,
        base0b: text(value, "base0B")?,
        base0d: text(value, "base0D")?,
    })
}

/// A palette file, read as each of the forms it could have.
fn parse(text: &str) -> Option<Palette> {
    let value: Value = serde_json::from_str(text).ok()?;
    palette::parse(&roles(&value), &wal(&value), &base16(&value))
}

fn from_rgb8(r: u8, g: u8, b: u8) -> Rgb {
    Rgb { r, g, b }
}

#[test]
fn reads_a_wal_cache() {
    let text = r##"{
        "wallpaper": "/home/someone/wall.png",
        "special": { "background": "#1f2430", "foreground": "#cccac2", "cursor": "#ffcc66" },
        "colors": {
            "color0": "#1f2430", "color1": "#f28779", "color2": "#d5ff80",
            "color3": "#ffd173", "color4": "#73d0ff", "color5": "#dfbfff",
            "color6": "#95e6cb", "color7": "#cccac2"
        }
    }"##;

    let palette = parse(text).unwrap();
    assert_eq!(palette.background, from_rgb8(0x1F, 0x24, 0x30));
    assert_eq!(palette.primary, from_rgb8(0x73, 0xD0, 0xFF));
    assert_eq!(palette.danger, from_rgb8(0xF2, 0x87, 0x79));
}

#[test]
fn reads_a_base16_scheme() {
    let text = r##"{
        "base00": "1f2430", "base05": "cccac2", "base08": "f28779",
        "base0A": "ffd173", "base0B": "d5ff80", "base0D": "73d0ff"
    }"##;

    let palette = parse(text).unwrap();
    assert_eq!(palette.text, from_rgb8(0xCC, 0xCA, 0xC2));
    assert_eq!(palette.success, from_rgb8(0xD5, 0xFF, 0x80));
}

#[test]
fn reads_named_roles() {
    let text = r##"{
        "background": "#1f2430", "text": "#cccac2", "primary": "#73d0ff",
        "success": "#d5ff80", "warning": "#ffd173", "danger": "#f28779"
    }"##;

    let palette = parse(text).unwrap();
    assert_eq!(palette.primary, from_rgb8(0x73, 0xD0, 0xFF));
    assert_eq!(palette.warning, from_rgb8(0xFF, 0xD1, 0x73));
}

#[test]
fn ignores_json_that_is_not_a_palette() {
    assert!(parse(r##"{"colors": {"color1": "not a colour"}}"##).is_none());
    assert!(parse("[]").is_none());
}

#[test]
fn colours_are_read_off_their_first_digits() {
    let violet = Some(from_rgb8(0x7A, 0xA2, 0xF7));
    assert_eq!(rgb("7aa2f7"), violet);
    assert_eq!(rgb("  #7AA2F7ff\n"), violet);
    assert_eq!(rgb("#7aa2f"), None);
    assert_eq!(rgb("# 7aa2f7"), None);
    assert_eq!(rgb("zzzzzz"), None);
    assert_eq!(rgb(""), None);
    assert_eq!(rgb("7aa2f7é"), violet);
}

fn named(color: &str) -> Roles {
    Roles {
        background: color.to_string(),
        text: "000000".to_string(),
        primary: "000001".to_string(),
        success: "000002".to_string(),
        warning: "000003".to_string(),
        danger: "000004".to_string(),
    }
}

#[test]
fn roles_come_first_and_have_to_be_whole() {
    let scheme = || {
        Some(Base16 {
            base00: "0a0a0a".to_string(),
            base05: "0b0b0b".to_string(),
            base08: "0c0c0c".to_string(),
            base0a: "0d0d0d".to_string(),
            base0b: "0e0e0e".to_string(),
            base0d: "0f0f0f".to_string(),
        })
    };

    let both = palette::parse(&Some(named("ffffff")), &None, &scheme()).unwrap();
    assert_eq!(both.background, from_rgb8(0xFF, 0xFF, 0xFF));
    assert_eq!(both.danger, from_rgb8(0, 0, 4));

    let broken = palette::parse(&Some(named("white")), &None, &scheme()).unwrap();
    assert_eq!(broken.background, from_rgb8(10, 10, 10));
    assert_eq!(broken.danger, from_rgb8(12, 12, 12));
    assert_eq!(broken.warning, from_rgb8(13, 13, 13));

    assert_eq!(palette::parse(&Some(named("white")), &None, &None), None);
    assert_eq!(palette::parse(&None, &None, &None), None);
}

#[test]
fn palettes_are_looked_for_most_specific_first() {
    assert_eq!(
        candidates(None, None, None, Some("/home/me")),
        [
            "/home/me/.config/flydigictl/palette.json",
            "/home/me/.cache/wallust/colors.json",
            "/home/me/.cache/wal/colors.json",
            "/home/me/.cache/wal/colors.json",
        ]
    );
    assert_eq!(
        candidates(Some("/p.json"), Some("/c/"), Some("/k"), None),
        [
            "/p.json",
            "/c/flydigictl/palette.json",
            "/k/wallust/colors.json",
            "/k/wal/colors.json",
        ]
    );
    assert!(candidates(None, None, None, None).is_empty());
    assert_eq!(join("", "a/b"), "a/b");
    assert_eq!(join("x", "a"), "x/a");
}

fn colors(background: &str) -> Option<Colors> {
    Some(Colors {
        background: background.to_string(),
        text: "#000000".to_string(),
        primary: "#000001".to_string(),
        success: "#000002".to_string(),
        warning: "#000003".to_string(),
        danger: "#000004".to_string(),
    })
}

#[test]
fn a_users_theme_overrides_the_machines() {
    let background = |user: Option<Colors>, system: Option<Colors>| {
        theme::load(&user, &system).map(|palette| palette.background.r)
    };
    assert_eq!(background(colors("#010000"), colors("#020000")), Some(1));
    assert_eq!(background(colors("#01000"), colors("#020000")), Some(2));
    assert_eq!(background(None, colors("#020000")), Some(2));
    assert_eq!(background(colors("#010000ff"), None), None);

    assert_eq!(theme::parse("0a0b0c"), Some(from_rgb8(10, 11, 12)));
    assert_eq!(theme::SYSTEM, "/etc/flydigictl/theme.toml");
    assert_eq!(
        theme::user_path(None, Some("/home/me")).as_deref(),
        Some("/home/me/.config/flydigictl/theme.toml")
    );
    assert_eq!(
        theme::user_path(Some("/c"), Some("/home/me")).as_deref(),
        Some("/c/flydigictl/theme.toml")
    );
    assert_eq!(theme::user_path(None, None), None);
}
