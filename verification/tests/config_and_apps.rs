use sidetab::apps::{class_matches, installed, parse_app, DesktopApp};
use sidetab::config::{
    dark_palette, is_pinned, light_palette, omarchy_is_dark, parse_hex, prefers_dark,
    toggle_pinned, Edge, Palette, Theme, ThemeVariant, MAX_PINNED,
};

#[test]
fn hex_colors() {
    assert_eq!(parse_hex("#2c6fef"), Some(0x2c6fefff));
    assert_eq!(parse_hex("  #F2F2F2cc "), Some(0xf2f2f2cc));
    assert_eq!(parse_hex("2c6fef"), Some(0x2c6fefff));
    assert_eq!(parse_hex("##abcdef"), Some(0xabcdefff));
    assert_eq!(parse_hex("#+12345"), None);
    assert_eq!(parse_hex("+1234567"), None);
    assert_eq!(parse_hex("#12345"), None);
    assert_eq!(parse_hex("#1234567"), None);
    assert_eq!(parse_hex("#12345g"), None);
    assert_eq!(parse_hex("#-12345"), None);
    assert_eq!(parse_hex("#+"), None);
    assert_eq!(parse_hex("#ééé"), None);
    assert_eq!(parse_hex(""), None);
    assert_eq!(parse_hex("#ffffffff"), Some(0xffffffff));
}

#[test]
fn hex_colors_read_back() {
    for v in [0u32, 1, 0x2c6fefff, 0xdeadbeef, 0xffffffff, 0x00ff00cc] {
        assert_eq!(parse_hex(&format!("#{:08x}", v)), Some(v));
        assert_eq!(parse_hex(&format!("{:08X}", v)), Some(v));
    }
    for c in [0u32, 0x2c6fef, 0xffffff, 0x000abc] {
        assert_eq!(parse_hex(&format!("#{:06x}", c)), Some((c << 8) | 0xff));
    }
}

#[test]
fn edges() {
    assert!(Edge::Left.is_left());
    assert!(!Edge::Right.is_left());
}

#[test]
fn default_theme_follows_omarchy() {
    let t = Theme::default();
    assert_eq!(t.variant, ThemeVariant::Omarchy);
    assert!(t.background.is_none() && t.accent.is_none() && t.text.is_none() && t.dim_text.is_none());
}

fn theme(variant: ThemeVariant) -> Theme {
    Theme { variant, ..Theme::default() }
}

#[test]
fn palettes_by_variant() {
    let light = light_palette();
    let dark = dark_palette();
    assert_eq!(light.background, 0xf2f2f2ff);
    assert!(!light.dark);
    assert_eq!(dark.background, 0x232323ff);
    assert!(dark.dark);
    let never = |_: u32| -> bool { panic!("no override") };
    assert_eq!(theme(ThemeVariant::Light).palette(true, None, never), light);
    assert_eq!(theme(ThemeVariant::Dark).palette(false, None, never), dark);
    assert_eq!(theme(ThemeVariant::System).palette(true, None, never), dark);
    assert_eq!(theme(ThemeVariant::System).palette(false, None, never), light);
    let custom = Palette { accent: 0x11223344, ..dark };
    assert_eq!(theme(ThemeVariant::Omarchy).palette(false, Some(custom), never), custom);
    assert_eq!(theme(ThemeVariant::Omarchy).palette(false, None, never), light);
}

#[test]
fn overrides_apply_when_they_parse() {
    let t = Theme {
        variant: ThemeVariant::Light,
        background: Some("#101010".to_string()),
        accent: Some("not a color".to_string()),
        text: Some("#eeeeee80".to_string()),
        dim_text: None,
    };
    let p = t.palette(false, None, |c: u32| c == 0x101010ff);
    assert_eq!(p.background, 0x101010ff);
    assert!(p.dark);
    assert_eq!(p.accent, light_palette().accent);
    assert_eq!(p.text, 0xeeeeee80);
    assert_eq!(p.dim_text, light_palette().dim_text);
    assert_eq!(p.border, light_palette().border);
}

#[test]
fn omarchy_light_detection() {
    assert!(!omarchy_is_dark(Some(" Light\n"), false));
    assert!(!omarchy_is_dark(Some("LIGHT"), true));
    assert!(omarchy_is_dark(Some("dark"), true));
    assert!(!omarchy_is_dark(None, true));
    assert!(omarchy_is_dark(None, false));
}

#[test]
fn desktop_dark_preference() {
    assert!(prefers_dark(b"'prefer-dark'\n"));
    assert!(!prefers_dark(b"'default'\n"));
    assert!(!prefers_dark(b""));
}

#[test]
fn pinning_apps_toggles_and_caps() {
    let mut pins: Vec<String> = Vec::new();
    toggle_pinned(&mut pins, "org.mozilla.firefox");
    assert_eq!(pins, vec!["org.mozilla.firefox".to_string()]);
    assert!(is_pinned(&pins, "Firefox"));
    toggle_pinned(&mut pins, "firefox");
    assert!(pins.is_empty());
    for i in 0..MAX_PINNED {
        toggle_pinned(&mut pins, &format!("app{i}"));
    }
    assert_eq!(pins.len(), MAX_PINNED);
    toggle_pinned(&mut pins, "one-more");
    assert_eq!(pins.len(), MAX_PINNED);
    assert!(!is_pinned(&pins, "one-more"));
    toggle_pinned(&mut pins, "app0");
    assert_eq!(pins.len(), MAX_PINNED - 1);
    assert!(!is_pinned(&pins, "app0"));
}

#[test]
fn class_matching() {
    assert!(class_matches("Firefox", "firefox"));
    assert!(class_matches("ORG.MOZILLA.FIREFOX", "firefox"));
    assert_eq!(class_matches("KITTY", "Alacritty"), class_matches("kitty", "Alacritty"));
    assert!(class_matches("org.mozilla.firefox", "firefox"));
    assert!(class_matches("firefox", "org.mozilla.firefox"));
    assert!(!class_matches("firefox", "chromium"));
    assert!(!class_matches("", "firefox"));
    assert!(class_matches("", ""));
    assert!(class_matches("a.", "b."));
}

const FIREFOX: &str = "[Desktop Entry]\nName=Firefox\nName=Ignored\nExec=firefox %u --new-window\nIcon=firefox\nType=Application\nStartupWMClass=firefox-esr\n\n[Desktop Action new]\nName=New Window\nExec=firefox --new\n";

#[test]
fn desktop_entries_parse() {
    let app = parse_app(FIREFOX, "org.mozilla.firefox").unwrap();
    assert_eq!(app.name, "Firefox");
    assert_eq!(app.class, "firefox-esr");
    assert_eq!(app.exec_line, "firefox --new-window");
    assert_eq!(app.icon.as_deref(), Some("firefox"));
    let plain = parse_app("[Desktop Entry]\r\n Name = Editor \r\nExec=ed %F  file\r\n", "ed").unwrap();
    assert_eq!(plain.name, "Editor");
    assert_eq!(plain.class, "ed");
    assert_eq!(plain.exec_line, "ed file");
    assert_eq!(plain.icon, None);
}

#[test]
fn desktop_entries_that_are_not_dock_apps() {
    assert!(parse_app("[Desktop Entry]\nName=X\nExec=x\nNoDisplay=true\n", "x").is_none());
    assert!(parse_app("[Desktop Entry]\nName=X\nExec=x\nTerminal=true\n", "x").is_none());
    assert!(parse_app("[Desktop Entry]\nName=X\nExec=x\nHidden=true\n", "x").is_none());
    assert!(parse_app("[Desktop Entry]\nType=Link\nName=X\nExec=x\n", "x").is_none());
    assert!(parse_app("[Desktop Entry]\nName=X\n", "x").is_none());
    assert!(parse_app("[Desktop Entry]\nExec=x\n", "x").is_none());
    assert!(parse_app("Name=X\nExec=x\n", "x").is_none());
    assert!(parse_app("[Desktop Entry]\nName=X\nExec=x\nTerminal=false\n", "x").is_some());
}

#[test]
fn installed_apps_dedup_and_sort() {
    let files = vec![
        ("zed".to_string(), Some("[Desktop Entry]\nName=zed\nExec=zed\n".to_string())),
        ("Alpha".to_string(), Some("[Desktop Entry]\nName=Beta\nExec=beta\n".to_string())),
        ("alpha".to_string(), Some("[Desktop Entry]\nName=Shadowed\nExec=s\n".to_string())),
        ("broken".to_string(), None),
        ("tool".to_string(), Some("[Desktop Entry]\nName=Apple\nExec=a\nNoDisplay=true\n".to_string())),
        ("apple".to_string(), Some("[Desktop Entry]\nName=apple\nExec=a\n".to_string())),
    ];
    let apps: Vec<DesktopApp> = installed(&files);
    let names: Vec<&str> = apps.iter().map(|a| a.name.as_str()).collect();
    assert_eq!(names, vec!["apple", "Beta", "zed"]);
    assert_eq!(apps[1].class, "Alpha");
}
