use sidetab::assets::Assets;
use sidetab::bindings::{
    appended, backup_plan, config_files, detect_style, file_stem, is_sourced, marker_present,
    uses_split_file, Plan, Style, MARKER,
};
use sidetab::client::{commands, validate};
use sidetab::daemon::{control_command, own_address, route, Route};
use sidetab::hypr::ctl::{Client, Parser, WorkspaceRef};
use sidetab::icons::{cache_png_name, parse_desktop_entry, parse_icon_theme, theme_list, IconResolver};
use sidetab::ui::settings::{matching_apps, pin_disabled, search_key, step_hide_delay, step_show_delay};
use sidetab::apps::DesktopApp;

fn resolver() -> IconResolver {
    let mut r = IconResolver::new(vec!["hicolor".to_string()]);
    r.add_entry("org.mozilla.Firefox", "firefox", Some("Navigator"));
    r.add_entry("firefox", "other-icon", None);
    r.add_entry("kitty", "kitty", None);
    r
}

#[test]
fn icon_names_for_classes() {
    let r = resolver();
    assert_eq!(r.icon_name_for_class("FIREFOX").as_deref(), Some("firefox"));
    assert_eq!(r.icon_name_for_class("navigator").as_deref(), Some("firefox"));
    assert_eq!(r.icon_name_for_class("org.mozilla.firefox").as_deref(), Some("firefox"));
    assert_eq!(r.icon_name_for_class("com.example.kitty").as_deref(), Some("kitty"));
    assert_eq!(r.icon_name_for_class("unknown"), None);
}

#[test]
fn icon_candidates_in_order() {
    let r = resolver();
    assert_eq!(
        r.candidates("Kitty", ""),
        vec!["kitty".to_string(), "kitty".to_string(), "Kitty".to_string()]
    );
    assert_eq!(
        r.candidates("Foo", "bar"),
        vec!["foo".to_string(), "Foo".to_string(), "bar".to_string(), "bar".to_string()]
    );
    assert!(r.candidates("", "").is_empty());
}

#[test]
fn resolve_takes_the_first_hit() {
    let r = resolver();
    let hit = r.resolve("Foo", "kitty", |name: &String| {
        if name == "kitty" { Some(format!("/icons/{name}.png")) } else { None }
    });
    assert_eq!(hit.as_deref(), Some("/icons/kitty.png"));
    let miss: Option<String> = r.resolve("Foo", "", |_: &String| None);
    assert_eq!(miss, None);
}

#[test]
fn desktop_entry_icons() {
    let (icon, wm) = parse_desktop_entry(
        "[Desktop Entry]\nIcon= firefox \nIcon=second\nStartupWMClass=Navigator\n[Other]\nIcon=x\n",
    );
    assert_eq!(icon.as_deref(), Some("firefox"));
    assert_eq!(wm.as_deref(), Some("Navigator"));
    let (icon, wm) = parse_desktop_entry("Icon=outside\n");
    assert_eq!(icon, None);
    assert_eq!(wm, None);
}

#[test]
fn theme_fallbacks() {
    assert_eq!(theme_list(None), vec!["hicolor", "Adwaita", "breeze"]);
    assert_eq!(theme_list(Some("Adwaita".to_string())), vec!["Adwaita", "hicolor", "breeze"]);
    assert_eq!(
        theme_list(Some("Papirus".to_string())),
        vec!["Papirus", "hicolor", "Adwaita", "breeze"]
    );
    assert_eq!(parse_icon_theme(b"'Papirus-Dark'\n").as_deref(), Some("Papirus-Dark"));
    assert_eq!(parse_icon_theme(b"\"Yaru\"").as_deref(), Some("Yaru"));
    assert_eq!(parse_icon_theme(b"''\n"), None);
}

#[test]
fn cached_icon_names_are_file_safe() {
    assert_eq!(cache_png_name("org.gnome.Nautilus"), "org_gnome_Nautilus-64.png");
    assert_eq!(cache_png_name("my-app/icon ü"), "my-app_icon_ü-64.png");
}

#[test]
fn binding_styles_and_files() {
    assert_eq!(Style::Lua.label(), "Hyprland Lua config");
    assert_eq!(Style::Conf.label(), "Hyprland .conf config");
    assert_eq!(detect_style(Some(Parser::Lua), false), Style::Lua);
    assert_eq!(detect_style(Some(Parser::Legacy), true), Style::Conf);
    assert_eq!(detect_style(None, true), Style::Lua);
    assert_eq!(detect_style(None, false), Style::Conf);
    assert_eq!(config_files(Style::Lua), ("bindings.lua", "hyprland.lua"));
    assert_eq!(config_files(Style::Conf), ("bindings.conf", "hyprland.conf"));
    assert_eq!(file_stem("bindings.conf"), "bindings");
    assert_eq!(file_stem("a.b.c"), "a.b");
    assert_eq!(file_stem("plain"), "plain");
}

#[test]
fn split_file_only_when_sourced() {
    let conf = "source = ~/.config/hypr/bindings.conf\n";
    assert!(is_sourced(conf, "bindings"));
    assert!(!is_sourced("# source = bindings.conf\n", "bindings"));
    assert!(!is_sourced("  -- require(\"hypr.bindings\")", "bindings"));
    assert!(is_sourced("require(\"hypr.bindings\")\r\n", "bindings"));
    assert!(uses_split_file(Style::Conf, true, conf));
    assert!(!uses_split_file(Style::Conf, false, conf));
    assert!(!uses_split_file(Style::Lua, true, "-- nothing here"));
}

#[test]
fn appending_keeps_one_blank_line() {
    let plan = Plan { style: Style::Conf, file: std::path::PathBuf::from("/tmp/hyprland.conf") };
    let block = plan.block();
    assert!(block.starts_with("\n# sidetab:bindings"));
    assert!(block.contains("binde = ALT, TAB, exec, sidetab next"));
    let out = appended("exec-once = waybar\n\n\n", &block);
    assert!(out.starts_with("exec-once = waybar\n\n# sidetab:bindings"));
    assert_eq!(appended("", &block), block);
    assert!(!marker_present(Some("exec-once = waybar\n")));
    assert!(marker_present(Some(&out)));
    assert!(!marker_present(None));
    let lua = Plan { style: Style::Lua, file: std::path::PathBuf::from("/tmp/hyprland.lua") }.block();
    assert!(lua.starts_with("\n-- sidetab:bindings"));
    assert!(lua.contains(MARKER));
    assert!(lua.contains("hl.exec_cmd(\"sidetab daemon\")"));
}

#[test]
fn lua_block_uses_only_stock_api() {
    let lua = Plan { style: Style::Lua, file: std::path::PathBuf::from("/tmp/hyprland.lua") }.block();
    for line in lua.lines() {
        let code = line.trim_start();
        if code.is_empty() || code.starts_with("--") || code.starts_with('{') || code == "end)" {
            continue;
        }
        assert!(code.starts_with("hl."), "non-stock call: {code}");
    }
    assert!(!lua.contains("(o.") && !lua.contains(" o."));
}

#[test]
fn backups() {
    assert_eq!(backup_plan("", Some("conf")), None);
    assert_eq!(backup_plan("x", Some("conf")).as_deref(), Some("conf.sidetab.bak"));
    assert_eq!(backup_plan("x", None).as_deref(), Some("bak.sidetab.bak"));
}

#[test]
fn command_validation() {
    assert!(validate("next").is_ok());
    assert!(validate("next-ws").is_ok());
    assert!(validate("settings").is_ok());
    let err = validate("bogus").unwrap_err();
    assert_eq!(
        err,
        "unknown command 'bogus'. Available: daemon, next, prev, next-ws, prev-ws, commit, toggle, show, hide, search, settings"
    );
    assert_eq!(commands().len(), 10);
}

fn client(address: &str, class: &str) -> Client {
    Client {
        address: address.to_string(),
        at: [0, 0],
        size: [1, 1],
        class: class.to_string(),
        initial_class: class.to_string(),
        title: String::new(),
        workspace: WorkspaceRef { id: 1, name: "1".to_string() },
        focus_history_id: 0,
        mapped: true,
        hidden: false,
        pid: 0,
        pinned: false,
        floating: false,
        monitor: 0,
        fullscreen: 0,
    }
}

#[test]
fn daemon_routing() {
    assert_eq!(route("quit"), Route::Quit);
    assert_eq!(route("settings"), Route::Settings);
    assert_eq!(route("next"), Route::Panel);
    assert_eq!(control_command("  next \n").as_deref(), Some("next"));
    assert_eq!(control_command(" \n"), None);
    let cs = vec![client("0x1", "kitty"), client("0x2", "sidetab"), client("0x3", "sidetab")];
    assert_eq!(own_address(&cs).as_deref(), Some("0x2"));
    assert_eq!(own_address(&cs[..1]), None);
}

#[test]
fn embedded_icons() {
    let a = Assets;
    let svg = a.load("icons/search.svg").unwrap();
    assert!(svg.starts_with("<svg xmlns=\"http://www.w3.org/2000/svg\""));
    assert!(svg.ends_with("</svg>"));
    assert!(svg.contains("<circle cx=\"11\" cy=\"11\" r=\"8\"/>"));
    for p in ["icons/settings.svg", "icons/panel.svg", "icons/appearance.svg", "icons/pin.svg", "icons/keys.svg", "icons/info.svg", "icons/x.svg"] {
        assert!(a.load(p).is_some(), "{p}");
    }
    assert!(a.load("icons/missing.svg").is_none());
    assert!(a.list("icons").is_empty());
}

#[test]
fn delay_steppers() {
    assert_eq!(step_show_delay(120, true), 150);
    assert_eq!(step_show_delay(590, true), 600);
    assert_eq!(step_show_delay(20, false), 0);
    assert_eq!(step_show_delay(120, false), 90);
    assert_eq!(step_hide_delay(300, true), 350);
    assert_eq!(step_hide_delay(1990, true), 2000);
    assert_eq!(step_hide_delay(40, false), 0);
}

#[test]
fn settings_search_field() {
    let mut q = String::new();
    assert!(search_key(&mut q, "f", Some("f")));
    assert!(search_key(&mut q, "i", Some("i")));
    assert_eq!(q, "fi");
    assert!(!search_key(&mut q, "ctrl", Some("\u{1}")));
    assert!(search_key(&mut q, "backspace", None));
    assert_eq!(q, "f");
    assert!(search_key(&mut q, "escape", None));
    assert_eq!(q, "");
    assert!(!search_key(&mut q, "escape", None));
    assert!(!search_key(&mut q, "shift", None));
}

fn app(name: &str) -> DesktopApp {
    DesktopApp { name: name.to_string(), class: name.to_lowercase(), exec_line: String::new(), icon: None }
}

#[test]
fn settings_app_search_and_pin_buttons() {
    let apps = vec![app("Firefox"), app("Files"), app("Kitty")];
    assert_eq!(matching_apps(&apps, ""), vec![0, 1, 2]);
    assert_eq!(matching_apps(&apps, "FI"), vec![0, 1]);
    assert_eq!(matching_apps(&apps, "zz"), Vec::<usize>::new());
    let full: Vec<String> = (0..5).map(|i| format!("app{i}")).collect();
    assert!(pin_disabled(&full, "firefox"));
    assert!(!pin_disabled(&full, "app3"));
    assert!(!pin_disabled(&vec!["a".to_string()], "firefox"));
}
