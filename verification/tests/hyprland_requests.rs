use sidetab::hypr::ctl::{
    apply_panel_rules, batch, client_by_address, dispatch, dispatch_all, focus_current_or_last, focus_window,
    focused_monitor, lua_str, no_warps_enabled, parser, raise_window, remove_chrome,
    set_no_warps, settings_window_band, ActiveWindow, Client, Dsp, Parser, WorkspaceRef,
    CHROMELESS_TAG,
};
use sidetab::hypr::events::{parse_line, HyprEvent};
use sidetab::hypr::newest;

#[test]
fn parser_probe() {
    assert_eq!(parser(None), Parser::Legacy);
    assert_eq!(parser(Some("Invalid dispatcher")), Parser::Legacy);
    assert_eq!(parser(Some("error: keyword is non-legacy only")), Parser::Lua);
}

#[test]
fn lua_strings_are_escaped() {
    assert_eq!(lua_str("plain"), "'plain'");
    assert_eq!(lua_str("it's"), "'it\\'s'");
    assert_eq!(lua_str("a\\b"), "'a\\\\b'");
    assert_eq!(lua_str(""), "''");
}

/// Lua's reading of a single-quoted literal body: `\x` is `x`, the first
/// bare quote closes it. Returns the value and what follows the quote.
fn lua_read(body: &str) -> Option<(String, String)> {
    let mut out = String::new();
    let mut chars = body.chars();
    while let Some(c) = chars.next() {
        match c {
            '\'' => return Some((out, chars.collect())),
            '\\' => match chars.next() {
                Some(n) => out.push(n),
                None => out.push('\\'),
            },
            _ => out.push(c),
        }
    }
    None
}

#[test]
fn lua_strings_read_back() {
    assert_eq!(lua_str(r"a\'b"), r"'a\\\'b'");
    for s in ["plain", "it's", r"a\b", "", r"\\''\", "o'clock \\ x"] {
        let q = lua_str(s);
        assert!(q.starts_with('\''));
        assert_eq!(lua_read(&format!("{} tail", &q[1..])), Some((s.to_string(), " tail".to_string())));
    }
}

#[test]
fn legacy_dispatchers() {
    let p = Parser::Legacy;
    assert_eq!(
        dispatch(p, &Dsp::ResizeExact { w: 320, h: -5, addr: "0xab" }),
        "dispatch resizewindowpixel exact 320 -5,address:0xab"
    );
    assert_eq!(
        dispatch(p, &Dsp::MoveExact { x: -10, y: 0, addr: "0xab" }),
        "dispatch movewindowpixel exact -10 0,address:0xab"
    );
    assert_eq!(
        dispatch(p, &Dsp::Tag { add: true, tag: "t", addr: "0x1" }),
        "dispatch tagwindow +t address:0x1"
    );
    assert_eq!(
        dispatch(p, &Dsp::Tag { add: false, tag: "t", addr: "0x1" }),
        "dispatch tagwindow -t address:0x1"
    );
    assert_eq!(dispatch(p, &Dsp::FocusWindow("0x1")), "dispatch focuswindow address:0x1");
    assert_eq!(dispatch(p, &Dsp::FocusCurrentOrLast), "dispatch focuscurrentorlast");
    assert_eq!(dispatch(p, &Dsp::RaiseWindow("0x1")), "dispatch alterzorder top,address:0x1");
    assert_eq!(dispatch(p, &Dsp::BringActiveToTop), "dispatch bringactivetotop");
    assert_eq!(dispatch(p, &Dsp::CloseWindow("0x1")), "dispatch closewindow address:0x1");
    assert_eq!(dispatch(p, &Dsp::Exec("firefox --new")), "dispatch exec firefox --new");
    assert_eq!(dispatch(p, &Dsp::CycleNext { prev: true }), "dispatch cyclenext prev");
    assert_eq!(dispatch(p, &Dsp::CycleNext { prev: false }), "dispatch cyclenext");
    assert_eq!(dispatch(p, &Dsp::WorkspaceRel { forward: true }), "dispatch workspace e+1");
    assert_eq!(dispatch(p, &Dsp::WorkspaceRel { forward: false }), "dispatch workspace e-1");
}

#[test]
fn lua_dispatchers() {
    let p = Parser::Lua;
    assert_eq!(
        dispatch(p, &Dsp::ResizeExact { w: 320, h: 600, addr: "0xab" }),
        "dispatch hl.dsp.window.resize({ exact = true, x = 320, y = 600, window = 'address:0xab' })"
    );
    assert_eq!(
        dispatch(p, &Dsp::MoveExact { x: 5, y: -7, addr: "0xab" }),
        "dispatch hl.dsp.window.move({ exact = true, x = 5, y = -7, window = 'address:0xab' })"
    );
    assert_eq!(
        dispatch(p, &Dsp::Tag { add: false, tag: "sidetab-nofocus", addr: "0x1" }),
        "dispatch hl.dsp.window.tag({ tag = '-sidetab-nofocus', window = 'address:0x1' })"
    );
    assert_eq!(
        dispatch(p, &Dsp::FocusWindow("0x1")),
        "dispatch hl.dsp.focus({ window = 'address:0x1' })"
    );
    assert_eq!(dispatch(p, &Dsp::FocusCurrentOrLast), "dispatch hl.dsp.focus({ last = true })");
    assert_eq!(
        dispatch(p, &Dsp::RaiseWindow("0x1")),
        "dispatch hl.dsp.window.alter_zorder({ mode = 'top', window = 'address:0x1' })"
    );
    assert_eq!(dispatch(p, &Dsp::BringActiveToTop), "dispatch hl.dsp.window.bring_to_top()");
    assert_eq!(
        dispatch(p, &Dsp::CloseWindow("0x1")),
        "dispatch hl.dsp.window.close({ window = 'address:0x1' })"
    );
    assert_eq!(
        dispatch(p, &Dsp::Exec("echo 'hi'")),
        "dispatch hl.dsp.exec_cmd('echo \\'hi\\'')"
    );
    assert_eq!(
        dispatch(p, &Dsp::CycleNext { prev: true }),
        "dispatch hl.dsp.window.cycle_next({ prev = true })"
    );
    assert_eq!(
        dispatch(p, &Dsp::WorkspaceRel { forward: false }),
        "dispatch hl.dsp.focus({ workspace = 'e-1' })"
    );
}

#[test]
fn batches() {
    assert_eq!(batch(&[]), None);
    assert_eq!(batch(&["a".to_string()]), Some("[[BATCH]]a".to_string()));
    assert_eq!(
        batch(&["a".to_string(), "b c".to_string()]),
        Some("[[BATCH]]a;b c".to_string())
    );
    assert_eq!(dispatch_all(Parser::Legacy, &[]), None);
    assert_eq!(
        dispatch_all(Parser::Legacy, &[Dsp::BringActiveToTop, Dsp::FocusCurrentOrLast]),
        Some("[[BATCH]]dispatch bringactivetotop;dispatch focuscurrentorlast".to_string())
    );
}

#[test]
fn panel_rules_in_both_spellings() {
    let legacy = apply_panel_rules(Parser::Legacy).unwrap();
    assert!(legacy.starts_with("[[BATCH]]keyword windowrule float on, match:class sidetab;"));
    assert_eq!(legacy.matches(';').count(), 10);
    assert!(legacy.contains("keyword windowrule rounding 12, match:tag sidetab-chromeless"));
    assert!(legacy.ends_with("keyword windowrule center on, match:class sidetab-settings"));
    let lua = apply_panel_rules(Parser::Lua).unwrap();
    assert!(lua.starts_with(
        "[[BATCH]]eval hl.window_rule({ float = true, match = { class = '^sidetab$' } });"
    ));
    assert!(lua.contains("eval hl.window_rule({ size = '680 600', match = { class = '^sidetab-settings$' } })"));
    assert!(lua.contains("{ rounding = 12, match = { tag = 'sidetab-chromeless' } }"));
}

#[test]
fn chrome_removal_drops_and_readds_the_tag() {
    let r = remove_chrome(Parser::Legacy, "0x5").unwrap();
    assert_eq!(
        r,
        format!(
            "[[BATCH]]dispatch tagwindow -{CHROMELESS_TAG} address:0x5;dispatch tagwindow +{CHROMELESS_TAG} address:0x5"
        )
    );
}

#[test]
fn no_warps_in_both_spellings() {
    assert!(no_warps_enabled(Some("int: 1\nset: true")));
    assert!(no_warps_enabled(Some("bool: true")));
    assert!(!no_warps_enabled(Some("int: 0")));
    assert!(!no_warps_enabled(None));
    assert_eq!(set_no_warps(Parser::Legacy, true), "keyword cursor:no_warps true");
    assert_eq!(
        set_no_warps(Parser::Lua, false),
        "eval hl.config({ cursor = { no_warps = false } })"
    );
}

#[test]
fn focusing_guards_the_cursor() {
    assert_eq!(
        focus_window(Parser::Legacy, true, "0x1"),
        "dispatch focuswindow address:0x1"
    );
    assert_eq!(
        focus_window(Parser::Legacy, false, "0x1"),
        "[[BATCH]]keyword cursor:no_warps true;dispatch focuswindow address:0x1;keyword cursor:no_warps false"
    );
    assert_eq!(
        focus_current_or_last(Parser::Lua, true),
        "dispatch hl.dsp.focus({ last = true })"
    );
    assert_eq!(raise_window(Parser::Legacy, "0x9"), "dispatch alterzorder top,address:0x9");
}

fn client(class: &str, mapped: bool, y: i64, h: i64) -> Client {
    Client {
        address: "0x1".to_string(),
        at: [10, y],
        size: [600, h],
        class: class.to_string(),
        initial_class: class.to_string(),
        title: String::new(),
        workspace: WorkspaceRef { id: 1, name: "1".to_string() },
        focus_history_id: 0,
        mapped,
        hidden: false,
        pid: 1,
        pinned: false,
        floating: true,
        monitor: 0,
        fullscreen: 0,
    }
}

#[test]
fn settings_band_and_monitor_choice() {
    let cs = vec![client("kitty", true, 0, 10), client("sidetab-settings", false, 1, 2), client("sidetab-settings", true, 200, 600)];
    assert_eq!(settings_window_band(&cs), Some((200, 600)));
    assert_eq!(settings_window_band(&cs[..1]), None);
    assert_eq!(focused_monitor(&[false, true, true]), Some(1));
    assert_eq!(focused_monitor(&[false, false]), Some(0));
    assert_eq!(focused_monitor(&[]), None);
}

#[test]
fn active_window_fullscreen_bit() {
    assert!(ActiveWindow { address: None, fullscreen: 2 }.is_fullscreen());
    assert!(ActiveWindow { address: None, fullscreen: 3 }.is_fullscreen());
    assert!(!ActiveWindow { address: None, fullscreen: 1 }.is_fullscreen());
}

#[test]
fn event_lines() {
    assert_eq!(parse_line("openwindow>>abc,1,kitty,title"), Some(HyprEvent::WindowsChanged));
    assert_eq!(parse_line("closewindow>>abc"), Some(HyprEvent::WindowsChanged));
    assert_eq!(parse_line("workspace>>2"), Some(HyprEvent::WindowsChanged));
    assert_eq!(parse_line("activewindow>>kitty,title"), Some(HyprEvent::ActiveWindowChanged));
    assert_eq!(
        parse_line("windowtitlev2>>55d0a1b2,nvim — ~/src, more"),
        Some(HyprEvent::WindowTitle { address: "0x55d0a1b2".to_string() })
    );
    assert_eq!(
        parse_line("windowtitlev2>>0x0x55d0,t"),
        Some(HyprEvent::WindowTitle { address: "0x55d0".to_string() })
    );
    assert_eq!(parse_line("fullscreen>>1"), Some(HyprEvent::FullscreenChanged(true)));
    assert_eq!(parse_line("fullscreen>> 0 "), Some(HyprEvent::FullscreenChanged(false)));
    assert_eq!(parse_line("configreloaded>>"), Some(HyprEvent::ConfigReloaded));
    assert_eq!(parse_line("focusedmon>>DP-1,1"), None);
    assert_eq!(parse_line("openwindow"), None);
    assert_eq!(parse_line(""), None);
}

#[test]
fn newest_instance() {
    assert_eq!(newest(&[]), None);
    assert_eq!(newest(&[5, 9, 9, 1]), Some(1));
    assert_eq!(newest(&[3]), Some(0));
}

#[test]
fn clients_found_by_address() {
    let mut a = client("kitty", true, 0, 10);
    a.address = "0xa".to_string();
    let mut b = client("firefox", true, 0, 10);
    b.address = "0xb".to_string();
    let mut b2 = client("firefox", true, 0, 10);
    b2.address = "0xb".to_string();
    let cs = vec![a, b, b2];
    assert_eq!(client_by_address(&cs, "0xb"), Some(1));
    assert_eq!(client_by_address(&cs, "0xa"), Some(0));
    assert_eq!(client_by_address(&cs, "0xc"), None);
}
