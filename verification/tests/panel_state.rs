use sidetab::apps::DesktopApp;
use sidetab::config::CycleScope;
use sidetab::hypr::ctl::Dsp;
use sidetab::ui::panel::{
    app_for_pin, launchers, row_label, stock_binding, CmdPlan, HideDue, HoverAction, KeyAction, LaunchPlan, ListUpdate,
    Mode, Presence, Scope, HOLD_POLLS,
};
use sidetab::windows::WinEntry;

fn entry(address: &str, class: &str, ws: i64, focus: i64) -> WinEntry {
    WinEntry {
        address: address.to_string(),
        class: class.to_string(),
        initial_class: class.to_string(),
        title: format!("{class} title"),
        workspace_id: ws,
        workspace_name: ws.to_string(),
        focus_history_id: focus,
        fullscreen: false,
        floating: false,
        command: None,
    }
}

fn windows() -> Vec<WinEntry> {
    vec![
        entry("0x1", "firefox", 1, 0),
        entry("0x2", "kitty", 2, 1),
        entry("0x3", "code", 1, 2),
    ]
}

#[test]
fn new_presence_rests_hidden() {
    let p = Presence::new();
    assert_eq!(p.mode, Mode::Hidden);
    assert!(p.dirty);
    assert!(p.hover_armed);
    assert!(p.entries.is_empty());
}

#[test]
fn commands_plan_by_mode() {
    let p = Presence::new();
    let all = CycleScope::AllWorkspaces;
    let cur = CycleScope::CurrentWorkspace;
    assert_eq!(p.plan_cmd("next", all, cur), CmdPlan::StartCycle { scope: Scope::All, forward: true });
    assert_eq!(p.plan_cmd("prev", all, cur), CmdPlan::StartCycle { scope: Scope::All, forward: false });
    assert_eq!(p.plan_cmd("next-ws", all, cur), CmdPlan::StartCycle { scope: Scope::Workspace, forward: true });
    assert_eq!(p.plan_cmd("prev-ws", all, CycleScope::Disabled), CmdPlan::Stock { workspace: true, forward: false });
    assert_eq!(p.plan_cmd("next", CycleScope::Disabled, cur), CmdPlan::Stock { workspace: false, forward: true });
    assert_eq!(p.plan_cmd("commit", all, cur), CmdPlan::Ignore);
    assert_eq!(p.plan_cmd("toggle", all, cur), CmdPlan::Show);
    assert_eq!(p.plan_cmd("show", all, cur), CmdPlan::Show);
    assert_eq!(p.plan_cmd("hide", all, cur), CmdPlan::Hide);
    assert_eq!(p.plan_cmd("search", all, cur), CmdPlan::Search);
    assert_eq!(p.plan_cmd("bogus", all, cur), CmdPlan::Ignore);
}

#[test]
fn cycling_session_steps_and_commits() {
    let mut p = Presence::new();
    let g = p.start_cycle(Scope::All, true, windows(), None);
    assert_eq!(p.mode, Mode::Cycling);
    assert_eq!(g, p.reveal_gen);
    // most recently used *other* window: focus id 1 (kitty) is shown after
    // workspace 1's two windows
    assert_eq!(p.order, vec![0, 2, 1]);
    assert_eq!(p.selected, 2);
    let all = CycleScope::AllWorkspaces;
    assert_eq!(p.plan_cmd("next", all, all), CmdPlan::Step { forward: true });
    assert_eq!(p.plan_cmd("commit", all, all), CmdPlan::Commit);
    assert!(p.step(true));
    assert_eq!(p.selected, 0);
    assert!(p.step(false));
    assert_eq!(p.selected, 2);
    assert_eq!(p.selected_entry(), Some(1));
    assert_eq!(p.plan_cmd("toggle", all, all), CmdPlan::Hide);
}

#[test]
fn cycling_backwards_starts_on_the_last_row() {
    let mut p = Presence::new();
    p.start_cycle(Scope::All, false, windows(), None);
    assert_eq!(p.selected, 2);
}

#[test]
fn workspace_scope_keeps_active_workspace_only() {
    let mut p = Presence::new();
    p.start_cycle(Scope::Workspace, true, windows(), Some(1));
    let addrs: Vec<&str> = p.entries.iter().map(|e| e.address.as_str()).collect();
    assert_eq!(addrs, vec!["0x1", "0x3"]);
    let cur = CycleScope::CurrentWorkspace;
    assert_eq!(p.plan_cmd("next-ws", cur, cur), CmdPlan::Step { forward: true });
    assert_eq!(
        p.plan_cmd("next", CycleScope::AllWorkspaces, cur),
        CmdPlan::StartCycle { scope: Scope::All, forward: true }
    );
}

#[test]
fn quick_alt_tab_never_reveals() {
    let mut p = Presence::new();
    let g = p.start_cycle(Scope::All, true, windows(), None);
    p.park();
    assert_eq!(p.mode, Mode::Hidden);
    assert!(!p.reveal_due(g));
    assert_eq!(p.mode, Mode::Hidden);
}

#[test]
fn slow_alt_tab_reveals_when_due() {
    let mut p = Presence::new();
    let g = p.start_cycle(Scope::All, true, windows(), None);
    assert!(p.reveal_due(g));
    assert_eq!(p.mode, Mode::Cycling);
    let g2 = p.schedule_reveal();
    assert!(!p.reveal_due(g));
    assert!(p.reveal_due(g2));
}

#[test]
fn step_round_trip_restores_selection() {
    let mut p = Presence::new();
    p.show(windows());
    for start in 0..3 {
        p.selected = start;
        p.step(true);
        p.step(false);
        assert_eq!(p.selected, start);
        p.step(false);
        p.step(true);
        assert_eq!(p.selected, start);
    }
}

#[test]
fn step_on_empty_list_does_nothing() {
    let mut p = Presence::new();
    p.show(Vec::new());
    assert!(!p.step(true));
    assert_eq!(p.selected, 0);
}

#[test]
fn show_selects_most_recent_other_window() {
    let mut p = Presence::new();
    p.show(windows());
    assert_eq!(p.mode, Mode::Revealed);
    assert_eq!(p.scope, Scope::All);
    assert_eq!(p.selected, 2);
    assert!(!p.dirty);
}

#[test]
fn hover_reveal_and_hide_cycle() {
    let mut p = Presence::new();
    // the strip must be left once after an interaction; a fresh daemon is armed
    let reveal = p.poll_parked(true);
    assert_eq!(p.mode, Mode::HoverPending);
    let g = reveal.unwrap();
    assert!(p.reveal_due(g));
    assert_eq!(p.mode, Mode::Revealed);
    assert!(p.hover_originated);
    // cursor stays inside: no hide
    assert!(!p.poll_revealed(true, 300, false));
    // outside for 300ms worth of polls (2 * 180 >= 300)
    assert!(!p.poll_revealed(false, 300, false));
    assert!(p.poll_revealed(false, 300, false));
    p.park();
    assert!(!p.hover_armed);
    assert_eq!(p.poll_parked(true), None);
    assert_eq!(p.poll_parked(false), None);
    assert!(p.hover_armed);
}

#[test]
fn open_menu_waits_six_times_longer() {
    let mut p = Presence::new();
    let g = p.poll_parked(true).unwrap();
    p.reveal_due(g);
    let mut polls = 0;
    while !p.poll_revealed(false, 300, true) {
        polls += 1;
    }
    // 300 * 6 = 1800ms; 10 polls * 180ms reach it
    assert_eq!(polls, 9);
}

#[test]
fn hold_open_suppresses_hover_hide() {
    let mut p = Presence::new();
    let g = p.poll_parked(true).unwrap();
    p.reveal_due(g);
    p.hold_open();
    assert_eq!(p.hold_polls, HOLD_POLLS);
    for _ in 0..HOLD_POLLS {
        assert!(!p.poll_revealed(false, 0, false));
    }
    assert_eq!(p.hold_polls, 0);
    assert!(!p.poll_revealed(false, 0, false));
    assert!(p.poll_revealed(false, 0, false));
}

#[test]
fn leaving_the_strip_cancels_a_pending_reveal() {
    let mut p = Presence::new();
    let g = p.poll_parked(true).unwrap();
    assert_eq!(p.poll_parked(false), None);
    assert_eq!(p.mode, Mode::Hidden);
    assert!(!p.reveal_due(g));
}

#[test]
fn pointer_events_schedule_and_cancel() {
    let mut p = Presence::new();
    match p.hover_changed(true) {
        HoverAction::ScheduleReveal(g) => assert!(p.reveal_due(g)),
        other => panic!("unexpected {other:?}"),
    }
    let hide = match p.hover_changed(false) {
        HoverAction::ScheduleHide(g) => g,
        other => panic!("unexpected {other:?}"),
    };
    assert_eq!(p.hide_due(hide, true, 100), HideDue::Reschedule { generation: hide + 1, delay_ms: 150 });
    assert_eq!(p.hide_due(hide, false, 100), HideDue::Ignore);
    assert_eq!(p.hide_due(hide + 1, false, 400), HideDue::Hide);
    // pointer back: the pending hide goes stale
    p.hover_changed(true);
    assert_eq!(p.hide_due(hide + 1, false, 400), HideDue::Ignore);
}

#[test]
fn search_keys() {
    let mut p = Presence::new();
    p.start_search(windows());
    assert_eq!(p.mode, Mode::Search);
    assert_eq!(p.key("x", false, Some("\u{7}")), KeyAction::Ignore);
    assert_eq!(p.key("k", false, Some("k")), KeyAction::Redraw);
    assert_eq!(p.query, "k");
    assert_eq!(p.filtered, vec![1]);
    assert_eq!(p.selected, 0);
    assert_eq!(p.key("backspace", false, None), KeyAction::Redraw);
    assert_eq!(p.query, "");
    assert!(p.filtered.is_empty());
    assert_eq!(p.key("down", false, None), KeyAction::Redraw);
    assert_eq!(p.selected, 1);
    assert_eq!(p.key("tab", true, None), KeyAction::Redraw);
    assert_eq!(p.selected, 0);
    assert_eq!(p.key("escape", false, None), KeyAction::Rest);
    assert_eq!(p.key("enter", false, None), KeyAction::Commit);
}

#[test]
fn digits_jump_on_empty_query() {
    let mut p = Presence::new();
    p.start_search(windows());
    assert_eq!(p.key("3", false, Some("3")), KeyAction::Commit);
    assert_eq!(p.selected, 2);
    // a digit past the list is typed instead
    assert_eq!(p.key("9", false, Some("9")), KeyAction::Redraw);
    assert_eq!(p.query, "9");
    // once there is a query, digits are text
    assert_eq!(p.key("1", false, Some("1")), KeyAction::Redraw);
    assert_eq!(p.query, "91");
}

#[test]
fn row_badges_are_the_digits_that_pick_them() {
    let mut p = Presence::new();
    p.start_search(windows());
    assert_eq!(p.row_badge(0), Some(1));
    assert_eq!(p.row_badge(8), Some(9));
    assert_eq!(p.row_badge(9), None);
    let badge = p.row_badge(1).unwrap();
    let digit = badge.to_string();
    assert_eq!(p.key(&digit, false, Some(&digit)), KeyAction::Commit);
    assert_eq!(p.selected, 1);
    // a query hides the badges
    let mut q = Presence::new();
    q.start_search(windows());
    assert_eq!(q.key("k", false, Some("k")), KeyAction::Redraw);
    assert_eq!(q.row_badge(0), None);
}

#[test]
fn row_labels_fall_back_and_lead_with_commands() {
    let mut e = entry("0x9", "org.gnome.Nautilus", 1, 0);
    assert_eq!(row_label(&e), "org.gnome.Nautilus title");
    e.title = String::new();
    assert_eq!(row_label(&e), "Nautilus");
    e.class = "kitty".to_string();
    e.title = "user@host:~".to_string();
    e.command = Some("nvim".to_string());
    assert_eq!(row_label(&e), "nvim \u{2014} user@host:~");
}

#[test]
fn quick_tap_switches_to_previous_window() {
    let ws = vec![
        entry("0xa", "code", 1, 0),
        entry("0xb", "firefox", 1, 3),
        entry("0xc", "kitty", 2, 1),
        entry("0xd", "slack", 2, 2),
    ];
    let mut p = Presence::new();
    p.start_cycle(Scope::All, true, ws, None);
    let i = p.selected_entry().unwrap();
    assert_eq!(p.entries[i].address, "0xc");
    assert_eq!(p.entries[i].focus_history_id, 1);
}

#[test]
fn keys_outside_search_are_ignored() {
    let mut p = Presence::new();
    p.show(windows());
    assert_eq!(p.key("escape", false, None), KeyAction::Ignore);
    assert_eq!(p.key("a", false, Some("a")), KeyAction::Ignore);
    assert_eq!(p.query, "");
}

#[test]
fn window_events_by_mode() {
    let mut p = Presence::new();
    p.dirty = false;
    assert_eq!(p.windows_changed(), ListUpdate::Repark);
    assert!(p.dirty);
    p.show(windows());
    assert_eq!(p.windows_changed(), ListUpdate::Refresh);
    p.start_cycle(Scope::All, true, windows(), None);
    assert_eq!(p.windows_changed(), ListUpdate::Keep);
    p.park();
    p.dirty = false;
    assert!(p.active_window_changed());
    assert!(p.dirty);
}

#[test]
fn refresh_keeps_the_selected_window() {
    let mut p = Presence::new();
    p.show(windows());
    p.selected = 1; // 0x3 (code)
    let mut next = windows();
    next.insert(0, entry("0x9", "new", 1, 0));
    p.refresh_keeping(next, None);
    let i = p.selected_entry().unwrap();
    assert_eq!(p.entries[i].address, "0x3");
}

#[test]
fn title_changes_update_the_entry() {
    let mut p = Presence::new();
    p.show(windows());
    let i = p.title_changed("0x2").unwrap();
    p.set_entry_title(i, "new title".to_string(), Some("vim".to_string()));
    assert_eq!(p.entries[i].title, "new title");
    assert_eq!(p.entries[i].command.as_deref(), Some("vim"));
    p.dirty = false;
    assert_eq!(p.title_changed("0xffff"), None);
    assert!(p.dirty);
}

#[test]
fn pinning_a_window_twice_unpins_it() {
    let mut p = Presence::new();
    p.show(windows());
    p.toggle_pin_window("0x2".to_string(), windows(), None);
    assert!(p.is_pinned_window("0x2"));
    assert_eq!(p.groups[0].label, "Pinned");
    assert_eq!(p.order[0], 1);
    p.toggle_pin_window("0x2".to_string(), windows(), None);
    assert!(!p.is_pinned_window("0x2"));
    assert!(p.pinned_windows.is_empty());
}

#[test]
fn closed_pinned_windows_are_dropped() {
    let mut p = Presence::new();
    p.show(windows());
    p.toggle_pin_window("0x2".to_string(), windows(), None);
    let rest: Vec<WinEntry> = windows().into_iter().filter(|e| e.address != "0x2").collect();
    p.refresh(rest, None);
    assert!(p.pinned_windows.is_empty());
}

#[test]
fn hovering_a_row_selects_it_outside_cycling() {
    let mut p = Presence::new();
    p.show(windows());
    assert!(p.hover_row(0));
    assert_eq!(p.selected, 0);
    assert!(!p.hover_row(0));
    p.start_cycle(Scope::All, true, windows(), None);
    assert!(!p.hover_row(1));
}

#[test]
fn preview_reveal_only_from_parked() {
    let mut p = Presence::new();
    assert!(p.preview_reveal(windows()));
    assert_eq!(p.mode, Mode::Revealed);
    assert!(!p.hover_originated);
    assert!(!p.preview_reveal(windows()));
}

fn app(name: &str, class: &str, exec: &str) -> DesktopApp {
    DesktopApp {
        name: name.to_string(),
        class: class.to_string(),
        exec_line: exec.to_string(),
        icon: None,
    }
}

#[test]
fn launchers_name_and_launch_pinned_apps() {
    let apps = vec![app("Firefox Web Browser", "firefox", "firefox --new-window")];
    let pins = vec!["org.mozilla.firefox".to_string(), "obsidian".to_string()];
    let ls = launchers(&pins, &apps, &windows());
    assert_eq!(ls.len(), 2);
    assert_eq!(ls[0].name, "Firefox Web Browser");
    assert_eq!(ls[0].exec_line.as_deref(), Some("firefox --new-window"));
    assert!(ls[0].running);
    assert_eq!(ls[1].name, "Obsidian");
    assert_eq!(ls[1].exec_line, None);
    assert!(!ls[1].running);
    let mut p = Presence::new();
    p.show(windows());
    match p.launch_plan(&ls[0]) {
        LaunchPlan::Exec(cmd) => assert_eq!(cmd, "firefox --new-window"),
        other => panic!("unexpected {other:?}"),
    }
    assert!(matches!(p.launch_plan(&ls[1]), LaunchPlan::Nothing));
    let kitty = launchers(&vec!["kitty".to_string()], &Vec::new(), &windows());
    match p.launch_plan(&kitty[0]) {
        LaunchPlan::Focus(i) => assert_eq!(p.entries[i].class, "kitty"),
        other => panic!("unexpected {other:?}"),
    }
}

#[test]
fn disabled_shortcuts_hand_back_stock_behaviour() {
    let ws = stock_binding(true, false);
    assert_eq!(ws.len(), 1);
    assert!(matches!(ws[0], Dsp::WorkspaceRel { forward: false }));
    let cycle = stock_binding(false, true);
    assert_eq!(cycle.len(), 2);
    assert!(matches!(cycle[0], Dsp::CycleNext { prev: false }));
    assert!(matches!(cycle[1], Dsp::BringActiveToTop));
}

#[test]
fn pins_find_their_first_matching_app() {
    let apps = vec![
        app("Kitty", "kitty", "kitty"),
        app("Firefox", "org.mozilla.firefox", "firefox"),
        app("Firefox ESR", "firefox", "firefox-esr"),
    ];
    assert_eq!(app_for_pin(&apps, "firefox"), Some(1));
    assert_eq!(app_for_pin(&apps, "KITTY"), Some(0));
    assert_eq!(app_for_pin(&apps, "code"), None);
}
