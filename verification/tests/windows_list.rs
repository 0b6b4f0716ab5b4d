use sidetab::hypr::ctl::{Client, WorkspaceRef};
use sidetab::windows::{
    app_name, command_line, display_order, fetch, filter, first_child, group, is_terminal,
    is_job, stat_tpgid, terminal_command, WinEntry,
};

fn client(address: &str, class: &str, ws: i64, focus: i64) -> Client {
    Client {
        address: address.to_string(),
        at: [0, 0],
        size: [100, 100],
        class: class.to_string(),
        initial_class: class.to_string(),
        title: format!("{class} window"),
        workspace: WorkspaceRef { id: ws, name: ws.to_string() },
        focus_history_id: focus,
        mapped: true,
        hidden: false,
        pid: 0,
        pinned: false,
        floating: false,
        monitor: 0,
        fullscreen: 0,
    }
}

fn entry(address: &str, class: &str, ws: i64, focus: i64) -> WinEntry {
    WinEntry {
        address: address.to_string(),
        class: class.to_string(),
        initial_class: class.to_string(),
        title: String::new(),
        workspace_id: ws,
        workspace_name: ws.to_string(),
        focus_history_id: focus,
        fullscreen: false,
        floating: false,
        command: None,
    }
}

#[test]
fn fetch_orders_most_recent_first_and_drops_the_panel() {
    let mut hidden = client("0x3", "hidden", 1, 0);
    hidden.hidden = true;
    let mut special = client("0x4", "scratch", -98, 1);
    special.workspace.name = "special:magic".to_string();
    let clients = vec![
        client("0x1", "firefox", 1, 2),
        client("0x2", "sidetab", 1, 0),
        hidden,
        special,
        client("0x5", "kitty", 2, 1),
        client("0x6", "sidetab-settings", 1, 3),
    ];
    let commands = vec![None, None, None, None, Some("nvim".to_string()), None];
    let entries = fetch(clients, commands);
    let addrs: Vec<&str> = entries.iter().map(|e| e.address.as_str()).collect();
    assert_eq!(addrs, vec!["0x5", "0x1", "0x6"]);
    assert_eq!(entries[0].command.as_deref(), Some("nvim"));
}

#[test]
fn fetch_keeps_reported_order_for_equal_focus_ids() {
    let clients = vec![client("0xa", "a", 1, 5), client("0xb", "b", 1, 5), client("0xc", "c", 1, 1)];
    let entries = fetch(clients, vec![None, None, None]);
    let addrs: Vec<&str> = entries.iter().map(|e| e.address.as_str()).collect();
    assert_eq!(addrs, vec!["0xc", "0xa", "0xb"]);
}

#[test]
fn fetch_marks_only_real_fullscreen() {
    let mut maximized = client("0x1", "a", 1, 0);
    maximized.fullscreen = 1;
    let mut full = client("0x2", "b", 1, 1);
    full.fullscreen = 2;
    let entries = fetch(vec![maximized, full], vec![None, None]);
    assert!(!entries[0].fullscreen);
    assert!(entries[1].fullscreen);
}

#[test]
fn groups_follow_sections_in_order() {
    let mut e = vec![
        entry("0x1", "a", 2, 0),
        entry("0x2", "b", 1, 1),
        entry("0x3", "c", 2, 2),
        entry("0x4", "d", 1, 3),
        entry("0x5", "e", 3, 4),
        entry("0x6", "f", 1, 5),
    ];
    e[3].floating = true;
    e[4].fullscreen = true;
    let pinned = vec!["0x6".to_string()];
    let groups = group(&e, &pinned);
    let labels: Vec<&str> = groups.iter().map(|g| g.label.as_str()).collect();
    assert_eq!(labels, vec!["Pinned", "Full Screen", "Workspace 1", "Workspace 2", "Floating"]);
    let rows: Vec<Vec<usize>> = groups.iter().map(|g| g.rows.clone()).collect();
    assert_eq!(rows, vec![vec![5], vec![4], vec![1], vec![0, 2], vec![3]]);
    assert_eq!(display_order(&groups), vec![5, 4, 1, 0, 2, 3]);
}

#[test]
fn named_workspace_keeps_its_name() {
    let mut a = entry("0x1", "a", 7, 0);
    a.workspace_name = "code".to_string();
    let groups = group(&vec![a], &Vec::new());
    assert_eq!(groups.len(), 1);
    assert_eq!(groups[0].label, "code");
}

#[test]
fn empty_list_has_no_groups() {
    let groups = group(&Vec::new(), &vec!["0x1".to_string()]);
    assert!(groups.is_empty());
    assert!(display_order(&groups).is_empty());
}

#[test]
fn display_order_lists_every_window_once() {
    let mut e: Vec<WinEntry> = (0..9).map(|i| entry(&format!("0x{i}"), "x", (i % 3) + 1, i)).collect();
    e[2].floating = true;
    e[5].fullscreen = true;
    e[7].floating = true;
    e[7].fullscreen = true;
    let pinned = vec!["0x8".to_string(), "0xdead".to_string()];
    let mut order = display_order(&group(&e, &pinned));
    order.sort();
    assert_eq!(order, (0..9).collect::<Vec<usize>>());
}

#[test]
fn filter_ranks_matches_and_drops_the_rest() {
    let mut e = vec![entry("0x1", "firefox", 1, 0), entry("0x2", "kitty", 1, 1)];
    e[1].title = "nvim ~/src".to_string();
    assert_eq!(filter(&e, "fire"), vec![0]);
    assert_eq!(filter(&e, "nvim"), vec![1]);
    assert!(filter(&e, "zzzz").is_empty());
    assert_eq!(filter(&e, ""), vec![0, 1]);
}

#[test]
fn filter_searches_the_running_command() {
    let mut e = vec![entry("0x1", "kitty", 1, 0), entry("0x2", "foot", 1, 1)];
    e[1].command = Some("htop".to_string());
    assert_eq!(filter(&e, "htop"), vec![1]);
}

#[test]
fn app_name_capitalises_last_segment() {
    assert_eq!(app_name("org.mozilla.firefox"), "Firefox");
    assert_eq!(app_name("kitty"), "Kitty");
    assert_eq!(app_name("org.gnome."), "");
    assert_eq!(app_name(""), "");
    assert_eq!(app_name("éclair"), "Éclair");
}

#[test]
fn terminals_are_recognised() {
    assert!(is_terminal("kitty"));
    assert!(is_terminal("Alacritty"));
    assert!(is_terminal("com.mitchellh.ghostty"));
    assert!(is_terminal("org.wezfurlong.wezterm"));
    assert!(!is_terminal("firefox"));
    assert!(!is_terminal("stx"));
}

#[test]
fn terminal_command_only_asks_for_terminals() {
    assert_eq!(terminal_command("firefox", 42, |_| panic!("not a terminal")), None);
    assert_eq!(
        terminal_command("kitty", 42, |pid| Some(format!("pid {pid}"))),
        Some("pid 42".to_string())
    );
}

#[test]
fn proc_files_parse() {
    assert_eq!(first_child("1234 5678\n"), Some(1234));
    assert_eq!(first_child("  \n"), None);
    assert_eq!(first_child("abc"), None);
    let stat = "4321 (zsh (login)) S 1 4321 4321 34817 9999 4194304 0";
    assert_eq!(stat_tpgid(stat), Some(9999));
    assert_eq!(stat_tpgid("no paren here"), None);
    assert_eq!(stat_tpgid("1 (x) S 1 2"), None);
    assert!(is_job(100, 200));
    assert!(!is_job(100, 100));
    assert!(!is_job(100, 0));
}

#[test]
fn command_line_shows_program_and_three_args() {
    assert_eq!(command_line(b"/usr/bin/nvim\0main.rs\0"), Some("nvim main.rs".to_string()));
    assert_eq!(command_line(b"htop\0"), Some("htop".to_string()));
    assert_eq!(command_line(b"a\0b\0c\0d\0e\0"), Some("a b c d".to_string()));
    assert_eq!(command_line(b"\0\0"), None);
    assert_eq!(command_line(b""), None);
    let long = format!("/bin/{}\0", "x".repeat(60));
    let shown = command_line(long.as_bytes()).unwrap();
    assert_eq!(shown.chars().count(), 48);
    assert!(shown.ends_with('…'));
}
