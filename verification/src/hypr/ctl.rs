//! Hyprland's command socket: the client records it reports, and the exact
//! request text of every query and dispatcher sidetab sends. The program
//! writes these requests to `.socket.sock` and hands the replies back.

use crate::config::CARD_ROUNDING;
use crate::text;
use vstd::prelude::*;

verus! {

/// A workspace as `j/clients` and `j/monitors` report it.
#[derive(Debug)]
pub struct WorkspaceRef {
    pub id: i64,
    pub name: String,
}

/// One window as `j/clients` reports it.
#[derive(Debug)]
pub struct Client {
    pub address: String,
    /// top-left position in logical layout coords
    pub at: [i64; 2],
    pub size: [i64; 2],
    pub class: String,
    pub initial_class: String,
    pub title: String,
    pub workspace: WorkspaceRef,
    pub focus_history_id: i64,
    pub mapped: bool,
    pub hidden: bool,
    pub pid: i64,
    pub pinned: bool,
    pub floating: bool,
    pub monitor: i64,
    /// 0 = not fullscreen (bitmask: 1 maximized, 2 fullscreen)
    pub fullscreen: i64,
}

/// The active window as `j/activewindow` reports it.
#[derive(Debug)]
pub struct ActiveWindow {
    pub address: Option<String>,
    pub fullscreen: i64,
}

impl ActiveWindow {
    /// True only for real fullscreen (bit 2). Bit 1 is "maximized", which
    /// does not cover pinned floating windows, so the hover strip must stay
    /// usable.
    pub fn is_fullscreen(&self) -> (r: bool)
        ensures
            r == (self.fullscreen & 2 != 0),
    {
        self.fullscreen & 2 != 0
    }
}

/// Which config parser the running Hyprland uses.
///
/// Hyprland 0.56 added a Lua config; Omarchy 4 adopts it, Omarchy 3 stays on
/// the legacy `.conf` parser. Under Lua, the socket rejects `keyword` outright
/// and reinterprets `dispatch <args>` as the Lua expression
/// `hl.dispatch(<args>)`, so both need a second spelling.
#[derive(Clone, Copy, PartialEq, Eq, Debug, Structural)]
pub enum Parser {
    Legacy,
    Lua,
}

/// The request that probes the parser: a bare `keyword` is a no-op the
/// legacy parser answers with its own usage error, while the Lua parser
/// answers with a refusal naming "non-legacy". Nothing is mutated either
/// way.
pub const PARSER_PROBE: &'static str = "keyword";

/// The parser that answered `reply` to [`PARSER_PROBE`] (`None` when the
/// request failed, which reads as the legacy parser).
pub fn parser(reply: Option<&str>) -> (p: Parser)
    ensures
        p == (match reply {
            Some(r) => if text::contains(r@, "non-legacy"@) {
                Parser::Lua
            } else {
                Parser::Legacy
            },
            None => Parser::Legacy,
        }),
{
    match reply {
        Some(r) => {
            if text::str_contains(r, "non-legacy") {
                Parser::Lua
            } else {
                Parser::Legacy
            }
        },
        None => Parser::Legacy,
    }
}

/// One character of a Lua single-quoted string literal: backslashes and
/// single quotes are escaped with a backslash.
pub open spec fn lua_escaped_char(c: char) -> Seq<char> {
    if c == '\\' {
        seq!['\\', '\\']
    } else if c == '\'' {
        seq!['\\', '\'']
    } else {
        seq![c]
    }
}

pub open spec fn lua_escaped(s: Seq<char>) -> Seq<char>
    decreases s.len(),
{
    if s.len() == 0 {
        Seq::empty()
    } else {
        lua_escaped(s.drop_last()) + lua_escaped_char(s.last())
    }
}

/// `s` as a Lua single-quoted string literal.
pub open spec fn lua_quoted(s: Seq<char>) -> Seq<char> {
    seq!['\''] + lua_escaped(s) + seq!['\'']
}

/// Lua's reading of the body of a single-quoted string literal, from just
/// after the opening quote: `\x` stands for `x`, and the first bare `'`
/// closes the literal. The value read and the text after the closing
/// quote; `None` when the literal is never closed.
pub open spec fn lua_read(e: Seq<char>) -> Option<(Seq<char>, Seq<char>)>
    decreases e.len(),
{
    if e.len() == 0 {
        None
    } else if e[0] == '\'' {
        Some((Seq::empty(), e.drop_first()))
    } else if e[0] == '\\' && e.len() >= 2 {
        match lua_read(e.skip(2)) {
            Some((v, rest)) => Some((seq![e[1]] + v, rest)),
            None => None,
        }
    } else {
        match lua_read(e.drop_first()) {
            Some((v, rest)) => Some((seq![e[0]] + v, rest)),
            None => None,
        }
    }
}

proof fn lemma_lua_escaped_front(s: Seq<char>)
    requires
        s.len() > 0,
    ensures
        lua_escaped(s) == lua_escaped_char(s[0]) + lua_escaped(s.drop_first()),
    decreases s.len(),
{
    if s.len() == 1 {
        assert(s.drop_last() =~= Seq::<char>::empty());
        assert(s.drop_first() =~= Seq::<char>::empty());
        assert(lua_escaped(s.drop_first()) =~= Seq::<char>::empty());
        assert(lua_escaped(s) =~= lua_escaped_char(s[0]));
    } else {
        let init = s.drop_last();
        lemma_lua_escaped_front(init);
        assert(init.drop_first() =~= s.drop_first().drop_last());
        assert(s.drop_first().last() == s.last());
        assert(init[0] == s[0]);
        assert(lua_escaped(s) =~= lua_escaped_char(s[0]) + lua_escaped(s.drop_first()));
    }
}

/// Lua reads the quoted form back as the text itself: the literal body
/// `lua_str` writes closes exactly at its final quote, holding `s`.
pub proof fn lemma_lua_quoted_reads_back(s: Seq<char>, tail: Seq<char>)
    ensures
        lua_quoted(s) == seq!['\''] + lua_escaped(s) + seq!['\''],
        lua_read(lua_escaped(s) + seq!['\''] + tail) == Some((s, tail)),
    decreases s.len(),
{
    let e = lua_escaped(s) + seq!['\''] + tail;
    if s.len() == 0 {
        assert(lua_escaped(s) =~= Seq::<char>::empty());
        assert(e[0] == '\'');
        assert(e.drop_first() =~= tail);
    } else {
        let c = s[0];
        let r = s.drop_first();
        lemma_lua_escaped_front(s);
        lemma_lua_quoted_reads_back(r, tail);
        let x = lua_escaped(r) + seq!['\''] + tail;
        assert(e =~= lua_escaped_char(c) + x);
        if c == '\\' || c == '\'' {
            assert(e[0] == '\\' && e[1] == c);
            assert(e.skip(2) =~= x);
        } else {
            assert(e[0] == c);
            assert(e.drop_first() =~= x);
        }
        assert(seq![c] + r =~= s);
    }
}

/// Escape a Lua single-quoted string literal. Addresses and tags are
/// sidetab's own, but window titles reach `exec` lines from arbitrary apps.
pub fn lua_str(s: &str) -> (r: String)
    ensures
        r@ == lua_quoted(s@),
{
    let v = text::chars_of(s);
    let mut r = text::owned("'");
    let ghost start = r@;
    let mut i: usize = 0;
    while i < v.len()
        invariant
            i <= v@.len(),
            v@ == s@,
            r@ == start + lua_escaped(v@.take(i as int)),
        decreases v@.len() - i,
    {
        let c = v[i];
        if c == '\\' {
            text::push_char(&mut r, '\\');
            text::push_char(&mut r, '\\');
        } else if c == '\'' {
            text::push_char(&mut r, '\\');
            text::push_char(&mut r, '\'');
        } else {
            text::push_char(&mut r, c);
        }
        assert(v@.take(i + 1).drop_last() =~= v@.take(i as int));
        assert(r@ =~= start + lua_escaped(v@.take(i + 1)));
        i = i + 1;
    }
    assert(v@.take(v@.len() as int) =~= v@);
    text::push_char(&mut r, '\'');
    proof {
        reveal_strlit("'");
        assert(r@ =~= lua_quoted(s@));
    }
    r
}

/// The dispatchers sidetab uses, spelled for whichever parser is live.
///
/// Kept as a closed enum rather than free-form strings so that adding a
/// dispatcher forces both spellings to be written.
#[derive(Debug, Clone, Copy)]
pub enum Dsp<'a> {
    ResizeExact { w: i64, h: i64, addr: &'a str },
    MoveExact { x: i64, y: i64, addr: &'a str },
    Tag { add: bool, tag: &'a str, addr: &'a str },
    FocusWindow(&'a str),
    FocusCurrentOrLast,
    RaiseWindow(&'a str),
    BringActiveToTop,
    CloseWindow(&'a str),
    Exec(&'a str),
    CycleNext { prev: bool },
    WorkspaceRel { forward: bool },
}

/// The sign of a tag change.
pub open spec fn tag_sign(add: bool) -> char {
    if add {
        '+'
    } else {
        '-'
    }
}

/// The relative workspace step.
pub open spec fn workspace_step(forward: bool) -> Seq<char> {
    if forward {
        "e+1"@
    } else {
        "e-1"@
    }
}

/// `dispatch <args>` for the legacy parser.
pub open spec fn legacy_text(d: Dsp) -> Seq<char> {
    match d {
        Dsp::ResizeExact { w, h, addr } => "dispatch resizewindowpixel exact "@ + text::int_dec(
            w as int,
        ) + " "@ + text::int_dec(h as int) + ",address:"@ + addr@,
        Dsp::MoveExact { x, y, addr } => "dispatch movewindowpixel exact "@ + text::int_dec(
            x as int,
        ) + " "@ + text::int_dec(y as int) + ",address:"@ + addr@,
        Dsp::Tag { add, tag, addr } => "dispatch tagwindow "@ + seq![tag_sign(add)] + tag@
            + " address:"@ + addr@,
        Dsp::FocusWindow(addr) => "dispatch focuswindow address:"@ + addr@,
        Dsp::FocusCurrentOrLast => "dispatch focuscurrentorlast"@,
        Dsp::RaiseWindow(addr) => "dispatch alterzorder top,address:"@ + addr@,
        Dsp::BringActiveToTop => "dispatch bringactivetotop"@,
        Dsp::CloseWindow(addr) => "dispatch closewindow address:"@ + addr@,
        Dsp::Exec(cmd) => "dispatch exec "@ + cmd@,
        Dsp::CycleNext { prev } => if prev {
            "dispatch cyclenext prev"@
        } else {
            "dispatch cyclenext"@
        },
        Dsp::WorkspaceRel { forward } => "dispatch workspace "@ + workspace_step(forward),
    }
}

/// The Lua window selector for `addr`.
pub open spec fn lua_window(addr: Seq<char>) -> Seq<char> {
    "window = "@ + lua_quoted("address:"@ + addr)
}

/// The Lua expression the 0.56 socket wraps in `hl.dispatch(...)`.
pub open spec fn lua_text(d: Dsp) -> Seq<char> {
    match d {
        Dsp::ResizeExact { w, h, addr } => "dispatch hl.dsp.window.resize({ exact = true, x = "@
            + text::int_dec(w as int) + ", y = "@ + text::int_dec(h as int) + ", "@ + lua_window(
            addr@,
        ) + " })"@,
        Dsp::MoveExact { x, y, addr } => "dispatch hl.dsp.window.move({ exact = true, x = "@
            + text::int_dec(x as int) + ", y = "@ + text::int_dec(y as int) + ", "@ + lua_window(
            addr@,
        ) + " })"@,
        Dsp::Tag { add, tag, addr } => "dispatch hl.dsp.window.tag({ tag = "@ + lua_quoted(
            seq![tag_sign(add)] + tag@,
        ) + ", "@ + lua_window(addr@) + " })"@,
        Dsp::FocusWindow(addr) => "dispatch hl.dsp.focus({ "@ + lua_window(addr@) + " })"@,
        Dsp::FocusCurrentOrLast => "dispatch hl.dsp.focus({ last = true })"@,
        Dsp::RaiseWindow(addr) => "dispatch hl.dsp.window.alter_zorder({ mode = 'top', "@
            + lua_window(addr@) + " })"@,
        Dsp::BringActiveToTop => "dispatch hl.dsp.window.bring_to_top()"@,
        Dsp::CloseWindow(addr) => "dispatch hl.dsp.window.close({ "@ + lua_window(addr@)
            + " })"@,
        Dsp::Exec(cmd) => "dispatch hl.dsp.exec_cmd("@ + lua_quoted(cmd@) + ")"@,
        Dsp::CycleNext { prev } => "dispatch hl.dsp.window.cycle_next({ prev = "@
            + text::bool_text(prev) + " })"@,
        Dsp::WorkspaceRel { forward } => "dispatch hl.dsp.focus({ workspace = "@ + lua_quoted(
            workspace_step(forward),
        ) + " })"@,
    }
}

/// The request for dispatcher `d` under parser `p`.
pub open spec fn encoded(p: Parser, d: Dsp) -> Seq<char> {
    match p {
        Parser::Legacy => legacy_text(d),
        Parser::Lua => lua_text(d),
    }
}

fn push_ws_step(s: &mut String, forward: bool)
    ensures
        final(s)@ == old(s)@ + workspace_step(forward),
{
    if forward {
        text::push_str(s, "e+1");
    } else {
        text::push_str(s, "e-1");
    }
}

fn legacy(d: &Dsp) -> (r: String)
    ensures
        r@ == legacy_text(*d),
{
    match *d {
        Dsp::ResizeExact { w, h, addr } => {
            let mut s = text::owned("dispatch resizewindowpixel exact ");
            text::push_i64(&mut s, w);
            text::push_str(&mut s, " ");
            text::push_i64(&mut s, h);
            text::push_str(&mut s, ",address:");
            text::push_str(&mut s, addr);
            s
        },
        Dsp::MoveExact { x, y, addr } => {
            let mut s = text::owned("dispatch movewindowpixel exact ");
            text::push_i64(&mut s, x);
            text::push_str(&mut s, " ");
            text::push_i64(&mut s, y);
            text::push_str(&mut s, ",address:");
            text::push_str(&mut s, addr);
            s
        },
        Dsp::Tag { add, tag, addr } => {
            let mut s = text::owned("dispatch tagwindow ");
            text::push_char(&mut s, if add { '+' } else { '-' });
            text::push_str(&mut s, tag);
            text::push_str(&mut s, " address:");
            text::push_str(&mut s, addr);
            assert(s@ =~= legacy_text(*d));
            s
        },
        Dsp::FocusWindow(addr) => {
            let mut s = text::owned("dispatch focuswindow address:");
            text::push_str(&mut s, addr);
            s
        },
        Dsp::FocusCurrentOrLast => text::owned("dispatch focuscurrentorlast"),
        Dsp::RaiseWindow(addr) => {
            let mut s = text::owned("dispatch alterzorder top,address:");
            text::push_str(&mut s, addr);
            s
        },
        Dsp::BringActiveToTop => text::owned("dispatch bringactivetotop"),
        Dsp::CloseWindow(addr) => {
            let mut s = text::owned("dispatch closewindow address:");
            text::push_str(&mut s, addr);
            s
        },
        Dsp::Exec(cmd) => {
            let mut s = text::owned("dispatch exec ");
            text::push_str(&mut s, cmd);
            s
        },
        Dsp::CycleNext { prev } => {
            if prev {
                text::owned("dispatch cyclenext prev")
            } else {
                text::owned("dispatch cyclenext")
            }
        },
        Dsp::WorkspaceRel { forward } => {
            let mut s = text::owned("dispatch workspace ");
            push_ws_step(&mut s, forward);
            s
        },
    }
}

fn push_lua_window(s: &mut String, addr: &str)
    ensures
        final(s)@ == old(s)@ + lua_window(addr@),
{
    text::push_str(s, "window = ");
    let mut target = text::owned("address:");
    text::push_str(&mut target, addr);
    let q = lua_str(target.as_str());
    text::push_str(s, q.as_str());
}

fn lua(d: &Dsp) -> (r: String)
    ensures
        r@ == lua_text(*d),
{
    match *d {
        Dsp::ResizeExact { w, h, addr } => {
            let mut s = text::owned("dispatch hl.dsp.window.resize({ exact = true, x = ");
            text::push_i64(&mut s, w);
            text::push_str(&mut s, ", y = ");
            text::push_i64(&mut s, h);
            text::push_str(&mut s, ", ");
            push_lua_window(&mut s, addr);
            text::push_str(&mut s, " })");
            s
        },
        Dsp::MoveExact { x, y, addr } => {
            let mut s = text::owned("dispatch hl.dsp.window.move({ exact = true, x = ");
            text::push_i64(&mut s, x);
            text::push_str(&mut s, ", y = ");
            text::push_i64(&mut s, y);
            text::push_str(&mut s, ", ");
            push_lua_window(&mut s, addr);
            text::push_str(&mut s, " })");
            s
        },
        Dsp::Tag { add, tag, addr } => {
            let mut signed = String::new();
            text::push_char(&mut signed, if add { '+' } else { '-' });
            text::push_str(&mut signed, tag);
            let mut s = text::owned("dispatch hl.dsp.window.tag({ tag = ");
            let q = lua_str(signed.as_str());
            text::push_str(&mut s, q.as_str());
            text::push_str(&mut s, ", ");
            push_lua_window(&mut s, addr);
            text::push_str(&mut s, " })");
            assert(signed@ =~= seq![tag_sign(add)] + tag@);
            s
        },
        Dsp::FocusWindow(addr) => {
            let mut s = text::owned("dispatch hl.dsp.focus({ ");
            push_lua_window(&mut s, addr);
            text::push_str(&mut s, " })");
            s
        },
        Dsp::FocusCurrentOrLast => text::owned("dispatch hl.dsp.focus({ last = true })"),
        Dsp::RaiseWindow(addr) => {
            let mut s = text::owned("dispatch hl.dsp.window.alter_zorder({ mode = 'top', ");
            push_lua_window(&mut s, addr);
            text::push_str(&mut s, " })");
            s
        },
        Dsp::BringActiveToTop => text::owned("dispatch hl.dsp.window.bring_to_top()"),
        Dsp::CloseWindow(addr) => {
            let mut s = text::owned("dispatch hl.dsp.window.close({ ");
            push_lua_window(&mut s, addr);
            text::push_str(&mut s, " })");
            s
        },
        Dsp::Exec(cmd) => {
            let mut s = text::owned("dispatch hl.dsp.exec_cmd(");
            let q = lua_str(cmd);
            text::push_str(&mut s, q.as_str());
            text::push_str(&mut s, ")");
            s
        },
        Dsp::CycleNext { prev } => {
            let mut s = text::owned("dispatch hl.dsp.window.cycle_next({ prev = ");
            text::push_bool(&mut s, prev);
            text::push_str(&mut s, " })");
            s
        },
        Dsp::WorkspaceRel { forward } => {
            let mut step = String::new();
            push_ws_step(&mut step, forward);
            let mut s = text::owned("dispatch hl.dsp.focus({ workspace = ");
            let q = lua_str(step.as_str());
            text::push_str(&mut s, q.as_str());
            text::push_str(&mut s, " })");
            assert(step@ =~= workspace_step(forward));
            s
        },
    }
}

/// The request that runs dispatcher `d` under parser `p`.
pub fn dispatch(p: Parser, d: &Dsp) -> (request: String)
    ensures
        request@ == encoded(p, *d),
{
    match p {
        Parser::Legacy => legacy(d),
        Parser::Lua => lua(d),
    }
}


/// The views of a list of request strings.
pub open spec fn texts(cmds: Seq<String>) -> Seq<Seq<char>> {
    cmds.map_values(|s: String| s@)
}

/// The view of an optional request.
pub open spec fn request_view(r: Option<String>) -> Option<Seq<char>> {
    match r {
        Some(s) => Some(s@),
        None => None,
    }
}

/// One request carrying many commands: `[[BATCH]]` and the commands joined
/// by `;`; no request at all for no commands.
pub open spec fn batch_text(cmds: Seq<Seq<char>>) -> Option<Seq<char>> {
    if cmds.len() == 0 {
        None
    } else {
        Some("[[BATCH]]"@ + text::join(cmds, ";"@))
    }
}

/// One connection, many commands.
pub fn batch(cmds: &[String]) -> (request: Option<String>)
    ensures
        request_view(request) == batch_text(texts(cmds@)),
{
    if cmds.len() == 0 {
        return None;
    }
    let mut pieces: Vec<Vec<char>> = Vec::new();
    let mut i: usize = 0;
    while i < cmds.len()
        invariant
            i <= cmds@.len(),
            pieces@.len() == i,
            forall|k: int| 0 <= k < i ==> #[trigger] pieces@[k]@ == cmds@[k]@,
        decreases cmds@.len() - i,
    {
        pieces.push(text::chars_of(cmds[i].as_str()));
        i = i + 1;
    }
    assert(pieces@.map_values(|p: Vec<char>| p@) =~= texts(cmds@));
    let mut r = text::owned("[[BATCH]]");
    let joined = text::join_chars(&pieces, ";");
    text::push_str(&mut r, joined.as_str());
    Some(r)
}

/// The requests of a list of dispatchers under parser `p`.
pub open spec fn encoded_all(p: Parser, ds: Seq<Dsp>) -> Seq<Seq<char>> {
    ds.map_values(|d: Dsp| encoded(p, d))
}

/// One connection, many dispatchers.
pub fn dispatch_all(p: Parser, ds: &[Dsp]) -> (request: Option<String>)
    ensures
        request_view(request) == batch_text(encoded_all(p, ds@)),
{
    let mut cmds: Vec<String> = Vec::new();
    let mut i: usize = 0;
    while i < ds.len()
        invariant
            i <= ds@.len(),
            cmds@.len() == i,
            forall|k: int| 0 <= k < i ==> #[trigger] cmds@[k]@ == encoded(p, ds@[k]),
        decreases ds@.len() - i,
    {
        cmds.push(dispatch(p, &ds[i]));
        i = i + 1;
    }
    assert(texts(cmds@) =~= encoded_all(p, ds@));
    batch(cmds.as_slice())
}

/// The first client with this address.
pub fn client_by_address(clients: &[Client], address: &str) -> (r: Option<usize>)
    ensures
        match r {
            Some(i) => i < clients@.len() && clients@[i as int].address@ == address@ && forall|j: int|
                0 <= j < i ==> #[trigger] clients@[j].address@ != address@,
            None => forall|j: int|
                0 <= j < clients@.len() ==> #[trigger] clients@[j].address@ != address@,
        },
{
    let mut i: usize = 0;
    while i < clients.len()
        invariant
            i <= clients@.len(),
            forall|j: int| 0 <= j < i ==> #[trigger] clients@[j].address@ != address@,
        decreases clients@.len() - i,
    {
        if text::str_eq(clients[i].address.as_str(), address) {
            return Some(i);
        }
        i = i + 1;
    }
    None
}

/// The tag that carries the chrome-removing rules.
pub const CHROMELESS_TAG: &'static str = "sidetab-chromeless";

/// Wayland app_id of the settings window.
pub const SETTINGS_CLASS: &'static str = "sidetab-settings";

/// The panel's window rules, each as (legacy rule body, Lua rule table):
/// floating, pinned across workspaces, chromeless, instant, never taking
/// keyboard focus while tagged, never taking over fullscreen, and the
/// settings window's placement. The Lua matcher is a regex, so the class
/// matches are anchored to keep the panel's rules off the settings window
/// (which contains "sidetab").
pub open spec fn panel_rules() -> Seq<(Seq<char>, Seq<char>)> {
    let tag = CHROMELESS_TAG@;
    let settings = SETTINGS_CLASS@;
    let rounding = text::int_dec(CARD_ROUNDING as int);
    seq![
        ("float on, match:class sidetab"@, "{ float = true, match = { class = '^sidetab$' } }"@),
        ("pin on, match:class sidetab"@, "{ pin = true, match = { class = '^sidetab$' } }"@),
        ("no_anim on, match:class sidetab"@, "{ no_anim = true, match = { class = '^sidetab$' } }"@),
        (
            "no_focus on, match:tag sidetab-nofocus"@,
            "{ no_focus = true, match = { tag = 'sidetab-nofocus' } }"@,
        ),
        (
            "border_size 0, match:tag "@ + tag,
            "{ border_size = 0, match = { tag = '"@ + tag + "' } }"@,
        ),
        (
            "no_shadow on, match:tag "@ + tag,
            "{ no_shadow = true, match = { tag = '"@ + tag + "' } }"@,
        ),
        (
            "rounding "@ + rounding + ", match:tag "@ + tag,
            "{ rounding = "@ + rounding + ", match = { tag = '"@ + tag + "' } }"@,
        ),
        (
            "sync_fullscreen off, match:class sidetab"@,
            "{ sync_fullscreen = false, match = { class = '^sidetab$' } }"@,
        ),
        (
            "float on, match:class "@ + settings,
            "{ float = true, match = { class = '^"@ + settings + "$' } }"@,
        ),
        (
            "size 680 600, match:class "@ + settings,
            "{ size = '680 600', match = { class = '^"@ + settings + "$' } }"@,
        ),
        (
            "center on, match:class "@ + settings,
            "{ center = true, match = { class = '^"@ + settings + "$' } }"@,
        ),
    ]
}

/// The command that installs one rule under parser `p`.
pub open spec fn rule_command(p: Parser, rule: (Seq<char>, Seq<char>)) -> Seq<char> {
    match p {
        Parser::Legacy => "keyword windowrule "@ + rule.0,
        Parser::Lua => "eval hl.window_rule("@ + rule.1 + ")"@,
    }
}

/// `prefix + a`, `prefix + a + b + c`, ... as owned strings.
fn cat2(a: &str, b: &str) -> (r: String)
    ensures
        r@ == a@ + b@,
{
    let mut r = text::owned(a);
    text::push_str(&mut r, b);
    r
}

fn cat3(a: &str, b: &str, c: &str) -> (r: String)
    ensures
        r@ == a@ + b@ + c@,
{
    let mut r = cat2(a, b);
    text::push_str(&mut r, c);
    r
}

fn cat5(a: &str, b: &str, c: &str, d: &str, e: &str) -> (r: String)
    ensures
        r@ == a@ + b@ + c@ + d@ + e@,
{
    let mut r = cat3(a, b, c);
    text::push_str(&mut r, d);
    text::push_str(&mut r, e);
    r
}

fn rule_pair(legacy: String, lua: String, p: Parser) -> (r: String)
    ensures
        r@ == rule_command(p, (legacy@, lua@)),
{
    match p {
        Parser::Legacy => cat2("keyword windowrule ", legacy.as_str()),
        Parser::Lua => cat3("eval hl.window_rule(", lua.as_str(), ")"),
    }
}

/// The request installing the panel's window rules (re-applied whenever
/// Hyprland reloads its config, which wipes them).
pub fn apply_panel_rules(p: Parser) -> (request: Option<String>)
    ensures
        request_view(request) == batch_text(panel_rules().map_values(|r: (Seq<char>, Seq<char>)| rule_command(p, r))),
{
    let mut rounding = String::new();
    text::push_i64(&mut rounding, CARD_ROUNDING);
    let rounding = rounding.as_str();
    let tag = CHROMELESS_TAG;
    let settings = SETTINGS_CLASS;
    let mut cmds: Vec<String> = Vec::new();
    cmds.push(rule_pair(
        text::owned("float on, match:class sidetab"),
        text::owned("{ float = true, match = { class = '^sidetab$' } }"),
        p,
    ));
    cmds.push(rule_pair(
        text::owned("pin on, match:class sidetab"),
        text::owned("{ pin = true, match = { class = '^sidetab$' } }"),
        p,
    ));
    cmds.push(rule_pair(
        text::owned("no_anim on, match:class sidetab"),
        text::owned("{ no_anim = true, match = { class = '^sidetab$' } }"),
        p,
    ));
    cmds.push(rule_pair(
        text::owned("no_focus on, match:tag sidetab-nofocus"),
        text::owned("{ no_focus = true, match = { tag = 'sidetab-nofocus' } }"),
        p,
    ));
    cmds.push(rule_pair(
        cat2("border_size 0, match:tag ", tag),
        cat3("{ border_size = 0, match = { tag = '", tag, "' } }"),
        p,
    ));
    cmds.push(rule_pair(
        cat2("no_shadow on, match:tag ", tag),
        cat3("{ no_shadow = true, match = { tag = '", tag, "' } }"),
        p,
    ));
    let mut legacy_rounding = cat3("rounding ", rounding, ", match:tag ");
    text::push_str(&mut legacy_rounding, tag);
    cmds.push(rule_pair(
        legacy_rounding,
        cat5("{ rounding = ", rounding, ", match = { tag = '", tag, "' } }"),
        p,
    ));
    cmds.push(rule_pair(
        text::owned("sync_fullscreen off, match:class sidetab"),
        text::owned("{ sync_fullscreen = false, match = { class = '^sidetab$' } }"),
        p,
    ));
    cmds.push(rule_pair(
        cat2("float on, match:class ", settings),
        cat3("{ float = true, match = { class = '^", settings, "$' } }"),
        p,
    ));
    cmds.push(rule_pair(
        cat2("size 680 600, match:class ", settings),
        cat3("{ size = '680 600', match = { class = '^", settings, "$' } }"),
        p,
    ));
    cmds.push(rule_pair(
        cat2("center on, match:class ", settings),
        cat3("{ center = true, match = { class = '^", settings, "$' } }"),
        p,
    ));
    assert(texts(cmds@) =~= panel_rules().map_values(|r: (Seq<char>, Seq<char>)| rule_command(p, r)));
    batch(cmds.as_slice())
}


/// The query for all windows (a JSON list of [`Client`]).
pub const CLIENTS_QUERY: &'static str = "j/clients";

/// The query for all monitors.
pub const MONITORS_QUERY: &'static str = "j/monitors";

/// The query for the active window (an [`ActiveWindow`]).
pub const ACTIVE_WINDOW_QUERY: &'static str = "j/activewindow";

/// The query for the cursor position.
pub const CURSOR_QUERY: &'static str = "cursorpos";

/// The request that makes Hyprland reload its config (as `hyprctl reload`).
pub const RELOAD_REQUEST: &'static str = "reload";

/// The query for the user's own `cursor:no_warps` setting.
pub const NO_WARPS_QUERY: &'static str = "getoption cursor:no_warps";

/// Strip the window's decorations: no focus border, no drop shadow, and a
/// rounding that matches the card so Hyprland's blur stays inside it.
///
/// The rules themselves are installed by [`apply_panel_rules`]; this
/// request forces Hyprland to (re-)evaluate them on the live window by
/// dropping and re-adding the chromeless tag (rules only land when a window
/// maps or its tags change).
pub fn remove_chrome(p: Parser, address: &str) -> (request: Option<String>)
    ensures
        request_view(request) == batch_text(
            seq![
                encoded(p, Dsp::Tag { add: false, tag: CHROMELESS_TAG, addr: address }),
                encoded(p, Dsp::Tag { add: true, tag: CHROMELESS_TAG, addr: address }),
            ],
        ),
{
    let ds = [
        Dsp::Tag { add: false, tag: CHROMELESS_TAG, addr: address },
        Dsp::Tag { add: true, tag: CHROMELESS_TAG, addr: address },
    ];
    let r = dispatch_all(p, &ds);
    assert(encoded_all(p, ds@) =~= seq![
        encoded(p, Dsp::Tag { add: false, tag: CHROMELESS_TAG, addr: address }),
        encoded(p, Dsp::Tag { add: true, tag: CHROMELESS_TAG, addr: address }),
    ]);
    r
}

/// Whether the reply to [`NO_WARPS_QUERY`] says the option is on: legacy
/// prints `int: 1`, the Lua parser reports the option's real bool type as
/// `bool: true`. A failed query reads as off.
pub fn no_warps_enabled(reply: Option<&str>) -> (on: bool)
    ensures
        on == (match reply {
            Some(r) => text::contains(r@, "int: 1"@) || text::contains(r@, "bool: true"@),
            None => false,
        }),
{
    match reply {
        Some(r) => text::str_contains(r, "int: 1") || text::str_contains(r, "bool: true"),
        None => false,
    }
}

/// Setting `cursor:no_warps`, in whichever spelling the live parser accepts.
pub open spec fn no_warps_text(p: Parser, on: bool) -> Seq<char> {
    match p {
        Parser::Legacy => "keyword cursor:no_warps "@ + text::bool_text(on),
        Parser::Lua => "eval hl.config({ cursor = { no_warps = "@ + text::bool_text(on)
            + " } })"@,
    }
}

pub fn set_no_warps(p: Parser, on: bool) -> (r: String)
    ensures
        r@ == no_warps_text(p, on),
{
    match p {
        Parser::Legacy => {
            let mut s = text::owned("keyword cursor:no_warps ");
            text::push_bool(&mut s, on);
            s
        },
        Parser::Lua => {
            let mut s = text::owned("eval hl.config({ cursor = { no_warps = ");
            text::push_bool(&mut s, on);
            text::push_str(&mut s, " } })");
            s
        },
    }
}

/// Dispatching without letting Hyprland warp the cursor to the focused
/// window: with `no_warps` already on (the user's own setting) the plain
/// dispatch; otherwise one batch that turns it on, dispatches and turns it
/// off again.
pub open spec fn no_warp_text(p: Parser, no_warps: bool, d: Dsp) -> Seq<char> {
    if no_warps {
        encoded(p, d)
    } else {
        "[[BATCH]]"@ + text::join(
            seq![no_warps_text(p, true), encoded(p, d), no_warps_text(p, false)],
            ";"@,
        )
    }
}

pub fn dispatch_no_warp(p: Parser, no_warps: bool, d: &Dsp) -> (request: String)
    ensures
        request@ == no_warp_text(p, no_warps, *d),
{
    if no_warps {
        dispatch(p, d)
    } else {
        let cmds = [set_no_warps(p, true), dispatch(p, d), set_no_warps(p, false)];
        let ghost views = seq![no_warps_text(p, true), encoded(p, *d), no_warps_text(p, false)];
        assert(texts(cmds@) =~= views);
        match batch(&cmds) {
            Some(r) => r,
            None => String::new(),
        }
    }
}

/// Focus a window (without warping the cursor).
pub fn focus_window(p: Parser, no_warps: bool, address: &str) -> (request: String)
    ensures
        request@ == no_warp_text(p, no_warps, Dsp::FocusWindow(address)),
{
    dispatch_no_warp(p, no_warps, &Dsp::FocusWindow(address))
}

/// Hand focus back to the previously focused window (without warping the
/// cursor).
pub fn focus_current_or_last(p: Parser, no_warps: bool) -> (request: String)
    ensures
        request@ == no_warp_text(p, no_warps, Dsp::FocusCurrentOrLast),
{
    dispatch_no_warp(p, no_warps, &Dsp::FocusCurrentOrLast)
}

/// Raise a window to the top of the stack. Hyprland marks raised windows
/// as allowed-over-fullscreen, so this is how both the panel and switch
/// targets stay visible above a fullscreen window.
pub fn raise_window(p: Parser, address: &str) -> (request: String)
    ensures
        request@ == encoded(p, Dsp::RaiseWindow(address)),
{
    dispatch(p, &Dsp::RaiseWindow(address))
}

/// The monitor the panel works on: the first focused one, else the first
/// one (`focused` lists each monitor's focus flag in reported order).
pub fn focused_monitor(focused: &[bool]) -> (r: Option<usize>)
    ensures
        match r {
            Some(i) => i < focused@.len() && (focused@[i as int] && forall|j: int|
                0 <= j < i ==> !#[trigger] focused@[j]) || (i == 0 && forall|j: int|
                0 <= j < focused@.len() ==> !#[trigger] focused@[j]),
            None => focused@.len() == 0,
        },
{
    let mut i: usize = 0;
    while i < focused.len()
        invariant
            i <= focused@.len(),
            forall|j: int| 0 <= j < i ==> !#[trigger] focused@[j],
        decreases focused@.len() - i,
    {
        if focused[i] {
            return Some(i);
        }
        i = i + 1;
    }
    if focused.len() == 0 {
        None
    } else {
        Some(0)
    }
}

/// Whether a client is the open settings window.
pub open spec fn is_settings_window(c: Client) -> bool {
    c.class@ == SETTINGS_CLASS@ && c.mapped && !c.hidden
}

/// Vertical extent (y, height) of the settings window, if it's open: the
/// first mapped, visible client of its class. The centered overlay preview
/// steers around it so the slider being dragged stays visible.
pub fn settings_window_band(clients: &[Client]) -> (r: Option<(i64, i64)>)
    ensures
        match r {
            Some((y, h)) => exists|i: int|
                0 <= i < clients@.len() && is_settings_window(#[trigger] clients@[i]) && (forall|
                    j: int,
                | 0 <= j < i ==> !is_settings_window(#[trigger] clients@[j])) && y
                    == clients@[i].at[1] && h == clients@[i].size[1],
            None => forall|i: int|
                0 <= i < clients@.len() ==> !is_settings_window(#[trigger] clients@[i]),
        },
{
    let mut i: usize = 0;
    while i < clients.len()
        invariant
            i <= clients@.len(),
            forall|j: int| 0 <= j < i ==> !is_settings_window(#[trigger] clients@[j]),
        decreases clients@.len() - i,
    {
        let c = &clients[i];
        if text::str_eq(c.class.as_str(), SETTINGS_CLASS) && c.mapped && !c.hidden {
            assert(is_settings_window(clients@[i as int]));
            return Some((c.at[1], c.size[1]));
        }
        i = i + 1;
    }
    None
}

} // verus!
