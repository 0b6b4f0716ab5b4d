//! The Hyprland keybindings (and daemon autostart) sidetab installs into
//! the user's config, so a fresh install doesn't require hand-copying a
//! snippet out of the README.
//!
//! Hyprland 0.56 added a Lua config alongside the classic `.conf` one and
//! Omarchy 4 switched to it. The two are written completely differently, and
//! a block placed in the wrong one is read by nobody — which is the failure
//! this command exists to prevent. The live parser is authoritative when
//! Hyprland is running; otherwise the config files on disk decide.
//!
//! Only stock `hl.*` Lua API is emitted, never Omarchy's `o.*` helpers, so
//! the block works on any Lua config rather than Omarchy's specifically.
//!
//! The program reads and writes the files; this module decides which file,
//! which dialect, and what the file holds afterwards.

use crate::hypr::ctl::Parser;
use crate::text;
use vstd::prelude::*;

verus! {

#[verifier::external_type_specification]
#[verifier::external_body]
pub struct ExPathBuf(std::path::PathBuf);

/// Marker kept in the block's first line. Presence of this string anywhere
/// in the target file means sidetab already installed its bindings.
pub const MARKER: &'static str = "sidetab:bindings";

#[derive(Clone, Copy, PartialEq, Eq, Debug, Structural)]
pub enum Style {
    /// `hyprland.lua` — Hyprland 0.56+, Omarchy 4.
    Lua,
    /// `hyprland.conf` — the classic parser, Omarchy 3.
    Conf,
}

pub open spec fn style_label(s: Style) -> Seq<char> {
    match s {
        Style::Lua => "Hyprland Lua config"@,
        Style::Conf => "Hyprland .conf config"@,
    }
}

impl Style {
    pub fn label(self) -> (r: &'static str)
        ensures
            r@ == style_label(self),
    {
        match self {
            Style::Lua => "Hyprland Lua config",
            Style::Conf => "Hyprland .conf config",
        }
    }
}

/// The Lua block: a comment line carrying the marker, then the bindings.
pub const LUA_HEAD: &'static str = "\n-- ";

pub const LUA_BODY: &'static str = r#" — window switcher (https://github.com/igaurab/sidetab)
-- ALT+TAB and SUPER+TAB are unbound first so these replace whatever the
-- distro bound them to.
hl.unbind("ALT + TAB")
hl.unbind("ALT + SHIFT + TAB")
hl.unbind("SUPER + TAB")

hl.bind("ALT + TAB", hl.dsp.exec_cmd("sidetab next"),
  { repeating = true, description = "Window switcher" })
hl.bind("ALT + SHIFT + TAB", hl.dsp.exec_cmd("sidetab prev"),
  { repeating = true, description = "Window switcher (reverse)" })
hl.bind("ALT + ALT_L", hl.dsp.exec_cmd("sidetab commit"),
  { release = true, transparent = true })

hl.bind("SUPER + TAB", hl.dsp.exec_cmd("sidetab next-ws"),
  { repeating = true, description = "Switch window on workspace" })
hl.bind("SUPER + SUPER_L", hl.dsp.exec_cmd("sidetab commit"),
  { release = true, transparent = true })

-- Optional: fuzzy window search
-- hl.bind("SUPER + SLASH", hl.dsp.exec_cmd("sidetab search"),
--   { description = "Window search" })

hl.on("hyprland.start", function()
  hl.exec_cmd("sidetab daemon")
end)
"#;

/// The `.conf` block: a comment line carrying the marker, then the
/// bindings.
pub const CONF_HEAD: &'static str = "\n# ";

pub const CONF_BODY: &'static str = r#" — window switcher (https://github.com/igaurab/sidetab)
# ALT+TAB and SUPER+TAB are unbound first so these replace whatever the
# distro bound them to.
unbind = ALT, TAB
unbind = ALT SHIFT, TAB
unbind = SUPER, TAB

binde = ALT, TAB, exec, sidetab next
binde = ALT SHIFT, TAB, exec, sidetab prev
bindrt = ALT, ALT_L, exec, sidetab commit

binde = SUPER, TAB, exec, sidetab next-ws
bindrt = SUPER, SUPER_L, exec, sidetab commit

# Optional: fuzzy window search
# bindd = SUPER, SLASH, Window search, exec, sidetab search

exec-once = sidetab daemon
"#;

/// The block written in `style`'s dialect: its comment opener, the marker,
/// and the bindings.
pub open spec fn block_text(style: Style) -> Seq<char> {
    match style {
        Style::Lua => LUA_HEAD@ + MARKER@ + LUA_BODY@,
        Style::Conf => CONF_HEAD@ + MARKER@ + CONF_BODY@,
    }
}

/// Where the block will be written, and in which dialect.
pub struct Plan {
    pub style: Style,
    pub file: std::path::PathBuf,
}

impl Plan {
    pub fn block(&self) -> (r: String)
        ensures
            r@ == block_text(self.style),
    {
        let (head, body) = match self.style {
            Style::Lua => (LUA_HEAD, LUA_BODY),
            Style::Conf => (CONF_HEAD, CONF_BODY),
        };
        let mut r = text::owned(head);
        text::push_str(&mut r, MARKER);
        text::push_str(&mut r, body);
        r
    }
}

/// Whether a sidetab block is already present in the target file, given
/// its content (`None` when it cannot be read).
pub fn marker_present(content: Option<&str>) -> (r: bool)
    ensures
        r == (match content {
            Some(c) => text::contains(c@, MARKER@),
            None => false,
        }),
{
    match content {
        Some(c) => text::str_contains(c, MARKER),
        None => false,
    }
}

/// Which dialect the user's Hyprland actually reads. A running Hyprland
/// answers definitively (`live`, its parser); otherwise `hyprland.lua`
/// winning over `hyprland.conf` mirrors Hyprland's own preference when
/// both exist.
pub fn detect_style(live: Option<Parser>, lua_config_exists: bool) -> (s: Style)
    ensures
        s == (match live {
            Some(Parser::Lua) => Style::Lua,
            Some(Parser::Legacy) => Style::Conf,
            None => if lua_config_exists {
                Style::Lua
            } else {
                Style::Conf
            },
        }),
{
    match live {
        Some(Parser::Lua) => Style::Lua,
        Some(Parser::Legacy) => Style::Conf,
        None => {
            if lua_config_exists {
                Style::Lua
            } else {
                Style::Conf
            }
        },
    }
}

/// The dedicated bindings file and the main config file of a dialect
/// (names within the Hyprland config directory).
pub open spec fn config_file_names(style: Style) -> (Seq<char>, Seq<char>) {
    match style {
        Style::Lua => ("bindings.lua"@, "hyprland.lua"@),
        Style::Conf => ("bindings.conf"@, "hyprland.conf"@),
    }
}

pub fn config_files(style: Style) -> (r: (&'static str, &'static str))
    ensures
        (r.0@, r.1@) == config_file_names(style),
{
    match style {
        Style::Lua => ("bindings.lua", "hyprland.lua"),
        Style::Conf => ("bindings.conf", "hyprland.conf"),
    }
}

/// A file name without its last extension (`rsplit_once('.')`), or the
/// whole name when it has none.
pub open spec fn stem_of(name: Seq<char>) -> Seq<char> {
    let a = text::after_last(name, '.');
    if a.len() < name.len() {
        name.take(name.len() - a.len() - 1)
    } else {
        name
    }
}

pub fn file_stem(name: &str) -> (r: String)
    ensures
        r@ == stem_of(name@),
{
    let v = text::chars_of(name);
    let a = text::after_last_chars(v.as_slice(), '.');
    if a.len() < v.len() {
        let s = text::sub_vec(v.as_slice(), 0, v.len() - a.len() - 1);
        text::string_of(s.as_slice())
    } else {
        text::owned(name)
    }
}

/// A comment line, in either dialect (after leading whitespace).
pub open spec fn is_comment(line: Seq<char>) -> bool {
    let t = text::trim_start(line);
    text::starts_with(t, "#"@) || text::starts_with(t, "--"@)
}

/// Whether the main config pulls in the file named by `stem`: a
/// non-comment line mentions it (`require("hypr.bindings")`,
/// `source = ~/.config/hypr/bindings.conf`).
pub open spec fn sourced(main_text: Seq<char>, stem: Seq<char>) -> bool {
    exists|i: int|
        0 <= i < text::lines(main_text).len() && !is_comment(#[trigger] text::lines(main_text)[i])
            && text::contains(text::lines(main_text)[i], stem)
}

pub fn is_sourced(main_text: &str, stem: &str) -> (r: bool)
    ensures
        r == sourced(main_text@, stem@),
{
    let v = text::chars_of(main_text);
    let ls = text::lines_of(v.as_slice());
    let pat = text::chars_of(stem);
    let hash = text::chars_of("#");
    let dashes = text::chars_of("--");
    let mut i: usize = 0;
    while i < ls.len()
        invariant
            i <= ls@.len(),
            ls@.len() == text::lines(main_text@).len(),
            forall|k: int| 0 <= k < ls@.len() ==> #[trigger] ls@[k]@ == text::lines(main_text@)[k],
            pat@ == stem@,
            hash@ == "#"@,
            dashes@ == "--"@,
            forall|k: int|
                0 <= k < i ==> !(!is_comment(#[trigger] text::lines(main_text@)[k])
                    && text::contains(text::lines(main_text@)[k], stem@)),
        decreases ls@.len() - i,
    {
        let t = text::trim_start_chars(ls[i].as_slice());
        let comment = text::occurs_at_exec(t.as_slice(), hash.as_slice(), 0)
            || text::occurs_at_exec(t.as_slice(), dashes.as_slice(), 0);
        if !comment && text::contains_chars(ls[i].as_slice(), pat.as_slice()) {
            assert(!is_comment(text::lines(main_text@)[i as int]) && text::contains(
                text::lines(main_text@)[i as int],
                stem@,
            ));
            return true;
        }
        i = i + 1;
    }
    false
}

/// Whether the block goes into the dedicated bindings file rather than the
/// main config: only when that file exists (`split_exists`) and the main
/// config (`main_text`) actually pulls it in — writing to an orphaned
/// include would put the block somewhere Hyprland never reads.
pub fn uses_split_file(style: Style, split_exists: bool, main_text: &str) -> (r: bool)
    ensures
        r == (split_exists && sourced(main_text@, stem_of(config_file_names(style).0))),
{
    let (split, _) = config_files(style);
    let stem = file_stem(split);
    split_exists && is_sourced(main_text, stem.as_str())
}

/// What the file holds after the block is appended to `existing`: exactly
/// one line break between whatever was there (trailing whitespace dropped)
/// and the block.
pub open spec fn appended_text(existing: Seq<char>, block: Seq<char>) -> Seq<char> {
    let kept = text::trim_end(existing);
    if kept.len() == 0 {
        block
    } else {
        kept + seq!['\n'] + block
    }
}

pub fn appended(existing: &str, block: &str) -> (r: String)
    ensures
        r@ == appended_text(existing@, block@),
{
    let v = text::chars_of(existing);
    let kept = text::trim_end_chars(v.as_slice());
    let mut out = text::string_of(kept.as_slice());
    if kept.len() > 0 {
        text::push_char(&mut out, '\n');
    }
    text::push_str(&mut out, block);
    out
}

/// The extension of the backup copy of a config file with extension `ext`
/// (`bak` when it has none): the backup sits beside it as
/// `<name>.<ext>.sidetab.bak`. No backup is made of an empty file.
pub open spec fn backup_extension(existing: Seq<char>, ext: Option<Seq<char>>) -> Option<Seq<char>> {
    if existing.len() == 0 {
        None
    } else {
        Some(
            match ext {
                Some(e) => e,
                None => "bak"@,
            } + ".sidetab.bak"@,
        )
    }
}

pub fn backup_plan(existing: &str, ext: Option<&str>) -> (r: Option<String>)
    ensures
        match r {
            Some(s) => backup_extension(existing@, match ext {
                Some(e) => Some(e@),
                None => None,
            }) == Some(s@),
            None => backup_extension(existing@, match ext {
                Some(e) => Some(e@),
                None => None,
            }) is None,
        },
{
    if existing.is_empty() {
        return None;
    }
    let mut s = match ext {
        Some(e) => text::owned(e),
        None => text::owned("bak"),
    };
    text::push_str(&mut s, ".sidetab.bak");
    Some(s)
}

/// What `install` did.
pub enum Outcome {
    AlreadyInstalled { file: std::path::PathBuf },
    Installed { file: std::path::PathBuf, backup: Option<std::path::PathBuf>, reloaded: bool },
}


/// Installing is idempotent: once the block is appended to whatever the
/// file held, the file carries the marker, so the next install finds it
/// and leaves the file alone.
pub proof fn lemma_install_idempotent(existing: Seq<char>, style: Style)
    ensures
        text::contains(appended_text(existing, block_text(style)), MARKER@),
{
    let b = block_text(style);
    let head = match style {
        Style::Lua => LUA_HEAD@,
        Style::Conf => CONF_HEAD@,
    };
    let m = MARKER@;
    assert(b.subrange(head.len() as int, (head.len() + m.len()) as int) =~= m);
    let kept = text::trim_end(existing);
    let out = appended_text(existing, b);
    let pre: int = if kept.len() == 0 {
        0
    } else {
        (kept.len() + 1) as int
    };
    assert(out.subrange(pre + head.len(), pre + head.len() + m.len()) =~= b.subrange(
        head.len() as int,
        (head.len() + m.len()) as int,
    ));
    assert(text::occurs_at(out, m, pre + head.len()));
}

/// The block follows exactly one blank line: what the file held stays, up
/// to its last non-whitespace character, then a line break, then the
/// block, which opens with a line break of its own.
pub proof fn lemma_one_blank_line(existing: Seq<char>, style: Style)
    requires
        text::trim_end(existing).len() > 0,
    ensures
        ({
            let kept = text::trim_end(existing);
            let out = appended_text(existing, block_text(style));
            &&& out.take(kept.len() as int) == kept
            &&& !text::is_ws(kept.last())
            &&& out[kept.len() as int] == '\n'
            &&& out[(kept.len() + 1) as int] == '\n'
            &&& out.skip((kept.len() + 1) as int) == block_text(style)
        }),
{
    reveal_strlit("\n-- ");
    reveal_strlit("\n# ");
    text::lemma_trim_end_last(existing);
    let kept = text::trim_end(existing);
    let out = appended_text(existing, block_text(style));
    assert(out.take(kept.len() as int) =~= kept);
    assert(out.skip((kept.len() + 1) as int) =~= block_text(style));
    assert(block_text(style)[0] == '\n');
}

} // verus!
