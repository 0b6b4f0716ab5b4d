//! Hyprland's event socket (`.socket2.sock`): one `EVENT>>DATA` line per
//! event, turned into the few events the panel reacts to.

use crate::text;
use vstd::prelude::*;

verus! {

#[derive(Debug, Clone, PartialEq)]
pub enum HyprEvent {
    /// Window set changed (open/close/move/workspace change) — refresh list.
    WindowsChanged,
    ActiveWindowChanged,
    WindowTitle { address: String },
    FullscreenChanged(bool),
    ConfigReloaded,
}

/// Event names that change the window set.
pub open spec fn changes_windows(event: Seq<char>) -> bool {
    event == "openwindow"@ || event == "closewindow"@ || event == "movewindow"@ || event
        == "workspace"@ || event == "changefloatingmode"@
}

/// The address in a `windowtitlev2` payload (`ADDRESS,TITLE`): the part
/// before the first comma, `0x`-prefixed exactly once.
pub open spec fn title_address(data: Seq<char>) -> Seq<char> {
    "0x"@ + text::strip_prefixes(text::before_first(data, ','), "0x"@)
}

/// What event line `line` means to the panel, if anything.
pub open spec fn parsed(line: Seq<char>, r: Option<HyprEvent>) -> bool {
    match text::split_once_seq(line, ">>"@) {
        None => r is None,
        Some((event, data)) => if changes_windows(event) {
            r == Some(HyprEvent::WindowsChanged)
        } else if event == "activewindow"@ {
            r == Some(HyprEvent::ActiveWindowChanged)
        } else if event == "windowtitlev2"@ {
            r matches Some(HyprEvent::WindowTitle { address }) && address@ == title_address(data)
        } else if event == "fullscreen"@ {
            r == Some(HyprEvent::FullscreenChanged(text::trim(data) == "1"@))
        } else if event == "configreloaded"@ {
            r == Some(HyprEvent::ConfigReloaded)
        } else {
            r is None
        },
    }
}

/// Parse one line of the event socket.
pub fn parse_line(line: &str) -> (r: Option<HyprEvent>)
    ensures
        parsed(line@, r),
{
    let v = text::chars_of(line);
    let sep = text::chars_of(">>");
    let (event, data) = match text::split_once_pat(v.as_slice(), sep.as_slice()) {
        Some(p) => p,
        None => {
            return None;
        },
    };
    let e = text::string_of(event.as_slice());
    let e = e.as_str();
    if text::str_eq(e, "openwindow") || text::str_eq(e, "closewindow") || text::str_eq(
        e,
        "movewindow",
    ) || text::str_eq(e, "workspace") || text::str_eq(e, "changefloatingmode") {
        Some(HyprEvent::WindowsChanged)
    } else if text::str_eq(e, "activewindow") {
        Some(HyprEvent::ActiveWindowChanged)
    } else if text::str_eq(e, "windowtitlev2") {
        let pieces = text::split_chars(data.as_slice(), ',');
        proof {
            text::lemma_split_on_nonempty(data@, ',');
        }
        let first = &pieces[0];
        let hex = text::chars_of("0x");
        let bare = text::strip_prefixes_chars(first.as_slice(), hex.as_slice());
        let mut address = text::owned("0x");
        text::push_chars(&mut address, bare.as_slice());
        Some(HyprEvent::WindowTitle { address })
    } else if text::str_eq(e, "fullscreen") {
        let t = text::trim_chars(data.as_slice());
        let s = text::string_of(t.as_slice());
        Some(HyprEvent::FullscreenChanged(text::str_eq(s.as_str(), "1")))
    } else if text::str_eq(e, "configreloaded") {
        Some(HyprEvent::ConfigReloaded)
    } else {
        None
    }
}


/// A line whose event name holds no '>' splits at the first ">>" into
/// that name and everything after the separator.
proof fn lemma_split_event(name: Seq<char>, data: Seq<char>)
    requires
        forall|k: int| 0 <= k < name.len() ==> #[trigger] name[k] != '>',
    ensures
        text::split_once_seq(name + ">>"@ + data, ">>"@) == Some((name, data)),
{
    reveal_strlit(">>");
    reveal(text::first_occurrence);
    let line = name + ">>"@ + data;
    let sep = ">>"@;
    let n = name.len() as int;
    assert(line.subrange(n, n + 2) =~= sep);
    assert(text::occurs_at(line, sep, n));
    assert forall|j: int| 0 <= j < n implies !text::occurs_at(line, sep, j) by {
        if text::occurs_at(line, sep, j) {
            assert(line.subrange(j, j + 2)[0] == sep[0]);
            assert(line[j] == name[j]);
        }
    }
    assert(text::contains(line, sep));
    assert(exists|i: int|
        text::occurs_at(line, sep, i) && forall|j: int| 0 <= j < i ==> !text::occurs_at(line, sep, j))
        by {
        assert(text::occurs_at(line, sep, n) && forall|j: int|
            0 <= j < n ==> !text::occurs_at(line, sep, j));
    }
    let i = choose|i: int|
        text::occurs_at(line, sep, i) && forall|j: int| 0 <= j < i ==> !text::occurs_at(line, sep, j);
    assert(text::first_occurrence(line, sep) == Some(i));
    if i < n {
        assert(!text::occurs_at(line, sep, i));
    }
    if i > n {
        assert(!text::occurs_at(line, sep, n));
    }
    assert(i == n);
    assert(line.take(n) =~= name);
    assert(line.skip(n + 2) =~= data);
}

/// The panel refreshes its list whenever the window set may have changed:
/// a window opening, closing or moving, a workspace switch, or a window
/// toggling floating, whatever the event's payload.
pub proof fn lemma_window_set_events_refresh(name: Seq<char>, data: Seq<char>, r: Option<HyprEvent>)
    requires
        name == "openwindow"@ || name == "closewindow"@ || name == "movewindow"@ || name
            == "workspace"@ || name == "changefloatingmode"@,
        parsed(name + ">>"@ + data, r),
    ensures
        r == Some(HyprEvent::WindowsChanged),
{
    reveal_strlit("openwindow");
    reveal_strlit("closewindow");
    reveal_strlit("movewindow");
    reveal_strlit("workspace");
    reveal_strlit("changefloatingmode");
    assert forall|k: int| 0 <= k < name.len() implies #[trigger] name[k] != '>' by {}
    lemma_split_event(name, data);
}

/// `strip_prefixes` leaves no copy of the pattern at the front.
proof fn lemma_strip_prefixes_done(s: Seq<char>, pat: Seq<char>)
    requires
        pat.len() > 0,
    ensures
        !text::starts_with(text::strip_prefixes(s, pat), pat),
    decreases s.len(),
{
    if text::starts_with(s, pat) {
        lemma_strip_prefixes_done(s.skip(pat.len() as int), pat);
    }
}

/// A title event names its window in the form the client list uses: one
/// `0x` in front of the bare hexadecimal address, however the payload
/// spelled it.
pub proof fn lemma_title_address_normal(data: Seq<char>)
    ensures
        text::starts_with(title_address(data), "0x"@),
        !text::starts_with(title_address(data).skip(2), "0x"@),
{
    reveal_strlit("0x");
    let rest = text::strip_prefixes(text::before_first(data, ','), "0x"@);
    lemma_strip_prefixes_done(text::before_first(data, ','), "0x"@);
    let t = title_address(data);
    assert(t.subrange(0, 2) =~= "0x"@);
    assert(t.skip(2) =~= rest);
}

} // verus!
