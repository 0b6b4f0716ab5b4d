//! The switcher panel's presence state machine: every reveal, hide, focus
//! and selection decision funnels through here. The program feeds it what
//! it observed (commands, Hyprland events, cursor polls, timers, keys, a
//! fresh window list) and performs what it answers.

use crate::apps::{self, DesktopApp};
use crate::config::CycleScope;
use crate::hypr::ctl::Dsp;
use crate::order;
use crate::text;
use crate::windows::{self, Group, WinEntry};
use vstd::prelude::*;

verus! {

#[derive(Debug, Clone, Copy, PartialEq, Eq, Structural)]
pub enum Mode {
    Hidden,
    /// Mouse is on the edge strip; reveal scheduled.
    HoverPending,
    /// Visible without keyboard focus (hover or `toggle`).
    Revealed,
    /// Alt is held; visible (or reveal pending), driven by next/prev/commit.
    Cycling,
    /// Keyboard-focused with a search field.
    Search,
}

/// Which windows a cycling session includes.
#[derive(Debug, Clone, Copy, PartialEq, Eq, Structural)]
pub enum Scope {
    All,
    /// Only the currently active workspace (Super+Tab).
    Workspace,
}

/// The panel's state apart from rendering: the window list and how it is
/// shown, the interaction mode, and the hover/timer bookkeeping.
#[derive(Debug)]
pub struct Presence {
    pub mode: Mode,
    pub scope: Scope,
    pub entries: Vec<WinEntry>,
    pub groups: Vec<Group>,
    /// entry indices in on-screen order (group by group)
    pub order: Vec<usize>,
    /// entry indices when a search query is active
    pub filtered: Vec<usize>,
    /// window addresses pinned to the top "Pinned" group (session-only)
    pub pinned_windows: Vec<String>,
    pub query: String,
    /// position within the current visible order
    pub selected: usize,
    pub dirty: bool,
    /// the current reveal came from edge hover (auto-hides on leave)
    pub hover_originated: bool,
    /// consecutive polls with the cursor outside the revealed panel
    pub outside_polls: u8,
    /// polls left in which hover auto-hide is suppressed
    pub hold_polls: u8,
    /// hover reveal is suppressed until the cursor has left the trigger
    /// zone once (prevents instant re-expansion right after switching)
    pub hover_armed: bool,
    pub reveal_gen: u64,
    pub hide_gen: u64,
}

/// Milliseconds between two cursor polls.
pub const POLL_MS: u64 = 180;

/// Polls a hover-revealed panel stays put after a resize under the cursor.
pub const HOLD_POLLS: u8 = 10;

impl Presence {
    /// The structural invariant: groups and display order are those of the
    /// current entries and pins, and every stored index names an entry.
    pub open spec fn wf(&self) -> bool {
        &&& self.list_ok()
        &&& self.query@.len() > 0 ==> forall|k: int|
            0 <= k < self.filtered@.len() ==> #[trigger] self.filtered@[k] < self.entries@.len()
    }

    /// Groups and display order are those of the current entries and pins.
    pub open spec fn list_ok(&self) -> bool {
        &&& self.entries@.len() <= usize::MAX
        &&& windows::groups_view(self.groups@) == windows::grouped(
            self.entries@,
            self.pinned_windows@,
        )
        &&& self.order@ == windows::order_of(windows::groups_view(self.groups@))
        &&& forall|k: int|
            0 <= k < self.order@.len() ==> #[trigger] self.order@[k] < self.entries@.len()
    }

    /// Whether a search query is narrowing the list.
    pub open spec fn is_searching(&self) -> bool {
        self.mode == Mode::Search && self.query@.len() > 0
    }

    /// The entry indices currently on screen, in order.
    pub open spec fn visible(&self) -> Seq<usize> {
        if self.is_searching() {
            self.filtered@
        } else {
            self.order@
        }
    }

    /// The bookkeeping fields other than the list and selection.
    pub open spec fn same_flags(&self, other: &Presence) -> bool {
        &&& self.mode == other.mode
        &&& self.scope == other.scope
        &&& self.query@ == other.query@
        &&& self.dirty == other.dirty
        &&& self.hover_originated == other.hover_originated
        &&& self.outside_polls == other.outside_polls
        &&& self.hold_polls == other.hold_polls
        &&& self.hover_armed == other.hover_armed
        &&& self.reveal_gen == other.reveal_gen
        &&& self.hide_gen == other.hide_gen
    }

    /// The list state: entries, pins, groups, order, filter, selection.
    pub open spec fn same_list(&self, other: &Presence) -> bool {
        &&& self.entries@ == other.entries@
        &&& self.pinned_windows@ == other.pinned_windows@
        &&& self.groups@ == other.groups@
        &&& self.order@ == other.order@
        &&& self.filtered@ == other.filtered@
        &&& self.selected == other.selected
    }

    /// The resting state the daemon starts in.
    pub fn new() -> (p: Presence)
        ensures
            p.wf(),
            p.mode == Mode::Hidden,
            p.scope == Scope::All,
            p.entries@.len() == 0,
            p.pinned_windows@.len() == 0,
            p.query@.len() == 0,
            p.selected == 0,
            p.dirty,
            !p.hover_originated,
            p.outside_polls == 0,
            p.hold_polls == 0,
            p.hover_armed,
            p.reveal_gen == 0,
            p.hide_gen == 0,
    {
        let entries: Vec<WinEntry> = Vec::new();
        let pinned: Vec<String> = Vec::new();
        let groups = windows::group(&entries, &pinned);
        let order = windows::display_order(&groups);
        proof {
            windows::lemma_order_bound(entries@, pinned@);
        }
        Presence {
            mode: Mode::Hidden,
            scope: Scope::All,
            entries,
            groups,
            order,
            filtered: Vec::new(),
            pinned_windows: pinned,
            query: String::new(),
            selected: 0,
            dirty: true,
            hover_originated: false,
            outside_polls: 0,
            hold_polls: 0,
            hover_armed: true,
            reveal_gen: 0,
            hide_gen: 0,
        }
    }

    pub fn searching(&self) -> (r: bool)
        ensures
            r == self.is_searching(),
    {
        self.mode == Mode::Search && !self.query.as_str().is_empty()
    }

    /// Number of rows on screen.
    pub fn visible_len(&self) -> (r: usize)
        ensures
            r == self.visible().len(),
    {
        if self.searching() {
            self.filtered.len()
        } else {
            self.order.len()
        }
    }

    /// The entry index shown at `position`, if any.
    pub fn visible_at(&self, position: usize) -> (r: Option<usize>)
        requires
            self.wf(),
        ensures
            position < self.visible().len() ==> r == Some(self.visible()[position as int]),
            position >= self.visible().len() ==> r is None,
            r matches Some(i) ==> i < self.entries@.len(),
    {
        if self.searching() {
            if position < self.filtered.len() {
                Some(self.filtered[position])
            } else {
                None
            }
        } else {
            if position < self.order.len() {
                Some(self.order[position])
            } else {
                None
            }
        }
    }

    /// The entry under the selection, if any.
    pub fn selected_entry(&self) -> (r: Option<usize>)
        requires
            self.wf(),
        ensures
            self.selected < self.visible().len() ==> r == Some(self.visible()[self.selected as int]),
            self.selected >= self.visible().len() ==> r is None,
            r matches Some(i) ==> i < self.entries@.len(),
    {
        self.visible_at(self.selected)
    }

    /// The selection kept inside a list of `len` rows.
    pub open spec fn clamped(sel: usize, len: nat) -> usize {
        if len == 0 {
            0
        } else if sel >= len {
            (len - 1) as usize
        } else {
            sel
        }
    }

    /// Rebuild the list from a fresh window list (`entries`, as
    /// [`windows::fetch`] returns it) and the focused monitor's active
    /// workspace. Pins whose window closed are dropped (checked against all
    /// windows, so pins on other workspaces survive); a workspace-scoped
    /// session then keeps only the active workspace's windows.
    pub fn refresh(&mut self, entries: Vec<WinEntry>, active_workspace: Option<i64>)
        ensures
            final(self).wf(),
            final(self).pinned_windows@ == kept_pins(old(self).pinned_windows@, entries@),
            final(self).entries@ == scoped(entries@, old(self).scope, active_workspace),
            !final(self).dirty,
            old(self).query@.len() > 0 ==> final(self).filtered@ == windows::ranked(
                windows::entry_scores(final(self).entries@, old(self).query@),
            ),
            old(self).query@.len() == 0 ==> final(self).filtered@ == old(self).filtered@,
            final(self).selected == Self::clamped(old(self).selected, final(self).visible().len()),
            final(self).mode == old(self).mode,
            final(self).scope == old(self).scope,
            final(self).query@ == old(self).query@,
            final(self).hover_originated == old(self).hover_originated,
            final(self).outside_polls == old(self).outside_polls,
            final(self).hold_polls == old(self).hold_polls,
            final(self).hover_armed == old(self).hover_armed,
            final(self).reveal_gen == old(self).reveal_gen,
            final(self).hide_gen == old(self).hide_gen,
    {
        // drop pins whose window closed
        let mut pins: Vec<String> = Vec::new();
        let ghost pred = |a: String| address_listed(entries@, a@);
        let mut i: usize = 0;
        while i < self.pinned_windows.len()
            invariant
                i <= self.pinned_windows@.len(),
                self.pinned_windows@ == old(self).pinned_windows@,
                pred == (|a: String| address_listed(entries@, a@)),
                pins@ == self.pinned_windows@.take(i as int).filter(pred),
            decreases self.pinned_windows@.len() - i,
        {
            let a = &self.pinned_windows[i];
            let mut found = false;
            let mut j: usize = 0;
            while j < entries.len()
                invariant
                    j <= entries@.len(),
                    found == exists|k: int| 0 <= k < j && entries@[k].address@ == a@,
                decreases entries@.len() - j,
            {
                if text::str_eq(entries[j].address.as_str(), a.as_str()) {
                    found = true;
                }
                j = j + 1;
            }
            proof {
                let pw = self.pinned_windows@;
                assert(pw.take(i + 1) =~= pw.take(i as int).push(pw[i as int]));
                pw.take(i as int).lemma_filter_push(pw[i as int], pred);
            }
            if found {
                pins.push(text::clone_string(a));
            }
            i = i + 1;
        }
        assert(self.pinned_windows@.take(self.pinned_windows@.len() as int) =~= self.pinned_windows@);
        // scope to the active workspace
        let ghost orig = entries@;
        let mut kept: Vec<WinEntry> = Vec::new();
        match (self.scope, active_workspace) {
            (Scope::Workspace, Some(id)) => {
                let ghost wpred = |e: WinEntry| e.workspace_id == id;
                let mut rest = entries;
                let n = rest.len();
                let mut k: usize = 0;
                while rest.len() > 0
                    invariant
                        n == orig.len(),
                        k <= n,
                        rest@ == orig.skip(k as int),
                        wpred == (|e: WinEntry| e.workspace_id == id),
                        kept@ == orig.take(k as int).filter(wpred),
                    decreases rest@.len(),
                {
                    let e = rest.remove(0);
                    proof {
                        assert(orig.take(k + 1) =~= orig.take(k as int).push(e));
                        orig.take(k as int).lemma_filter_push(e, wpred);
                        assert(rest@ =~= orig.skip(k + 1));
                    }
                    if e.workspace_id == id {
                        kept.push(e);
                    }
                    k = k + 1;
                }
                assert(orig.take(n as int) =~= orig);
            },
            _ => {
                kept = entries;
            },
        }
        let n_kept = kept.len();
        let groups = windows::group(&kept, &pins);
        let order = windows::display_order(&groups);
        proof {
            windows::lemma_order_bound(kept@, pins@);
        }
        if !self.query.as_str().is_empty() {
            self.filtered = windows::filter(&kept, self.query.as_str());
            proof {
                windows::lemma_ranked_bound(windows::entry_scores(kept@, self.query@));
            }
        }
        self.entries = kept;
        self.pinned_windows = pins;
        self.groups = groups;
        self.order = order;
        self.dirty = false;
        let len = self.visible_len();
        if len == 0 {
            self.selected = 0;
        } else if self.selected >= len {
            self.selected = len - 1;
        }
    }

    /// Display position of the most-recently-used *other* window: the
    /// entry with the smallest non-zero focus history id (the first of
    /// equals), located in the display order by its address; 0 when there
    /// is none.
    pub fn mru_position(&self) -> (r: usize)
        requires
            self.wf(),
        ensures
            r == mru_position_of(self.entries@, self.order@),
    {
        let mut best: Option<usize> = None;
        let mut i: usize = 0;
        while i < self.entries.len()
            invariant
                i <= self.entries@.len(),
                best == mru_best(self.entries@.take(i as int)),
                best matches Some(b) ==> b < i,
            decreases self.entries@.len() - i,
        {
            proof {
                assert(self.entries@.take(i + 1).drop_last() =~= self.entries@.take(i as int));
                assert(self.entries@.take(i + 1).last() == self.entries@[i as int]);
                match best {
                    Some(b) => {
                        assert(self.entries@.take(i + 1)[b as int] == self.entries@[b as int]);
                    },
                    None => {},
                }
            }
            let f = self.entries[i].focus_history_id;
            if f != 0 {
                match best {
                    None => {
                        best = Some(i);
                    },
                    Some(b) => {
                        if f < self.entries[b].focus_history_id {
                            best = Some(i);
                        }
                    },
                }
            }
            i = i + 1;
        }
        assert(self.entries@.take(self.entries@.len() as int) =~= self.entries@);
        match best {
            None => 0,
            Some(b) => {
                let addr = &self.entries[b].address;
                let mut k: usize = 0;
                while k < self.order.len()
                    invariant
                        k <= self.order@.len(),
                        self.wf(),
                        mru_best(self.entries@) == Some(b),
                        b < self.entries@.len(),
                        addr@ == self.entries@[b as int].address@,
                        forall|q: int| 0 <= q < k ==> !(#[trigger] self.entries@[self.order@[q] as int].address@ == addr@),
                        first_pos(self.entries@, self.order@, addr@) == first_pos_from(self.entries@, self.order@, addr@, k as int),
                    decreases self.order@.len() - k,
                {
                    if text::str_eq(self.entries[self.order[k]].address.as_str(), addr.as_str()) {
                        assert(first_pos_from(self.entries@, self.order@, addr@, k as int) == Some(
                            k as int,
                        ));
                        return k;
                    }
                    k = k + 1;
                }
                0
            },
        }
    }

    /// The list part of the state after a refresh from `entries` with the
    /// pins `pins_before`, the query `q` and the filter `filtered_before`
    /// as they were at the refresh.
    pub open spec fn refreshed_from(
        &self,
        pins_before: Seq<String>,
        q: Seq<char>,
        filtered_before: Seq<usize>,
        entries: Seq<WinEntry>,
        active_workspace: Option<i64>,
    ) -> bool {
        &&& self.wf()
        &&& self.pinned_windows@ == kept_pins(pins_before, entries)
        &&& self.entries@ == scoped(entries, self.scope, active_workspace)
        &&& !self.dirty
        &&& q.len() > 0 ==> self.filtered@ == windows::ranked(windows::entry_scores(self.entries@, q))
        &&& q.len() == 0 ==> self.filtered@ == filtered_before
    }

    /// Move the selection one row forward or back, wrapping around;
    /// nothing happens on an empty list. Returns whether the selection was
    /// updated.
    pub fn step(&mut self, forward: bool) -> (moved: bool)
        requires
            old(self).wf(),
        ensures
            final(self).wf(),
            final(self).same_flags(old(self)),
            final(self).entries@ == old(self).entries@,
            final(self).pinned_windows@ == old(self).pinned_windows@,
            final(self).groups@ == old(self).groups@,
            final(self).order@ == old(self).order@,
            final(self).filtered@ == old(self).filtered@,
            moved == (old(self).visible().len() > 0),
            moved ==> final(self).selected as int == (old(self).selected as int + (if forward {
                1int
            } else {
                -1int
            })) % (old(self).visible().len() as int),
            !moved ==> final(self).selected == old(self).selected,
            final(self).selected == Self::stepped(
                old(self).selected,
                old(self).visible().len(),
                forward,
            ),
    {
        let len = self.visible_len();
        if len == 0 {
            return false;
        }
        let l = len as u128;
        let sel = self.selected as u128;
        let r: u128 = if forward {
            (sel + 1) % l
        } else if sel == 0 {
            assert((-1int) % (l as int) == (l as int) - 1) by (nonlinear_arith)
                requires
                    l > 0,
            ;
            l - 1
        } else {
            (sel - 1) % l
        };
        self.selected = r as usize;
        true
    }


    /// The selection one row forward or back from `sel` in a list of `len`
    /// rows, wrapping around; unchanged in an empty list.
    pub open spec fn stepped(sel: usize, len: nat, forward: bool) -> usize {
        if len == 0 {
            sel
        } else {
            ((sel as int + (if forward {
                1int
            } else {
                -1int
            })) % (len as int)) as usize
        }
    }

    /// The reveal generation after one more reveal was scheduled.
    pub open spec fn next_gen(g: u64) -> u64 {
        if g == u64::MAX {
            0
        } else {
            (g + 1) as u64
        }
    }

    fn bump(g: u64) -> (r: u64)
        ensures
            r == Self::next_gen(g),
    {
        if g == u64::MAX {
            0
        } else {
            g + 1
        }
    }

    /// Schedule a reveal: earlier scheduled reveals become stale. Returns
    /// the generation the timer must present.
    pub fn schedule_reveal(&mut self) -> (generation: u64)
        ensures
            final(self).reveal_gen == Self::next_gen(old(self).reveal_gen),
            generation == final(self).reveal_gen,
            final(self).mode == old(self).mode,
            final(self).scope == old(self).scope,
            final(self).query@ == old(self).query@,
            final(self).dirty == old(self).dirty,
            final(self).hover_originated == old(self).hover_originated,
            final(self).outside_polls == old(self).outside_polls,
            final(self).hold_polls == old(self).hold_polls,
            final(self).hover_armed == old(self).hover_armed,
            final(self).hide_gen == old(self).hide_gen,
            final(self).same_list(old(self)),
    {
        self.reveal_gen = Self::bump(self.reveal_gen);
        self.reveal_gen
    }

    /// Schedule a hover auto-hide: earlier scheduled hides become stale.
    pub fn schedule_hide(&mut self) -> (generation: u64)
        ensures
            final(self).hide_gen == Self::next_gen(old(self).hide_gen),
            generation == final(self).hide_gen,
            final(self).mode == old(self).mode,
            final(self).scope == old(self).scope,
            final(self).query@ == old(self).query@,
            final(self).dirty == old(self).dirty,
            final(self).hover_originated == old(self).hover_originated,
            final(self).outside_polls == old(self).outside_polls,
            final(self).hold_polls == old(self).hold_polls,
            final(self).hover_armed == old(self).hover_armed,
            final(self).reveal_gen == old(self).reveal_gen,
            final(self).same_list(old(self)),
    {
        self.hide_gen = Self::bump(self.hide_gen);
        self.hide_gen
    }

    /// Leave any interaction: back to all workspaces, query and filter
    /// cleared, pending reveals and hides cancelled, hover reveal disarmed
    /// until the cursor has left the edge once, and the list marked stale.
    pub fn end_interaction(&mut self)
        requires
            old(self).wf(),
        ensures
            final(self).wf(),
            final(self).mode == old(self).mode,
            final(self).scope == Scope::All,
            !final(self).hover_originated,
            final(self).outside_polls == 0,
            final(self).hold_polls == old(self).hold_polls,
            !final(self).hover_armed,
            final(self).query@.len() == 0,
            final(self).filtered@.len() == 0,
            final(self).reveal_gen == Self::next_gen(old(self).reveal_gen),
            final(self).hide_gen == Self::next_gen(old(self).hide_gen),
            final(self).dirty,
            final(self).entries@ == old(self).entries@,
            final(self).pinned_windows@ == old(self).pinned_windows@,
            final(self).groups@ == old(self).groups@,
            final(self).order@ == old(self).order@,
            final(self).selected == old(self).selected,
    {
        self.scope = Scope::All;
        self.hover_originated = false;
        self.outside_polls = 0;
        self.hover_armed = false;
        self.query = String::new();
        self.filtered = Vec::new();
        self.reveal_gen = Self::bump(self.reveal_gen);
        self.hide_gen = Self::bump(self.hide_gen);
        self.dirty = true;
    }

    /// Park: hidden, and the interaction ended.
    pub fn park(&mut self)
        requires
            old(self).wf(),
        ensures
            final(self).wf(),
            final(self).mode == Mode::Hidden,
            final(self).scope == Scope::All,
            !final(self).hover_originated,
            final(self).outside_polls == 0,
            final(self).hold_polls == old(self).hold_polls,
            !final(self).hover_armed,
            final(self).query@.len() == 0,
            final(self).filtered@.len() == 0,
            final(self).reveal_gen == Self::next_gen(old(self).reveal_gen),
            final(self).hide_gen == Self::next_gen(old(self).hide_gen),
            final(self).dirty,
            final(self).entries@ == old(self).entries@,
            final(self).pinned_windows@ == old(self).pinned_windows@,
            final(self).groups@ == old(self).groups@,
            final(self).order@ == old(self).order@,
            final(self).selected == old(self).selected,
    {
        self.mode = Mode::Hidden;
        self.end_interaction();
    }

    /// Hidden or waiting for a hover reveal.
    pub open spec fn parked(&self) -> bool {
        self.mode == Mode::Hidden || self.mode == Mode::HoverPending
    }

    pub fn is_parked(&self) -> (r: bool)
        ensures
            r == self.parked(),
    {
        self.mode == Mode::Hidden || self.mode == Mode::HoverPending
    }

    pub fn is_hidden(&self) -> (r: bool)
        ensures
            r == (self.mode == Mode::Hidden),
    {
        self.mode == Mode::Hidden
    }

    /// A cursor poll while parked: `in_strip` tells whether the cursor is
    /// on the edge trigger zone. Dwelling there starts a hover reveal
    /// (returns the reveal generation to schedule); leaving it cancels a
    /// pending one. Right after an interaction the zone must first be left
    /// once before it can trigger again.
    pub fn poll_parked(&mut self, in_strip: bool) -> (reveal: Option<u64>)
        requires
            old(self).wf(),
        ensures
            final(self).wf(),
            final(self).same_list(old(self)),
            final(self).scope == old(self).scope,
            final(self).query@ == old(self).query@,
            final(self).dirty == old(self).dirty,
            final(self).hover_originated == old(self).hover_originated,
            final(self).outside_polls == old(self).outside_polls,
            final(self).hold_polls == old(self).hold_polls,
            final(self).hide_gen == old(self).hide_gen,
            !old(self).parked() ==> final(self).same_flags(old(self)) && reveal is None,
            old(self).parked() && !old(self).hover_armed ==> reveal is None && final(self).mode
                == old(self).mode && final(self).reveal_gen == old(self).reveal_gen
                && final(self).hover_armed == !in_strip,
            old(self).parked() && old(self).hover_armed ==> final(self).hover_armed && (if old(self).mode == Mode::Hidden && in_strip {
                final(self).mode == Mode::HoverPending && final(self).reveal_gen == Self::next_gen(
                    old(self).reveal_gen,
                ) && reveal == Some(final(self).reveal_gen)
            } else if old(self).mode == Mode::HoverPending && !in_strip {
                final(self).mode == Mode::Hidden && final(self).reveal_gen == Self::next_gen(
                    old(self).reveal_gen,
                ) && reveal is None
            } else {
                final(self).mode == old(self).mode && final(self).reveal_gen == old(self).reveal_gen
                    && reveal is None
            }),
    {
        if !self.is_parked() {
            return None;
        }
        if !self.hover_armed {
            if !in_strip {
                self.hover_armed = true;
            }
            return None;
        }
        if self.mode == Mode::Hidden && in_strip {
            self.mode = Mode::HoverPending;
            return Some(self.schedule_reveal());
        } else if self.mode == Mode::HoverPending && !in_strip {
            self.mode = Mode::Hidden;
            self.reveal_gen = Self::bump(self.reveal_gen);
        }
        None
    }

    /// How long the cursor may stay outside a hover-revealed panel before
    /// it hides: the hide delay (at least 200ms), six times that while a
    /// context menu is open.
    pub open spec fn outside_limit(hide_delay_ms: u64, menu_open: bool) -> int {
        let base = if hide_delay_ms > 200 {
            hide_delay_ms as int
        } else {
            200
        };
        if menu_open {
            base * 6
        } else {
            base
        }
    }

    /// A cursor poll while hover-revealed: `inside` tells whether the cursor
    /// is within the panel. Returns true when the panel should hide now.
    pub fn poll_revealed(&mut self, inside: bool, hide_delay_ms: u64, menu_open: bool) -> (hide_now:
        bool)
        requires
            old(self).wf(),
            hide_delay_ms <= u64::MAX / 6,
        ensures
            final(self).wf(),
            final(self).same_list(old(self)),
            final(self).mode == old(self).mode,
            final(self).scope == old(self).scope,
            final(self).query@ == old(self).query@,
            final(self).dirty == old(self).dirty,
            final(self).hover_originated == old(self).hover_originated,
            final(self).hover_armed == old(self).hover_armed,
            final(self).reveal_gen == old(self).reveal_gen,
            final(self).hide_gen == old(self).hide_gen,
            !(old(self).mode == Mode::Revealed && old(self).hover_originated) ==> !hide_now
                && final(self).outside_polls == old(self).outside_polls && final(self).hold_polls
                == old(self).hold_polls,
            old(self).mode == Mode::Revealed && old(self).hover_originated ==> (if old(self).hold_polls > 0 {
                final(self).hold_polls == old(self).hold_polls - 1 && final(self).outside_polls == 0
                    && !hide_now
            } else if inside {
                final(self).hold_polls == 0 && final(self).outside_polls == 0 && !hide_now
            } else {
                final(self).hold_polls == 0 && final(self).outside_polls == (if old(self).outside_polls == 255 {
                    255
                } else {
                    old(self).outside_polls + 1
                }) && hide_now == (final(self).outside_polls * 180 >= Self::outside_limit(
                    hide_delay_ms,
                    menu_open,
                ))
            }),
    {
        if !(self.mode == Mode::Revealed && self.hover_originated) {
            return false;
        }
        if self.hold_polls > 0 {
            self.hold_polls = self.hold_polls - 1;
            self.outside_polls = 0;
            false
        } else if inside {
            self.outside_polls = 0;
            false
        } else {
            self.outside_polls = if self.outside_polls == 255 {
                255
            } else {
                self.outside_polls + 1
            };
            let outside_ms = self.outside_polls as u64 * POLL_MS;
            let base = if hide_delay_ms > 200 {
                hide_delay_ms
            } else {
                200
            };
            let limit = if menu_open {
                base * 6
            } else {
                base
            };
            outside_ms >= limit
        }
    }

    /// Keep a hover-revealed panel open for a while regardless of where the
    /// cursor ends up (after actions that resize it under the cursor).
    pub fn hold_open(&mut self)
        ensures
            final(self).hold_polls == HOLD_POLLS,
            final(self).outside_polls == 0,
            final(self).hide_gen == Self::next_gen(old(self).hide_gen),
            final(self).same_list(old(self)),
            final(self).mode == old(self).mode,
            final(self).scope == old(self).scope,
            final(self).query@ == old(self).query@,
            final(self).dirty == old(self).dirty,
            final(self).hover_originated == old(self).hover_originated,
            final(self).hover_armed == old(self).hover_armed,
            final(self).reveal_gen == old(self).reveal_gen,
    {
        self.hold_polls = HOLD_POLLS;
        self.outside_polls = 0;
        self.hide_gen = Self::bump(self.hide_gen);
    }

    /// Whether a reveal timer presenting `generation` takes effect: it is
    /// the latest one scheduled and the panel still waits for it (hover
    /// pending, or an Alt-Tab session).
    pub open spec fn reveal_fires(&self, generation: u64) -> bool {
        self.reveal_gen == generation && (self.mode == Mode::HoverPending || self.mode
            == Mode::Cycling)
    }

    /// Whether a hover auto-hide timer presenting `generation` applies: it
    /// is the latest one scheduled and the panel is still hover-revealed.
    pub open spec fn hide_fires(&self, generation: u64) -> bool {
        self.hide_gen == generation && self.mode == Mode::Revealed && self.hover_originated
    }

    /// A scheduled reveal fired. It only takes effect when it is the latest
    /// one scheduled and the panel is still waiting for it (hover pending,
    /// or an Alt-Tab session); a hover reveal then becomes `Revealed`.
    /// Returns whether the panel should be shown now.
    pub fn reveal_due(&mut self, generation: u64) -> (show: bool)
        requires
            old(self).wf(),
        ensures
            final(self).wf(),
            final(self).same_list(old(self)),
            show == old(self).reveal_fires(generation),
            show && old(self).mode == Mode::HoverPending ==> final(self).mode == Mode::Revealed
                && final(self).hover_originated && final(self).outside_polls == 0,
            !(show && old(self).mode == Mode::HoverPending) ==> final(self).mode == old(self).mode
                && final(self).hover_originated == old(self).hover_originated
                && final(self).outside_polls == old(self).outside_polls,
            final(self).scope == old(self).scope,
            final(self).query@ == old(self).query@,
            final(self).dirty == old(self).dirty,
            final(self).hold_polls == old(self).hold_polls,
            final(self).hover_armed == old(self).hover_armed,
            final(self).reveal_gen == old(self).reveal_gen,
            final(self).hide_gen == old(self).hide_gen,
    {
        if self.reveal_gen == generation && (self.mode == Mode::HoverPending || self.mode
            == Mode::Cycling) {
            if self.mode == Mode::HoverPending {
                self.mode = Mode::Revealed;
                self.hover_originated = true;
                self.outside_polls = 0;
            }
            true
        } else {
            false
        }
    }

    /// A scheduled hover auto-hide fired; `inside` tells whether the cursor
    /// is within the panel. Stale or no longer applicable timers are
    /// ignored; while held open or with the cursor inside, the hide is
    /// rescheduled (after the hide delay, at least 150ms).
    pub fn hide_due(&mut self, generation: u64, inside: bool, hide_delay_ms: u64) -> (due: HideDue)
        requires
            old(self).wf(),
        ensures
            final(self).wf(),
            final(self).same_list(old(self)),
            final(self).mode == old(self).mode,
            final(self).scope == old(self).scope,
            final(self).query@ == old(self).query@,
            final(self).dirty == old(self).dirty,
            final(self).hover_originated == old(self).hover_originated,
            final(self).outside_polls == old(self).outside_polls,
            final(self).hold_polls == old(self).hold_polls,
            final(self).hover_armed == old(self).hover_armed,
            final(self).reveal_gen == old(self).reveal_gen,
            !old(self).hide_fires(generation) ==> due == HideDue::Ignore && final(self).hide_gen
                == old(self).hide_gen,
            old(self).hide_fires(generation) ==> if old(self).hold_polls > 0 || inside {
                final(self).hide_gen == Self::next_gen(old(self).hide_gen) && due
                    == HideDue::Reschedule {
                    generation: final(self).hide_gen,
                    delay_ms: if hide_delay_ms > 150 {
                        hide_delay_ms
                    } else {
                        150
                    },
                }
            } else {
                due == HideDue::Hide && final(self).hide_gen == old(self).hide_gen
            },
    {
        if self.hide_gen == generation && self.mode == Mode::Revealed && self.hover_originated {
            if self.hold_polls > 0 || inside {
                let g = self.schedule_hide();
                HideDue::Reschedule {
                    generation: g,
                    delay_ms: if hide_delay_ms > 150 {
                        hide_delay_ms
                    } else {
                        150
                    },
                }
            } else {
                HideDue::Hide
            }
        } else {
            HideDue::Ignore
        }
    }

    /// The pointer entered (`hovered`) or left the panel window.
    pub fn hover_changed(&mut self, hovered: bool) -> (act: HoverAction)
        requires
            old(self).wf(),
        ensures
            final(self).wf(),
            final(self).same_list(old(self)),
            final(self).scope == old(self).scope,
            final(self).query@ == old(self).query@,
            final(self).dirty == old(self).dirty,
            final(self).hover_originated == old(self).hover_originated,
            final(self).outside_polls == old(self).outside_polls,
            final(self).hold_polls == old(self).hold_polls,
            final(self).hover_armed == old(self).hover_armed,
            hovered ==> final(self).hide_gen == Self::next_gen(old(self).hide_gen),
            hovered && old(self).mode == Mode::Hidden && old(self).hover_armed ==> final(self).mode
                == Mode::HoverPending && final(self).reveal_gen == Self::next_gen(
                old(self).reveal_gen,
            ) && act == HoverAction::ScheduleReveal(final(self).reveal_gen),
            hovered && !(old(self).mode == Mode::Hidden && old(self).hover_armed) ==> final(self).mode == old(self).mode && final(self).reveal_gen == old(self).reveal_gen && act
                == HoverAction::Nothing,
            !hovered && old(self).mode == Mode::HoverPending ==> final(self).mode == Mode::Hidden
                && final(self).reveal_gen == Self::next_gen(old(self).reveal_gen) && final(self).hide_gen == old(self).hide_gen && act == HoverAction::Nothing,
            !hovered && old(self).mode == Mode::Revealed ==> final(self).mode == Mode::Revealed
                && final(self).reveal_gen == old(self).reveal_gen && final(self).hide_gen
                == Self::next_gen(old(self).hide_gen) && act == HoverAction::ScheduleHide(
                final(self).hide_gen,
            ),
            !hovered && old(self).mode != Mode::HoverPending && old(self).mode != Mode::Revealed
                ==> final(self).mode == old(self).mode && final(self).reveal_gen == old(self).reveal_gen && final(self).hide_gen == old(self).hide_gen && act
                == HoverAction::Nothing,
    {
        if hovered {
            self.hide_gen = Self::bump(self.hide_gen);
            if self.mode == Mode::Hidden && self.hover_armed {
                self.mode = Mode::HoverPending;
                let g = self.schedule_reveal();
                return HoverAction::ScheduleReveal(g);
            }
            HoverAction::Nothing
        } else {
            match self.mode {
                Mode::HoverPending => {
                    self.mode = Mode::Hidden;
                    self.reveal_gen = Self::bump(self.reveal_gen);
                    HoverAction::Nothing
                },
                Mode::Revealed => {
                    let g = self.schedule_hide();
                    HoverAction::ScheduleHide(g)
                },
                _ => HoverAction::Nothing,
            }
        }
    }


    /// What a control command asks of the panel in its current mode, given
    /// how the Alt+Tab (`next`/`prev`) and Super+Tab (`next-ws`/`prev-ws`)
    /// shortcuts are configured.
    pub fn plan_cmd(&self, cmd: &str, alt_tab: CycleScope, super_tab: CycleScope) -> (plan: CmdPlan)
        ensures
            plan == cmd_plan(self.mode, self.scope, cmd@, alt_tab, super_tab),
    {
        let next = text::str_eq(cmd, "next");
        let prev = text::str_eq(cmd, "prev");
        let next_ws = text::str_eq(cmd, "next-ws");
        let prev_ws = text::str_eq(cmd, "prev-ws");
        if next || prev || next_ws || prev_ws {
            let forward = next || next_ws;
            let ws = next_ws || prev_ws;
            let behavior = if ws {
                super_tab
            } else {
                alt_tab
            };
            let scope = match behavior {
                CycleScope::AllWorkspaces => Scope::All,
                CycleScope::CurrentWorkspace => Scope::Workspace,
                CycleScope::Disabled => {
                    return CmdPlan::Stock { workspace: ws, forward };
                },
            };
            if self.mode == Mode::Search || (self.mode == Mode::Cycling && self.scope == scope) {
                CmdPlan::Step { forward }
            } else {
                CmdPlan::StartCycle { scope, forward }
            }
        } else if text::str_eq(cmd, "commit") {
            if self.mode == Mode::Cycling {
                CmdPlan::Commit
            } else {
                CmdPlan::Ignore
            }
        } else if text::str_eq(cmd, "toggle") {
            if self.mode == Mode::Hidden {
                CmdPlan::Show
            } else {
                CmdPlan::Hide
            }
        } else if text::str_eq(cmd, "show") {
            CmdPlan::Show
        } else if text::str_eq(cmd, "hide") {
            CmdPlan::Hide
        } else if text::str_eq(cmd, "search") {
            CmdPlan::Search
        } else {
            CmdPlan::Ignore
        }
    }

    /// Start a cycling session of `scope` on a fresh window list: the
    /// selection lands on the most recently used other window going
    /// forward, on the last row going back, and the reveal is scheduled
    /// (returns the generation its timer must present).
    pub fn start_cycle(
        &mut self,
        scope: Scope,
        forward: bool,
        entries: Vec<WinEntry>,
        active_workspace: Option<i64>,
    ) -> (generation: u64)
        requires
            old(self).wf(),
        ensures
            final(self).scope == scope,
            final(self).refreshed_from(
                old(self).pinned_windows@,
                old(self).query@,
                old(self).filtered@,
                entries@,
                active_workspace,
            ),
            final(self).mode == Mode::Cycling,
            final(self).selected == (if forward {
                mru_position_of(final(self).entries@, final(self).order@)
            } else if final(self).order@.len() == 0 {
                0
            } else {
                (final(self).order@.len() - 1) as usize
            }),
            final(self).reveal_gen == Self::next_gen(old(self).reveal_gen),
            generation == final(self).reveal_gen,
            final(self).query@ == old(self).query@,
            final(self).hover_originated == old(self).hover_originated,
            final(self).outside_polls == old(self).outside_polls,
            final(self).hold_polls == old(self).hold_polls,
            final(self).hover_armed == old(self).hover_armed,
            final(self).hide_gen == old(self).hide_gen,
    {
        self.scope = scope;
        self.refresh(entries, active_workspace);
        self.mode = Mode::Cycling;
        self.selected = if forward {
            self.mru_position()
        } else if self.order.len() == 0 {
            0
        } else {
            self.order.len() - 1
        };
        self.schedule_reveal()
    }

    /// Show the panel unfocused (`show`, or `toggle` while hidden) on a
    /// fresh window list of all workspaces, selecting the most recently
    /// used other window.
    pub fn show(&mut self, entries: Vec<WinEntry>)
        requires
            old(self).wf(),
        ensures
            final(self).scope == Scope::All,
            final(self).refreshed_from(
                old(self).pinned_windows@,
                old(self).query@,
                old(self).filtered@,
                entries@,
                None,
            ),
            final(self).mode == Mode::Revealed,
            final(self).selected == mru_position_of(final(self).entries@, final(self).order@),
            final(self).query@ == old(self).query@,
            final(self).hover_originated == old(self).hover_originated,
            final(self).outside_polls == old(self).outside_polls,
            final(self).hold_polls == old(self).hold_polls,
            final(self).hover_armed == old(self).hover_armed,
            final(self).reveal_gen == old(self).reveal_gen,
            final(self).hide_gen == old(self).hide_gen,
    {
        self.scope = Scope::All;
        self.refresh(entries, None);
        self.mode = Mode::Revealed;
        self.selected = self.mru_position();
    }

    /// Open the search field on a fresh window list of all workspaces, with
    /// an empty query and the most recently used other window selected.
    pub fn start_search(&mut self, entries: Vec<WinEntry>)
        requires
            old(self).wf(),
        ensures
            final(self).scope == Scope::All,
            final(self).refreshed_from(
                old(self).pinned_windows@,
                old(self).query@,
                old(self).filtered@,
                entries@,
                None,
            ),
            final(self).mode == Mode::Search,
            final(self).query@.len() == 0,
            final(self).selected == mru_position_of(final(self).entries@, final(self).order@),
            final(self).hover_originated == old(self).hover_originated,
            final(self).outside_polls == old(self).outside_polls,
            final(self).hold_polls == old(self).hold_polls,
            final(self).hover_armed == old(self).hover_armed,
            final(self).reveal_gen == old(self).reveal_gen,
            final(self).hide_gen == old(self).hide_gen,
    {
        self.scope = Scope::All;
        self.refresh(entries, None);
        self.mode = Mode::Search;
        self.query = String::new();
        self.selected = self.mru_position();
    }

    /// Reveal the panel for a settings preview. A parked panel is shown
    /// unfocused on a fresh list of all workspaces (not as a hover reveal);
    /// a visible one stays as it is. Returns whether the state changed.
    pub fn preview_reveal(&mut self, entries: Vec<WinEntry>) -> (changed: bool)
        requires
            old(self).wf(),
        ensures
            final(self).wf(),
            changed == old(self).parked(),
            !changed ==> *final(self) == *old(self),
            changed ==> final(self).scope == Scope::All && final(self).refreshed_from(
                old(self).pinned_windows@,
                old(self).query@,
                old(self).filtered@,
                entries@,
                None,
            ) && final(self).mode == Mode::Revealed && !final(self).hover_originated
                && final(self).selected == mru_position_of(
                final(self).entries@,
                final(self).order@,
            ) && final(self).query@ == old(self).query@ && final(self).outside_polls == old(
                self,
            ).outside_polls && final(self).hold_polls == old(self).hold_polls
                && final(self).hover_armed == old(self).hover_armed && final(self).reveal_gen
                == old(self).reveal_gen && final(self).hide_gen == old(self).hide_gen,
    {
        if !self.is_parked() {
            return false;
        }
        self.scope = Scope::All;
        self.refresh(entries, None);
        self.mode = Mode::Revealed;
        self.hover_originated = false;
        self.selected = self.mru_position();
        true
    }


    /// The list after the query changed: the filter recomputed for the new
    /// query (empty for an empty query), the selection back on the first
    /// row, everything else as `before` had it.
    pub open spec fn requeried(&self, before: &Presence) -> bool {
        &&& self.filtered@ == (if self.query@.len() == 0 {
            Seq::<usize>::empty()
        } else {
            windows::ranked(windows::entry_scores(self.entries@, self.query@))
        })
        &&& self.selected == 0
        &&& self.mode == before.mode
        &&& self.scope == before.scope
        &&& self.dirty == before.dirty
        &&& self.hover_originated == before.hover_originated
        &&& self.outside_polls == before.outside_polls
        &&& self.hold_polls == before.hold_polls
        &&& self.hover_armed == before.hover_armed
        &&& self.reveal_gen == before.reveal_gen
        &&& self.hide_gen == before.hide_gen
        &&& self.entries@ == before.entries@
        &&& self.pinned_windows@ == before.pinned_windows@
        &&& self.groups@ == before.groups@
        &&& self.order@ == before.order@
    }

    /// Everything as `before` had it but the selection.
    pub open spec fn same_but_selected(&self, before: &Presence) -> bool {
        &&& self.same_flags(before)
        &&& self.entries@ == before.entries@
        &&& self.pinned_windows@ == before.pinned_windows@
        &&& self.groups@ == before.groups@
        &&& self.order@ == before.order@
        &&& self.filtered@ == before.filtered@
    }

    /// Recompute the search results for the current query and select the
    /// first one.
    pub fn apply_query(&mut self)
        requires
            old(self).list_ok(),
        ensures
            final(self).wf(),
            final(self).requeried(old(self)),
            final(self).query@ == old(self).query@,
    {
        if self.query.as_str().is_empty() {
            self.filtered = Vec::new();
        } else {
            self.filtered = windows::filter(&self.entries, self.query.as_str());
            proof {
                windows::lemma_ranked_bound(windows::entry_scores(self.entries@, self.query@));
            }
        }
        self.selected = 0;
    }

    /// A key pressed in the search field (`key` is the key's name, `shift`
    /// whether Shift is held, `key_char` the text it types). Escape rests,
    /// Enter focuses the selection, Down/Up/Tab (Shift+Tab back) move it,
    /// Backspace deletes the last query character. Typed text extends the
    /// query, except that on an empty query a digit 1-9 picks that row (if
    /// the list has it) and focuses it. Keys are ignored outside search.
    pub fn key(&mut self, key: &str, shift: bool, key_char: Option<&str>) -> (act: KeyAction)
        requires
            old(self).wf(),
        ensures
            final(self).wf(),
            key_outcome(
                *old(self),
                *final(self),
                key@,
                shift,
                match key_char {
                    Some(s) => Some(s@),
                    None => None,
                },
                act,
            ),
    {
        if self.mode != Mode::Search {
            return KeyAction::Ignore;
        }
        if text::str_eq(key, "escape") {
            return KeyAction::Rest;
        }
        if text::str_eq(key, "enter") {
            return KeyAction::Commit;
        }
        let down = text::str_eq(key, "down");
        let up = text::str_eq(key, "up");
        let tab = text::str_eq(key, "tab");
        if down || up || tab {
            let forward = if tab {
                !shift
            } else {
                down
            };
            if self.step(forward) {
                return KeyAction::Redraw;
            } else {
                return KeyAction::Ignore;
            }
        }
        if text::str_eq(key, "backspace") {
            let v = text::chars_of(self.query.as_str());
            let n = v.len();
            let kept = if n == 0 {
                Vec::new()
            } else {
                text::sub_vec(v.as_slice(), 0, n - 1)
            };
            assert(kept@ =~= without_last(old(self).query@));
            self.query = text::string_of(kept.as_slice());
            self.apply_query();
            return KeyAction::Redraw;
        }
        match key_char {
            None => KeyAction::Ignore,
            Some(s) => {
                let cs = text::chars_of(s);
                if cs.len() == 0 || !no_control(cs.as_slice()) {
                    return KeyAction::Ignore;
                }
                if self.query.as_str().is_empty() {
                    let c = cs[0];
                    if '0' <= c && c <= '9' {
                        let d = (c as u32) - ('0' as u32);
                        let lim: usize = if self.order.len() < 9 {
                            self.order.len()
                        } else {
                            9
                        };
                        if d >= 1 && (d as usize) <= lim {
                            self.selected = (d - 1) as usize;
                            return KeyAction::Commit;
                        }
                    }
                }
                text::push_str(&mut self.query, s);
                self.apply_query();
                KeyAction::Redraw
            },
        }
    }


    /// Everything as `before` had it but the dirty flag.
    pub open spec fn same_but_dirty(&self, before: &Presence) -> bool {
        &&& self.same_list(before)
        &&& self.mode == before.mode
        &&& self.scope == before.scope
        &&& self.query@ == before.query@
        &&& self.hover_originated == before.hover_originated
        &&& self.outside_polls == before.outside_polls
        &&& self.hold_polls == before.hold_polls
        &&& self.hover_armed == before.hover_armed
        &&& self.reveal_gen == before.reveal_gen
        &&& self.hide_gen == before.hide_gen
    }

    /// Hyprland reported windows opening, closing or moving. A parked panel
    /// only marks its list stale (and must be re-parked: Hyprland may have
    /// pulled it into view); a visible one rebuilds it now; a cycling
    /// session keeps the list it started with.
    pub fn windows_changed(&mut self) -> (u: ListUpdate)
        ensures
            final(self).same_but_dirty(old(self)),
            final(self).dirty == (old(self).dirty || old(self).parked()),
            u == (if old(self).parked() {
                ListUpdate::Repark
            } else if old(self).mode == Mode::Revealed || old(self).mode == Mode::Search {
                ListUpdate::Refresh
            } else {
                ListUpdate::Keep
            }),
    {
        if self.is_parked() {
            self.dirty = true;
            ListUpdate::Repark
        } else if self.mode == Mode::Revealed || self.mode == Mode::Search {
            ListUpdate::Refresh
        } else {
            ListUpdate::Keep
        }
    }

    /// The active window changed: while hidden, the list is marked stale
    /// and the panel must be re-parked (returns whether).
    pub fn active_window_changed(&mut self) -> (repark: bool)
        ensures
            repark == (old(self).mode == Mode::Hidden),
            final(self).same_but_dirty(old(self)),
            final(self).dirty == (old(self).dirty || repark),
    {
        if self.mode == Mode::Hidden {
            self.dirty = true;
            true
        } else {
            false
        }
    }

    /// The address of the selected window, if a row is selected.
    pub open spec fn selected_address(&self) -> Option<Seq<char>> {
        if self.selected < self.visible().len() {
            Some(self.entries@[self.visible()[self.selected as int] as int].address@)
        } else {
            None
        }
    }

    /// The first position of the visible list whose window has address
    /// `a`.
    pub fn find_visible(&self, a: &str) -> (r: Option<usize>)
        requires
            self.wf(),
        ensures
            match r {
                Some(k) => first_pos(self.entries@, self.visible(), a@) == Some(k as int),
                None => first_pos(self.entries@, self.visible(), a@) is None,
            },
    {
        let n = self.visible_len();
        let mut k: usize = 0;
        while k < n
            invariant
                self.wf(),
                n == self.visible().len(),
                k <= n,
                first_pos(self.entries@, self.visible(), a@) == first_pos_from(
                    self.entries@,
                    self.visible(),
                    a@,
                    k as int,
                ),
            decreases n - k,
        {
            match self.visible_at(k) {
                Some(i) => {
                    if text::str_eq(self.entries[i].address.as_str(), a) {
                        return Some(k);
                    }
                },
                None => {},
            }
            k = k + 1;
        }
        None
    }

    /// Rebuild a visible panel's list from a fresh window list, keeping the
    /// selection on the same window when it is still listed (else the
    /// selection is clamped as in [`Presence::refresh`]).
    pub fn refresh_keeping(&mut self, entries: Vec<WinEntry>, active_workspace: Option<i64>)
        requires
            old(self).wf(),
        ensures
            final(self).refreshed_from(
                old(self).pinned_windows@,
                old(self).query@,
                old(self).filtered@,
                entries@,
                active_workspace,
            ),
            final(self).selected == (match old(self).selected_address() {
                Some(a) => match first_pos(final(self).entries@, final(self).visible(), a) {
                    Some(k) => k as usize,
                    None => Self::clamped(old(self).selected, final(self).visible().len()),
                },
                None => Self::clamped(old(self).selected, final(self).visible().len()),
            }),
            final(self).mode == old(self).mode,
            final(self).scope == old(self).scope,
            final(self).query@ == old(self).query@,
            final(self).hover_originated == old(self).hover_originated,
            final(self).outside_polls == old(self).outside_polls,
            final(self).hold_polls == old(self).hold_polls,
            final(self).hover_armed == old(self).hover_armed,
            final(self).reveal_gen == old(self).reveal_gen,
            final(self).hide_gen == old(self).hide_gen,
    {
        let keep: Option<String> = match self.selected_entry() {
            Some(i) => Some(text::clone_string(&self.entries[i].address)),
            None => None,
        };
        self.refresh(entries, active_workspace);
        match keep {
            Some(a) => {
                match self.find_visible(a.as_str()) {
                    Some(pos) => {
                        self.selected = pos;
                    },
                    None => {},
                }
            },
            None => {},
        }
    }

    /// A window's title changed. Returns the listed entry with that address
    /// (the first one), whose title the program then updates; an unknown
    /// window only marks the list stale.
    pub fn title_changed(&mut self, address: &str) -> (r: Option<usize>)
        ensures
            match r {
                Some(i) => i < old(self).entries@.len() && old(self).entries@[i as int].address@
                    == address@ && (forall|j: int|
                    0 <= j < i ==> #[trigger] old(self).entries@[j].address@ != address@)
                    && *final(self) == *old(self),
                None => (forall|j: int|
                    0 <= j < old(self).entries@.len() ==> #[trigger] old(self).entries@[j].address@
                        != address@) && final(self).dirty && final(self).same_but_dirty(old(self)),
            },
    {
        let mut i: usize = 0;
        while i < self.entries.len()
            invariant
                i <= self.entries@.len(),
                *self == *old(self),
                forall|j: int| 0 <= j < i ==> #[trigger] self.entries@[j].address@ != address@,
            decreases self.entries@.len() - i,
        {
            if text::str_eq(self.entries[i].address.as_str(), address) {
                return Some(i);
            }
            i = i + 1;
        }
        self.dirty = true;
        None
    }

    /// Give entry `i` a new title and running command; groups and order are
    /// rebuilt for the updated list (they do not depend on either).
    pub fn set_entry_title(&mut self, i: usize, title: String, command: Option<String>)
        requires
            old(self).wf(),
            i < old(self).entries@.len(),
        ensures
            final(self).wf(),
            final(self).entries@ == old(self).entries@.update(
                i as int,
                retitled(old(self).entries@[i as int], title, command),
            ),
            final(self).same_flags(old(self)),
            final(self).pinned_windows@ == old(self).pinned_windows@,
            final(self).filtered@ == old(self).filtered@,
            final(self).selected == old(self).selected,
    {
        let e = self.entries.remove(i);
        let updated = WinEntry {
            address: e.address,
            class: e.class,
            initial_class: e.initial_class,
            title,
            workspace_id: e.workspace_id,
            workspace_name: e.workspace_name,
            focus_history_id: e.focus_history_id,
            fullscreen: e.fullscreen,
            floating: e.floating,
            command,
        };
        self.entries.insert(i, updated);
        assert(self.entries@ =~= old(self).entries@.update(
            i as int,
            retitled(old(self).entries@[i as int], title, command),
        ));
        self.groups = windows::group(&self.entries, &self.pinned_windows);
        self.order = windows::display_order(&self.groups);
        proof {
            windows::lemma_order_bound(self.entries@, self.pinned_windows@);
        }
    }

    /// The pointer moved over row `position`: outside a cycling session it
    /// becomes the selection. Returns whether the selection changed.
    pub fn hover_row(&mut self, position: usize) -> (changed: bool)
        ensures
            changed == (old(self).selected != position && old(self).mode != Mode::Cycling),
            changed ==> final(self).same_but_selected(old(self)) && final(self).selected
                == position,
            !changed ==> *final(self) == *old(self),
    {
        if self.selected != position && self.mode != Mode::Cycling {
            self.selected = position;
            true
        } else {
            false
        }
    }

    /// The digit shown beside row `position`: 1-9 on the first nine rows,
    /// none while a query filters the list.
    pub open spec fn badge(&self, position: nat) -> Option<nat> {
        if position < 9 && !self.is_searching() {
            Some(position + 1)
        } else {
            None
        }
    }

    pub fn row_badge(&self, position: usize) -> (r: Option<usize>)
        ensures
            r == (match self.badge(position as nat) {
                Some(d) => Some(d as usize),
                None => None,
            }),
    {
        if position < 9 && !self.searching() {
            Some(position + 1)
        } else {
            None
        }
    }

    /// Whether the window with this address is pinned to the top group.
    pub fn is_pinned_window(&self, address: &str) -> (r: bool)
        ensures
            r == windows::is_pinned_addr(self.pinned_windows@, address@),
    {
        let mut j: usize = 0;
        while j < self.pinned_windows.len()
            invariant
                j <= self.pinned_windows@.len(),
                forall|q: int| 0 <= q < j ==> #[trigger] self.pinned_windows@[q]@ != address@,
            decreases self.pinned_windows@.len() - j,
        {
            if text::str_eq(self.pinned_windows[j].as_str(), address) {
                return true;
            }
            j = j + 1;
        }
        false
    }

    /// Pin the window to the top "Pinned" group, or unpin it if it is
    /// pinned, then rebuild the list from a fresh window list.
    pub fn toggle_pin_window(
        &mut self,
        address: String,
        entries: Vec<WinEntry>,
        active_workspace: Option<i64>,
    )
        ensures
            final(self).refreshed_from(
                toggled_pins(old(self).pinned_windows@, address),
                old(self).query@,
                old(self).filtered@,
                entries@,
                active_workspace,
            ),
            final(self).selected == Self::clamped(old(self).selected, final(self).visible().len()),
            final(self).mode == old(self).mode,
            final(self).scope == old(self).scope,
            final(self).query@ == old(self).query@,
            final(self).hover_originated == old(self).hover_originated,
            final(self).outside_polls == old(self).outside_polls,
            final(self).hold_polls == old(self).hold_polls,
            final(self).hover_armed == old(self).hover_armed,
            final(self).reveal_gen == old(self).reveal_gen,
            final(self).hide_gen == old(self).hide_gen,
    {
        let ghost pins = self.pinned_windows@;
        let ghost pred = |a: String| a@ != address@;
        let mut rest: Vec<String> = Vec::new();
        let mut i: usize = 0;
        while i < self.pinned_windows.len()
            invariant
                i <= self.pinned_windows@.len(),
                self.pinned_windows@ == pins,
                pred == (|a: String| a@ != address@),
                rest@ == pins.take(i as int).filter(pred),
            decreases self.pinned_windows@.len() - i,
        {
            proof {
                assert(pins.take(i + 1) =~= pins.take(i as int).push(pins[i as int]));
                pins.take(i as int).lemma_filter_push(pins[i as int], pred);
            }
            if !text::str_eq(self.pinned_windows[i].as_str(), address.as_str()) {
                rest.push(text::clone_string(&self.pinned_windows[i]));
            }
            i = i + 1;
        }
        assert(pins.take(pins.len() as int) =~= pins);
        if rest.len() == self.pinned_windows.len() {
            rest.push(address);
        }
        self.pinned_windows = rest;
        self.refresh(entries, active_workspace);
    }

    /// What clicking a launcher does: start the app from its desktop entry,
    /// or, without one, focus its most recently used window (the first
    /// listed entry of a matching class).
    pub fn launch_plan(&self, launcher: &Launcher) -> (plan: LaunchPlan)
        ensures
            plan == launch_plan_of(self.entries@, launcher.class@, launcher.exec_line),
    {
        match &launcher.exec_line {
            Some(x) => LaunchPlan::Exec(text::clone_string(x)),
            None => {
                let mut i: usize = 0;
                while i < self.entries.len()
                    invariant
                        i <= self.entries@.len(),
                        launcher.exec_line is None,
                        first_window_from(self.entries@, launcher.class@, 0) == first_window_from(
                            self.entries@,
                            launcher.class@,
                            i as int,
                        ),
                    decreases self.entries@.len() - i,
                {
                    let hit = apps::class_matches(
                        launcher.class.as_str(),
                        self.entries[i].class.as_str(),
                    ) || apps::class_matches(
                        launcher.class.as_str(),
                        self.entries[i].initial_class.as_str(),
                    );
                    if hit {
                        assert(first_window_from(self.entries@, launcher.class@, i as int) == Some(
                            i as int,
                        ));
                        return LaunchPlan::Focus(i);
                    }
                    i = i + 1;
                }
                LaunchPlan::Nothing
            },
        }
    }

}


/// A window with this address is in the list.
pub open spec fn address_listed(entries: Seq<WinEntry>, a: Seq<char>) -> bool {
    exists|i: int| 0 <= i < entries.len() && entries[i].address@ == a
}

/// The pins whose window is still open.
pub open spec fn kept_pins(pinned: Seq<String>, entries: Seq<WinEntry>) -> Seq<String> {
    pinned.filter(|a: String| address_listed(entries, a@))
}

/// The entries a session of `scope` shows: all of them, or those on the
/// active workspace when that is known.
pub open spec fn scoped(entries: Seq<WinEntry>, scope: Scope, active_workspace: Option<i64>) -> Seq<
    WinEntry,
> {
    match (scope, active_workspace) {
        (Scope::Workspace, Some(id)) => entries.filter(|e: WinEntry| e.workspace_id == id),
        _ => entries,
    }
}

/// The entry with the smallest non-zero focus history id, the first one
/// among equals.
pub open spec fn mru_best(entries: Seq<WinEntry>) -> Option<usize>
    decreases entries.len(),
{
    if entries.len() == 0 {
        None
    } else {
        let b = mru_best(entries.drop_last());
        let i = (entries.len() - 1) as usize;
        let f = entries.last().focus_history_id;
        if f == 0 {
            b
        } else {
            match b {
                None => Some(i),
                Some(j) => if f < entries[j as int].focus_history_id {
                    Some(i)
                } else {
                    b
                },
            }
        }
    }
}

/// The first display position from `k` on whose entry has address `a`.
pub open spec fn first_pos_from(entries: Seq<WinEntry>, order: Seq<usize>, a: Seq<char>, k: int) -> Option<
    int,
>
    decreases order.len() - k,
{
    if k >= order.len() || k < 0 {
        None
    } else if entries[order[k] as int].address@ == a {
        Some(k)
    } else {
        first_pos_from(entries, order, a, k + 1)
    }
}

pub open spec fn first_pos(entries: Seq<WinEntry>, order: Seq<usize>, a: Seq<char>) -> Option<int> {
    first_pos_from(entries, order, a, 0)
}

pub open spec fn mru_position_of(entries: Seq<WinEntry>, order: Seq<usize>) -> usize {
    match mru_best(entries) {
        None => 0,
        Some(b) => match first_pos(entries, order, entries[b as int].address@) {
            Some(k) => k as usize,
            None => 0,
        },
    }
}

/// What a fired hover auto-hide timer asks for.
#[derive(Debug, Clone, Copy, PartialEq, Eq, Structural)]
pub enum HideDue {
    Ignore,
    /// Check again after `delay_ms`, presenting `generation`.
    Reschedule { generation: u64, delay_ms: u64 },
    Hide,
}

/// What a pointer enter/leave asks for.
#[derive(Debug, Clone, Copy, PartialEq, Eq, Structural)]
pub enum HoverAction {
    Nothing,
    /// Reveal after the show delay, presenting this generation.
    ScheduleReveal(u64),
    /// Hide after the hide delay, presenting this generation.
    ScheduleHide(u64),
}


/// What a control command asks of the panel.
#[derive(Debug, Clone, Copy, PartialEq, Eq, Structural)]
pub enum CmdPlan {
    Ignore,
    /// The shortcut is disabled: hand the key back to the compositor's
    /// stock behaviour (workspace switching for Super+Tab, plain window
    /// cycling for Alt+Tab).
    Stock { workspace: bool, forward: bool },
    /// Move the selection of the running session or search.
    Step { forward: bool },
    /// Start a cycling session (see [`Presence::start_cycle`]).
    StartCycle { scope: Scope, forward: bool },
    /// Focus the selected window and rest.
    Commit,
    /// Show the panel unfocused (see [`Presence::show`]).
    Show,
    /// Park the panel.
    Hide,
    /// Open the search field (see [`Presence::start_search`]).
    Search,
}

/// The plan for control command `cmd` in `mode`, with the running session's
/// `scope` and the configured shortcut behaviours.
pub open spec fn cmd_plan(
    mode: Mode,
    scope: Scope,
    cmd: Seq<char>,
    alt_tab: CycleScope,
    super_tab: CycleScope,
) -> CmdPlan {
    let next = cmd == "next"@;
    let prev = cmd == "prev"@;
    let next_ws = cmd == "next-ws"@;
    let prev_ws = cmd == "prev-ws"@;
    if next || prev || next_ws || prev_ws {
        let forward = next || next_ws;
        let ws = next_ws || prev_ws;
        let behavior = if ws {
            super_tab
        } else {
            alt_tab
        };
        if behavior == CycleScope::Disabled {
            CmdPlan::Stock { workspace: ws, forward }
        } else {
            let s = if behavior == CycleScope::AllWorkspaces {
                Scope::All
            } else {
                Scope::Workspace
            };
            if mode == Mode::Search || (mode == Mode::Cycling && scope == s) {
                CmdPlan::Step { forward }
            } else {
                CmdPlan::StartCycle { scope: s, forward }
            }
        }
    } else if cmd == "commit"@ {
        if mode == Mode::Cycling {
            CmdPlan::Commit
        } else {
            CmdPlan::Ignore
        }
    } else if cmd == "toggle"@ {
        if mode == Mode::Hidden {
            CmdPlan::Show
        } else {
            CmdPlan::Hide
        }
    } else if cmd == "show"@ {
        CmdPlan::Show
    } else if cmd == "hide"@ {
        CmdPlan::Hide
    } else if cmd == "search"@ {
        CmdPlan::Search
    } else {
        CmdPlan::Ignore
    }
}


/// What a key in the search field asks the program to do after the state
/// was updated.
#[derive(Debug, Clone, Copy, PartialEq, Eq, Structural)]
pub enum KeyAction {
    Ignore,
    /// Rest (park the panel).
    Rest,
    /// Focus the selected window, then rest.
    Commit,
    /// The list or selection changed: redraw.
    Redraw,
}

/// Whether no character of `v` is a control character.
fn no_control(v: &[char]) -> (r: bool)
    ensures
        r == (forall|i: int| 0 <= i < v@.len() ==> !text::is_ctrl(#[trigger] v@[i])),
{
    let mut i: usize = 0;
    while i < v.len()
        invariant
            i <= v@.len(),
            forall|j: int| 0 <= j < i ==> !text::is_ctrl(#[trigger] v@[j]),
        decreases v@.len() - i,
    {
        if text::is_control(v[i]) {
            return false;
        }
        i = i + 1;
    }
    true
}

/// The text a key types, if it types any: non-empty and free of control
/// characters.
pub open spec fn typed_text(key_char: Option<Seq<char>>) -> Option<Seq<char>> {
    match key_char {
        Some(s) => if s.len() > 0 && (forall|i: int| 0 <= i < s.len() ==> !text::is_ctrl(#[trigger] s[i])) {
            Some(s)
        } else {
            None
        },
        None => None,
    }
}

/// On an empty query, typed text starting with a digit 1-9 that names a
/// row of the display order (of `rows` rows) picks that row.
pub open spec fn digit_jump(query: Seq<char>, rows: nat, typed: Seq<char>) -> Option<usize> {
    if query.len() == 0 && typed.len() > 0 && text::is_digit(typed[0]) {
        let d = text::digit_value(typed[0]);
        if 1 <= d && d <= rows && d <= 9 {
            Some((d - 1) as usize)
        } else {
            None
        }
    } else {
        None
    }
}

/// The query with its last character removed (an empty query stays empty).
pub open spec fn without_last(q: Seq<char>) -> Seq<char> {
    if q.len() == 0 {
        q
    } else {
        q.drop_last()
    }
}

/// How a key press in the search field changes the state and what it asks
/// for (see [`Presence::key`]).
pub open spec fn key_outcome(
    before: Presence,
    after: Presence,
    key: Seq<char>,
    shift: bool,
    key_char: Option<Seq<char>>,
    act: KeyAction,
) -> bool {
    if before.mode != Mode::Search {
        act == KeyAction::Ignore && after == before
    } else if key == "escape"@ {
        act == KeyAction::Rest && after == before
    } else if key == "enter"@ {
        act == KeyAction::Commit && after == before
    } else if key == "down"@ || key == "up"@ || key == "tab"@ {
        let forward = if key == "tab"@ {
            !shift
        } else {
            key == "down"@
        };
        &&& after.same_but_selected(&before)
        &&& after.selected == Presence::stepped(before.selected, before.visible().len(), forward)
        &&& act == (if before.visible().len() > 0 {
            KeyAction::Redraw
        } else {
            KeyAction::Ignore
        })
    } else if key == "backspace"@ {
        &&& after.query@ == without_last(before.query@)
        &&& after.requeried(&before)
        &&& act == KeyAction::Redraw
    } else {
        match typed_text(key_char) {
            None => act == KeyAction::Ignore && after == before,
            Some(s) => match digit_jump(before.query@, before.order@.len(), s) {
                Some(p) => act == KeyAction::Commit && after.same_but_selected(&before)
                    && after.selected == p,
                None => after.query@ == before.query@ + s && after.requeried(&before) && act
                    == KeyAction::Redraw,
            },
        }
    }
}


/// How a window-list change event is to be handled.
#[derive(Debug, Clone, Copy, PartialEq, Eq, Structural)]
pub enum ListUpdate {
    /// The panel is parked: push it back off screen.
    Repark,
    /// The panel is visible: rebuild the list now (see
    /// [`Presence::refresh_keeping`]) and re-place it.
    Refresh,
    /// A cycling session keeps its list.
    Keep,
}

/// Entry `e` with a new title and running command.
pub open spec fn retitled(e: WinEntry, title: String, command: Option<String>) -> WinEntry {
    WinEntry {
        address: e.address,
        class: e.class,
        initial_class: e.initial_class,
        title,
        workspace_id: e.workspace_id,
        workspace_name: e.workspace_name,
        focus_history_id: e.focus_history_id,
        fullscreen: e.fullscreen,
        floating: e.floating,
        command,
    }
}

/// The pins after toggling `address`: every pin of it removed, or, when
/// there was none, `address` added at the end.
pub open spec fn toggled_pins(pins: Seq<String>, address: String) -> Seq<String> {
    let rest = pins.filter(|a: String| a@ != address@);
    if rest.len() == pins.len() {
        rest.push(address)
    } else {
        rest
    }
}

/// Toggling a window's pin flips whether it is pinned.
pub proof fn lemma_toggle_pin_flips(pins: Seq<String>, address: String)
    ensures
        windows::is_pinned_addr(toggled_pins(pins, address), address@) == !windows::is_pinned_addr(
            pins,
            address@,
        ),
{
    let pred = |a: String| a@ != address@;
    let rest = pins.filter(pred);
    order::lemma_filter_keeps_all(pins, pred);
    if windows::is_pinned_addr(pins, address@) {
        let j = choose|j: int| 0 <= j < pins.len() && pins[j]@ == address@;
        assert(!pred(pins[j]));
        assert(toggled_pins(pins, address) == rest);
        assert forall|q: int| 0 <= q < rest.len() implies #[trigger] rest[q]@ != address@ by {
            pins.lemma_filter_pred(pred, q);
        }
    } else {
        assert forall|i: int| 0 <= i < pins.len() implies pred(pins[i]) by {}
        let t = toggled_pins(pins, address);
        assert(t == pins.push(address));
        assert(t[pins.len() as int]@ == address@);
    }
}

/// Toggling a window that is not pinned twice leaves the pins as they were.
pub proof fn lemma_toggle_pin_twice(pins: Seq<String>, address: String)
    requires
        !windows::is_pinned_addr(pins, address@),
    ensures
        toggled_pins(toggled_pins(pins, address), address) == pins,
{
    let pred = |a: String| a@ != address@;
    order::lemma_filter_keeps_all(pins, pred);
    assert forall|i: int| 0 <= i < pins.len() implies pred(pins[i]) by {}
    let once = pins.push(address);
    assert(toggled_pins(pins, address) == once);
    reveal(Seq::filter);
    assert(once.drop_last() =~= pins);
    assert(once.filter(pred) == pins.filter(pred));
    assert(once.filter(pred) == pins);
}

/// A pinned app, shown as a dock-style launcher in the panel header.
#[derive(Debug)]
pub struct Launcher {
    pub class: String,
    pub name: String,
    /// the app's launch command, when a desktop entry is known for it
    pub exec_line: Option<String>,
    /// a window of the app is open
    pub running: bool,
}

/// The first installed app from position `k` on whose class matches `pin`.
pub open spec fn first_app_from(apps: Seq<DesktopApp>, pin: Seq<char>, k: int) -> Option<int>
    decreases apps.len() - k,
{
    if k < 0 || k >= apps.len() {
        None
    } else if apps::classes_match(pin, apps[k].class@) {
        Some(k)
    } else {
        first_app_from(apps, pin, k + 1)
    }
}

/// Whether window `e` belongs to the app of class `class` (by its class or
/// its initial class).
pub open spec fn of_class(class: Seq<char>, e: WinEntry) -> bool {
    apps::classes_match(class, e.class@) || apps::classes_match(class, e.initial_class@)
}

/// Whether a window of the pinned class is open.
pub open spec fn has_window(entries: Seq<WinEntry>, pin: Seq<char>) -> bool {
    exists|i: int| 0 <= i < entries.len() && #[trigger] of_class(pin, entries[i])
}

/// The launcher for `pin`: named and launched after the first installed
/// app of its class (its class name capitalised, and no launch command,
/// when there is none), running when a window of the class is open.
pub open spec fn launcher_for(
    apps: Seq<DesktopApp>,
    entries: Seq<WinEntry>,
    pin: String,
    l: Launcher,
) -> bool {
    &&& l.class@ == pin@
    &&& match first_app_from(apps, pin@, 0) {
        Some(k) => l.name@ == apps[k].name@ && l.exec_line == Some(apps[k].exec_line),
        None => l.name@ == windows::app_name_of(pin@) && l.exec_line is None,
    }
    &&& l.running == has_window(entries, pin@)
}

fn has_window_exec(entries: &Vec<WinEntry>, pin: &str) -> (r: bool)
    ensures
        r == has_window(entries@, pin@),
{
    let mut i: usize = 0;
    while i < entries.len()
        invariant
            i <= entries@.len(),
            forall|j: int| 0 <= j < i ==> !#[trigger] of_class(pin@, entries@[j]),
        decreases entries@.len() - i,
    {
        let hit = apps::class_matches(pin, entries[i].class.as_str()) || apps::class_matches(
            pin,
            entries[i].initial_class.as_str(),
        );
        if hit {
            assert(of_class(pin@, entries@[i as int]));
            return true;
        }
        assert(!of_class(pin@, entries@[i as int]));
        i = i + 1;
    }
    false
}

/// The installed app a pin stands for: the first one whose class matches.
pub fn app_for_pin(apps: &Vec<DesktopApp>, pin: &str) -> (r: Option<usize>)
    ensures
        match r {
            Some(k) => k < apps@.len() && first_app_from(apps@, pin@, 0) == Some(k as int),
            None => first_app_from(apps@, pin@, 0) is None,
        },
{
    let mut k: usize = 0;
    while k < apps.len()
        invariant
            k <= apps@.len(),
            first_app_from(apps@, pin@, 0) == first_app_from(apps@, pin@, k as int),
        decreases apps@.len() - k,
    {
        if apps::class_matches(pin, apps[k].class.as_str()) {
            return Some(k);
        }
        k = k + 1;
    }
    None
}

/// The dock rows for the pinned apps, in pin order.
pub fn launchers(pinned: &Vec<String>, apps: &Vec<DesktopApp>, entries: &Vec<WinEntry>) -> (r:
    Vec<Launcher>)
    ensures
        r@.len() == pinned@.len(),
        forall|i: int|
            0 <= i < pinned@.len() ==> launcher_for(apps@, entries@, pinned@[i], #[trigger] r@[i]),
{
    let mut r: Vec<Launcher> = Vec::new();
    let mut i: usize = 0;
    while i < pinned.len()
        invariant
            i <= pinned@.len(),
            r@.len() == i,
            forall|q: int| 0 <= q < i ==> launcher_for(apps@, entries@, pinned@[q], #[trigger] r@[q]),
        decreases pinned@.len() - i,
    {
        let pin = &pinned[i];
        let found = app_for_pin(apps, pin.as_str());
        let (name, exec_line) = match found {
            Some(k) => (text::clone_string(&apps[k].name), Some(text::clone_string(&apps[k].exec_line))),
            None => (windows::app_name(pin.as_str()), None),
        };
        let l = Launcher {
            class: text::clone_string(pin),
            name,
            exec_line,
            running: has_window_exec(entries, pin.as_str()),
        };
        r.push(l);
        i = i + 1;
    }
    r
}

/// What clicking a launcher asks for.
#[derive(Debug)]
pub enum LaunchPlan {
    /// Run this launch command.
    Exec(String),
    /// Focus the listed entry with this index.
    Focus(usize),
    Nothing,
}

/// The first listed entry from position `k` on whose class (or initial
/// class) matches `class`.
pub open spec fn first_window_from(entries: Seq<WinEntry>, class: Seq<char>, k: int) -> Option<int>
    decreases entries.len() - k,
{
    if k < 0 || k >= entries.len() {
        None
    } else if of_class(class, entries[k]) {
        Some(k)
    } else {
        first_window_from(entries, class, k + 1)
    }
}

/// What clicking the launcher of `class` with launch command `exec_line`
/// does (see [`Presence::launch_plan`]).
pub open spec fn launch_plan_of(entries: Seq<WinEntry>, class: Seq<char>, exec_line: Option<String>) -> LaunchPlan {
    match exec_line {
        Some(x) => LaunchPlan::Exec(x),
        None => match first_window_from(entries, class, 0) {
            Some(i) => LaunchPlan::Focus(i as usize),
            None => LaunchPlan::Nothing,
        },
    }
}


/// Stepping the selection one way and then the other returns it to where
/// it was, on any list it lies in.
pub proof fn lemma_step_round_trip(sel: usize, len: nat, forward: bool)
    requires
        sel < len,
        len <= usize::MAX,
    ensures
        Presence::stepped(Presence::stepped(sel, len, forward), len, !forward) == sel,
{
    let l = len as int;
    let s = sel as int;
    if forward {
        if s + 1 < l {
            assert((s + 1) % l == s + 1) by (nonlinear_arith)
                requires
                    0 <= s + 1 < l,
            ;
            assert(s % l == s) by (nonlinear_arith)
                requires
                    0 <= s < l,
            ;
        } else {
            assert((s + 1) % l == 0) by (nonlinear_arith)
                requires
                    s + 1 == l,
                    l > 0,
            ;
            assert((-1int) % l == l - 1) by (nonlinear_arith)
                requires
                    l > 0,
            ;
        }
    } else {
        if s > 0 {
            assert((s - 1) % l == s - 1) by (nonlinear_arith)
                requires
                    0 <= s - 1 < l,
            ;
            assert(s % l == s) by (nonlinear_arith)
                requires
                    0 <= s < l,
            ;
        } else {
            assert((-1int) % l == l - 1) by (nonlinear_arith)
                requires
                    l > 0,
            ;
            assert(l % l == 0) by (nonlinear_arith)
                requires
                    l > 0,
            ;
        }
    }
}

/// A reveal that was superseded (by a park, an ended interaction, a newer
/// reveal or a cancelled hover) never shows the panel: its timer presents
/// a generation that is no longer the latest. This is what keeps a quick
/// Alt-Tab (committed before the show delay) from flashing the panel.
pub proof fn lemma_superseded_reveal_never_fires(before: Presence, after: Presence)
    requires
        after.reveal_gen == Presence::next_gen(before.reveal_gen),
    ensures
        !after.reveal_fires(before.reveal_gen),
{
}

/// A hover auto-hide that was superseded (the pointer came back, a newer
/// hide, a hold-open or an ended interaction) never hides the panel.
pub proof fn lemma_superseded_hide_never_fires(before: Presence, after: Presence)
    requires
        after.hide_gen == Presence::next_gen(before.hide_gen),
    ensures
        !after.hide_fires(before.hide_gen),
{
}


/// The entry `mru_best` picks is the most recently used other window: its
/// focus history id is non-zero and no larger than any other non-zero one;
/// there is none only when every id is zero.
pub proof fn lemma_mru_best(entries: Seq<WinEntry>)
    requires
        entries.len() <= usize::MAX,
    ensures
        match mru_best(entries) {
            Some(b) => {
                &&& b < entries.len()
                &&& entries[b as int].focus_history_id != 0
                &&& forall|i: int|
                    0 <= i < entries.len() && (#[trigger] entries[i]).focus_history_id != 0
                        ==> entries[b as int].focus_history_id <= entries[i].focus_history_id
            },
            None => forall|i: int|
                0 <= i < entries.len() ==> (#[trigger] entries[i]).focus_history_id == 0,
        },
    decreases entries.len(),
{
    if entries.len() > 0 {
        let init = entries.drop_last();
        let n = entries.len() - 1;
        lemma_mru_best(init);
        assert forall|i: int| 0 <= i < init.len() implies #[trigger] init[i] == entries[i] by {}
        let f = entries.last().focus_history_id;
        assert(entries.last() == entries[n]);
        match mru_best(init) {
            Some(j) => {
                assert(init[j as int] == entries[j as int]);
                assert forall|i: int|
                    0 <= i < entries.len() && (#[trigger] entries[i]).focus_history_id
                        != 0 implies entries[mru_best(entries)->0 as int].focus_history_id
                    <= entries[i].focus_history_id by {
                    if i < n {
                        assert(init[i] == entries[i]);
                    }
                }
            },
            None => {
                assert forall|i: int|
                    0 <= i < entries.len() && (#[trigger] entries[i]).focus_history_id
                        != 0 implies i == n by {
                    if i < n {
                        assert(init[i] == entries[i]);
                    }
                }
            },
        }
    }
}

/// Scanning the display order from `k` finds a row of address `a` when
/// one lies at or after `k`.
proof fn lemma_first_pos_from_finds(
    entries: Seq<WinEntry>,
    order: Seq<usize>,
    a: Seq<char>,
    k: int,
    j: int,
)
    requires
        0 <= k <= j < order.len(),
        entries[order[j] as int].address@ == a,
    ensures
        first_pos_from(entries, order, a, k) matches Some(m) && k <= m < order.len()
            && entries[order[m] as int].address@ == a,
    decreases j - k,
{
    if entries[order[k] as int].address@ != a {
        lemma_first_pos_from_finds(entries, order, a, k + 1, j);
    }
}

/// A quick Alt-Tab tap switches to the previous window: a forward cycle
/// (and `show`) starts on the row of the most recently used other window,
/// whenever some window has a non-zero focus history id.
pub proof fn lemma_cycle_starts_on_previous_window(p: Presence)
    requires
        p.list_ok(),
        p.selected == mru_position_of(p.entries@, p.order@),
        mru_best(p.entries@) is Some,
    ensures
        ({
            let b = mru_best(p.entries@)->0 as int;
            let e = p.entries@;
            &&& p.selected < p.order@.len()
            &&& e[p.order@[p.selected as int] as int].address@ == e[b].address@
            &&& e[b].focus_history_id != 0
            &&& forall|i: int|
                0 <= i < e.len() && (#[trigger] e[i]).focus_history_id != 0
                    ==> e[b].focus_history_id <= e[i].focus_history_id
        }),
{
    let e = p.entries@;
    lemma_mru_best(e);
    let b = mru_best(e)->0;
    windows::lemma_display_order_permutation(e, p.pinned_windows@);
    assert(p.order@.contains(b));
    let j = choose|j: int| 0 <= j < p.order@.len() && p.order@[j] == b;
    lemma_first_pos_from_finds(e, p.order@, e[b as int].address@, 0, j);
    let m = first_pos(e, p.order@, e[b as int].address@)->0;
    assert(p.order.len() == p.order@.len());
    assert(p.selected == m);
}

/// The number beside a row is the digit that picks it: in the search field,
/// while no query filters the list, pressing a row's badge digit commits
/// to that row.
pub proof fn lemma_badge_digit_picks_row(
    before: Presence,
    after: Presence,
    c: char,
    position: nat,
    act: KeyAction,
)
    requires
        before.mode == Mode::Search,
        position < before.visible().len(),
        before.badge(position) is Some,
        text::is_digit(c),
        text::digit_value(c) == before.badge(position)->0,
        key_outcome(before, after, seq![c], false, Some(seq![c]), act),
    ensures
        act == KeyAction::Commit,
        after.selected == position,
{
    reveal_strlit("escape");
    reveal_strlit("enter");
    reveal_strlit("down");
    reveal_strlit("up");
    reveal_strlit("tab");
    reveal_strlit("backspace");
    let k = seq![c];
    assert(k.len() == 1);
    assert(k != "escape"@ && k != "enter"@ && k != "down"@);
    assert(k != "up"@ && k != "tab"@ && k != "backspace"@);
    assert(!text::is_ctrl(k[0]));
    assert(typed_text(Some(k)) == Some(k));
}

/// The long dash that joins a terminal's running command to its title.
pub open spec fn label_joiner() -> Seq<char> {
    seq![' ', '\u{2014}', ' ']
}

/// A row's label: the window title, or the app name when the title is
/// empty; inside a terminal the running command leads ("nvim — ~/src").
pub open spec fn row_label_of(e: WinEntry) -> Seq<char> {
    let title = if e.title@.len() == 0 {
        windows::app_name_of(e.class@)
    } else {
        e.title@
    };
    match e.command {
        Some(c) => c@ + label_joiner() + title,
        None => title,
    }
}

pub fn row_label(e: &WinEntry) -> (r: String)
    ensures
        r@ == row_label_of(*e),
{
    let title = if e.title.as_str().is_empty() {
        windows::app_name(e.class.as_str())
    } else {
        text::clone_string(&e.title)
    };
    match &e.command {
        Some(c) => {
            let mut s = text::clone_string(c);
            text::push_char(&mut s, ' ');
            text::push_char(&mut s, '\u{2014}');
            text::push_char(&mut s, ' ');
            text::push_str(&mut s, title.as_str());
            assert(s@ =~= c@ + label_joiner() + title@);
            s
        },
        None => title,
    }
}

/// In the search field the cycling shortcuts move the search selection:
/// next/prev (and their workspace forms), when their shortcut is not
/// disabled, step one row (forward for the "next" ones) and never start a
/// fresh Alt-Tab session.
pub proof fn lemma_search_shortcuts_step(
    scope: Scope,
    cmd: Seq<char>,
    alt_tab: CycleScope,
    super_tab: CycleScope,
)
    requires
        cmd == "next"@ || cmd == "prev"@ || cmd == "next-ws"@ || cmd == "prev-ws"@,
        (cmd == "next"@ || cmd == "prev"@) ==> alt_tab != CycleScope::Disabled,
        (cmd == "next-ws"@ || cmd == "prev-ws"@) ==> super_tab != CycleScope::Disabled,
    ensures
        cmd_plan(Mode::Search, scope, cmd, alt_tab, super_tab) == (CmdPlan::Step {
            forward: cmd == "next"@ || cmd == "next-ws"@,
        }),
{
    reveal_strlit("next");
    reveal_strlit("prev");
    reveal_strlit("next-ws");
    reveal_strlit("prev-ws");
    assert("next"@.len() == 4 && "prev"@.len() == 4);
    assert("next-ws"@.len() == 7 && "prev-ws"@.len() == 7);
    assert("next"@[0] != "prev"@[0]);
    assert("next-ws"@[0] != "prev-ws"@[0]);
}

/// In the search field Up moves the selection one row up and Down one row
/// down, wrapping at the ends; Tab moves down and Shift+Tab up. So Down
/// then Up returns the selection to where it was.
pub proof fn lemma_search_arrows_move_one_row(
    before: Presence,
    after: Presence,
    key: Seq<char>,
    shift: bool,
    key_char: Option<Seq<char>>,
    act: KeyAction,
)
    requires
        before.mode == Mode::Search,
        before.selected < before.visible().len(),
        before.visible().len() <= usize::MAX,
        key == "up"@ || key == "down"@ || key == "tab"@,
        key_outcome(before, after, key, shift, key_char, act),
    ensures
        act == KeyAction::Redraw,
        ({
            let n = before.visible().len();
            let s = before.selected as int;
            let up = key == "up"@ || (key == "tab"@ && shift);
            if up {
                after.selected == (if s == 0 {
                    n - 1
                } else {
                    s - 1
                })
            } else {
                after.selected == (if s + 1 == n {
                    0
                } else {
                    s + 1
                })
            }
        }),
{
    reveal_strlit("up");
    reveal_strlit("down");
    reveal_strlit("tab");
    reveal_strlit("escape");
    reveal_strlit("enter");
    assert("up"@.len() == 2 && "down"@.len() == 4 && "tab"@.len() == 3);
    assert("escape"@.len() == 6 && "enter"@.len() == 5);
    let l = before.visible().len() as int;
    let s = before.selected as int;
    if s + 1 < l {
        assert((s + 1) % l == s + 1) by (nonlinear_arith)
            requires
                0 <= s + 1 < l,
        ;
    } else {
        assert((s + 1) % l == 0) by (nonlinear_arith)
            requires
                s + 1 == l,
                l > 0,
        ;
    }
    if s > 0 {
        assert((s - 1) % l == s - 1) by (nonlinear_arith)
            requires
                0 <= s - 1 < l,
        ;
    } else {
        assert((-1int) % l == l - 1) by (nonlinear_arith)
            requires
                l > 0,
        ;
    }
}

/// A launcher without a launch command focuses the first listed window
/// of its app, by class or initial class (the list is most recently used
/// first, so this is the app's most recent window), and does nothing
/// when none is open; one with a launch command runs it.
pub proof fn lemma_launcher_focuses_first_window(
    entries: Seq<WinEntry>,
    class: Seq<char>,
    exec_line: Option<String>,
)
    requires
        entries.len() <= usize::MAX,
    ensures
        match launch_plan_of(entries, class, exec_line) {
            LaunchPlan::Exec(x) => exec_line == Some(x),
            LaunchPlan::Focus(i) => {
                &&& exec_line is None
                &&& i < entries.len()
                &&& (apps::classes_match(class, entries[i as int].class@)
                    || apps::classes_match(class, entries[i as int].initial_class@))
                &&& forall|j: int|
                    0 <= j < i ==> !apps::classes_match(class, (#[trigger] entries[j]).class@)
                        && !apps::classes_match(class, entries[j].initial_class@)
            },
            LaunchPlan::Nothing => {
                &&& exec_line is None
                &&& forall|j: int|
                    0 <= j < entries.len() ==> !apps::classes_match(
                        class,
                        (#[trigger] entries[j]).class@,
                    ) && !apps::classes_match(class, entries[j].initial_class@)
            },
        },
{
    lemma_first_window_from(entries, class, 0);
}

proof fn lemma_first_window_from(entries: Seq<WinEntry>, class: Seq<char>, k: int)
    requires
        0 <= k,
    ensures
        match first_window_from(entries, class, k) {
            Some(i) => k <= i < entries.len() && of_class(class, entries[i]) && forall|j: int|
                k <= j < i ==> !of_class(class, #[trigger] entries[j]),
            None => forall|j: int| k <= j < entries.len() ==> !of_class(class, #[trigger] entries[j]),
        },
    decreases entries.len() - k,
{
    if k < entries.len() && !of_class(class, entries[k]) {
        lemma_first_window_from(entries, class, k + 1);
    }
}

/// The compositor's stock behaviour a disabled shortcut hands back to:
/// switching workspace for Super+Tab, plain window cycling (raising the
/// new window) for Alt+Tab. Each is dispatched on its own, in order.
pub fn stock_binding(workspace: bool, forward: bool) -> (r: Vec<Dsp<'static>>)
    ensures
        r@ == (if workspace {
            seq![Dsp::WorkspaceRel { forward }]
        } else {
            seq![Dsp::CycleNext { prev: !forward }, Dsp::BringActiveToTop]
        }),
{
    if workspace {
        vec![Dsp::WorkspaceRel { forward }]
    } else {
        vec![Dsp::CycleNext { prev: !forward }, Dsp::BringActiveToTop]
    }
}

/// The tag that keeps the parked panel from taking focus (Hyprland
/// delivers no pointer input to such windows).
pub const NOFOCUS_TAG: &'static str = "sidetab-nofocus";

} // verus!
