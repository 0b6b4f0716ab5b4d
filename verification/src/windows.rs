//! The window-list model: MRU order, workspace grouping, fuzzy filter.

use crate::hypr::ctl::Client;
use crate::order::{ins_pos, lemma_ins_pos_bounds, lemma_ins_pos_skip, stable_sort};
use crate::text;
use fuzzy_matcher::skim::SkimMatcherV2;
use fuzzy_matcher::FuzzyMatcher;
use vstd::prelude::*;

verus! {

/// One window in the panel's list.
#[derive(Debug)]
pub struct WinEntry {
    pub address: String,
    pub class: String,
    pub initial_class: String,
    pub title: String,
    pub workspace_id: i64,
    pub workspace_name: String,
    pub focus_history_id: i64,
    pub fullscreen: bool,
    pub floating: bool,
    /// foreground command running inside a terminal window, if any
    pub command: Option<String>,
}

// ---------------------------------------------------------------------
// fetch: client records -> MRU-ordered entries
// ---------------------------------------------------------------------

/// Whether a client belongs in the list: mapped, visible, on a real
/// workspace, and not the panel itself (the settings window is listed).
pub open spec fn listed(c: Client) -> bool {
    c.mapped && !c.hidden && c.class@ != "sidetab"@ && c.workspace.id > 0
}

/// The entry a listed client becomes. Fullscreen is bit 2 of the mask;
/// bit 1 alone is only "maximized".
pub open spec fn entry_from(c: Client, command: Option<String>) -> WinEntry {
    WinEntry {
        address: c.address,
        class: c.class,
        initial_class: c.initial_class,
        title: c.title,
        workspace_id: c.workspace.id,
        workspace_name: c.workspace.name,
        focus_history_id: c.focus_history_id,
        fullscreen: c.fullscreen & 2 != 0,
        floating: c.floating,
        command,
    }
}

/// The listed clients, in the order Hyprland reported them, each paired
/// with the command of the same position.
pub open spec fn listed_entries(clients: Seq<Client>, commands: Seq<Option<String>>) -> Seq<
    WinEntry,
>
    decreases clients.len(),
{
    if clients.len() == 0 {
        Seq::empty()
    } else {
        let p = listed_entries(clients.drop_last(), commands);
        if listed(clients.last()) {
            p.push(entry_from(clients.last(), commands[clients.len() - 1]))
        } else {
            p
        }
    }
}

/// Most-recently-used first: ascending focus history id.
pub open spec fn by_focus() -> spec_fn(WinEntry, WinEntry) -> bool {
    |a: WinEntry, b: WinEntry| a.focus_history_id <= b.focus_history_id
}

/// What [`fetch`] returns: the listed entries, stably sorted by focus
/// history (so equal ids keep Hyprland's order).
pub open spec fn fetched(clients: Seq<Client>, commands: Seq<Option<String>>) -> Seq<WinEntry> {
    stable_sort(listed_entries(clients, commands), by_focus())
}

fn copy_command(c: &Option<String>) -> (r: Option<String>)
    ensures
        r == *c,
{
    match c {
        Some(s) => Some(s.clone()),
        None => None,
    }
}



/// Stable insertion sort by focus history id.
fn sort_by_focus(v: Vec<WinEntry>) -> (r: Vec<WinEntry>)
    ensures
        r@ == stable_sort(v@, by_focus()),
{
    let ghost orig = v@;
    let mut v = v;
    let mut r: Vec<WinEntry> = Vec::new();
    let mut k: usize = 0;
    let n = v.len();
    while v.len() > 0
        invariant
            n == orig.len(),
            k <= n,
            v@ == orig.skip(k as int),
            r@ == stable_sort(orig.take(k as int), by_focus()),
        decreases v@.len(),
    {
        let e = v.remove(0);
        let key = e.focus_history_id;
        let mut j: usize = 0;
        while j < r.len() && r[j].focus_history_id <= key
            invariant
                j <= r@.len(),
                key == e.focus_history_id,
                forall|q: int| 0 <= q < j ==> (by_focus())(#[trigger] r@[q], e),
            decreases r@.len() - j,
        {
            j = j + 1;
        }
        proof {
            lemma_ins_pos_skip(r@, by_focus(), e, j as int);
            if j < r@.len() {
                assert(!(by_focus())(r@.skip(j as int)[0], e));
            }
            assert(ins_pos(r@, by_focus(), e) == j);
            assert(orig.take(k + 1).drop_last() =~= orig.take(k as int));
            assert(orig.take(k + 1).last() == e);
        }
        r.insert(j, e);
        proof {
            assert(v@ =~= orig.skip(k + 1));
        }
        k = k + 1;
    }
    assert(orig.take(n as int) =~= orig);
    r
}

/// The window list from Hyprland's client records, most recently used
/// first. `commands[i]` is the foreground command of `clients[i]` (see
/// [`terminal_command`]).
pub fn fetch(clients: Vec<Client>, commands: Vec<Option<String>>) -> (r: Vec<WinEntry>)
    requires
        commands@.len() == clients@.len(),
    ensures
        r@ == fetched(clients@, commands@),
{
    let mut listed_v: Vec<WinEntry> = Vec::new();
    let mut i: usize = 0;
    while i < clients.len()
        invariant
            i <= clients@.len(),
            commands@.len() == clients@.len(),
            listed_v@ == listed_entries(clients@.take(i as int), commands@),
        decreases clients@.len() - i,
    {
        let c = &clients[i];
        proof {
            assert(clients@.take(i + 1).drop_last() =~= clients@.take(i as int));
            assert(clients@.take(i + 1).last() == clients@[i as int]);
        }
        let is_panel = text::str_eq(c.class.as_str(), "sidetab");
        if c.mapped && !c.hidden && !is_panel && c.workspace.id > 0 {
            let e = WinEntry {
                address: text::clone_string(&c.address),
                class: text::clone_string(&c.class),
                initial_class: text::clone_string(&c.initial_class),
                title: text::clone_string(&c.title),
                workspace_id: c.workspace.id,
                workspace_name: text::clone_string(&c.workspace.name),
                focus_history_id: c.focus_history_id,
                fullscreen: c.fullscreen & 2 != 0,
                floating: c.floating,
                command: copy_command(&commands[i]),
            };
            listed_v.push(e);
        }
        i = i + 1;
    }
    assert(clients@.take(clients@.len() as int) =~= clients@);
    sort_by_focus(listed_v)
}

// ---------------------------------------------------------------------
// grouping
// ---------------------------------------------------------------------

/// A section in the panel, macOS-Contexts style. `rows` index into the
/// entries passed to [`group`]; display order within a group is
/// most-recently-used.
#[derive(Debug)]
pub struct Group {
    pub label: String,
    pub rows: Vec<usize>,
}

/// A group as (label, rows).
pub open spec fn group_view(g: Group) -> (Seq<char>, Seq<usize>) {
    (g.label@, g.rows@)
}

pub open spec fn groups_view(gs: Seq<Group>) -> Seq<(Seq<char>, Seq<usize>)> {
    gs.map_values(|g: Group| group_view(g))
}

/// A window the user pinned by address.
pub open spec fn is_pinned_addr(pinned: Seq<String>, address: Seq<char>) -> bool {
    exists|j: int| 0 <= j < pinned.len() && pinned[j]@ == address
}

pub open spec fn in_pinned(pinned: Seq<String>) -> spec_fn(WinEntry) -> bool {
    |e: WinEntry| is_pinned_addr(pinned, e.address@)
}

pub open spec fn in_fullscreen(pinned: Seq<String>) -> spec_fn(WinEntry) -> bool {
    |e: WinEntry| e.fullscreen && !is_pinned_addr(pinned, e.address@)
}

pub open spec fn is_tiled(pinned: Seq<String>, e: WinEntry) -> bool {
    !e.fullscreen && !e.floating && !is_pinned_addr(pinned, e.address@)
}

pub open spec fn in_workspace(pinned: Seq<String>, ws: i64) -> spec_fn(WinEntry) -> bool {
    |e: WinEntry| is_tiled(pinned, e) && e.workspace_id == ws
}

pub open spec fn in_floating(pinned: Seq<String>) -> spec_fn(WinEntry) -> bool {
    |e: WinEntry| !e.fullscreen && e.floating && !is_pinned_addr(pinned, e.address@)
}

/// Indices (ascending) of the entries satisfying `pred`.
pub open spec fn rows_where(entries: Seq<WinEntry>, pred: spec_fn(WinEntry) -> bool) -> Seq<usize>
    decreases entries.len(),
{
    if entries.len() == 0 {
        Seq::empty()
    } else {
        let r = rows_where(entries.drop_last(), pred);
        if pred(entries.last()) {
            r.push((entries.len() - 1) as usize)
        } else {
            r
        }
    }
}

/// `ids` with `x` added, kept ascending and free of repeats.
pub open spec fn insert_id(ids: Seq<i64>, x: i64) -> Seq<i64> {
    if ids.contains(x) {
        ids
    } else {
        ids.insert(ins_pos(ids, |a: i64, b: i64| a <= b, x), x)
    }
}

/// The workspaces holding tiled windows, ascending, each once.
pub open spec fn workspace_ids(entries: Seq<WinEntry>, pinned: Seq<String>) -> Seq<i64>
    decreases entries.len(),
{
    if entries.len() == 0 {
        Seq::empty()
    } else {
        let ids = workspace_ids(entries.drop_last(), pinned);
        if is_tiled(pinned, entries.last()) {
            insert_id(ids, entries.last().workspace_id)
        } else {
            ids
        }
    }
}

/// A workspace group's header: "Workspace <id>" for numbered workspaces
/// (the name parses as an integer), else the workspace's own name.
pub open spec fn workspace_label(name: Seq<char>, ws: i64) -> Seq<char> {
    if text::parse_int(name) is Some {
        "Workspace "@ + text::int_dec(ws as int)
    } else {
        name
    }
}

pub open spec fn optional_group(label: Seq<char>, rows: Seq<usize>) -> Seq<(Seq<char>, Seq<usize>)> {
    if rows.len() > 0 {
        seq![(label, rows)]
    } else {
        Seq::empty()
    }
}

pub open spec fn workspace_groups(entries: Seq<WinEntry>, pinned: Seq<String>, ids: Seq<i64>) -> Seq<
    (Seq<char>, Seq<usize>),
> {
    ids.map_values(
        |ws: i64|
            {
                let rows = rows_where(entries, in_workspace(pinned, ws));
                (workspace_label(entries[rows[0] as int].workspace_name@, ws), rows)
            },
    )
}

/// The panel's sections: "Pinned" windows first, then "Full Screen", then
/// one group per workspace (ascending) holding its tiled windows, then
/// "Floating". Empty sections are left out.
pub open spec fn grouped(entries: Seq<WinEntry>, pinned: Seq<String>) -> Seq<(Seq<char>, Seq<usize>)> {
    optional_group("Pinned"@, rows_where(entries, in_pinned(pinned))) + optional_group(
        "Full Screen"@,
        rows_where(entries, in_fullscreen(pinned)),
    ) + workspace_groups(entries, pinned, workspace_ids(entries, pinned)) + optional_group(
        "Floating"@,
        rows_where(entries, in_floating(pinned)),
    )
}

pub proof fn lemma_rows_where_bounds(entries: Seq<WinEntry>, pred: spec_fn(WinEntry) -> bool)
    requires
        entries.len() <= usize::MAX,
    ensures
        forall|q: int|
            0 <= q < rows_where(entries, pred).len() ==> #[trigger] rows_where(entries, pred)[q]
                < entries.len() && pred(entries[rows_where(entries, pred)[q] as int]),
    decreases entries.len(),
{
    if entries.len() > 0 {
        let dl = entries.drop_last();
        lemma_rows_where_bounds(dl, pred);
        let r = rows_where(dl, pred);
        let full = rows_where(entries, pred);
        assert forall|q: int| 0 <= q < full.len() implies #[trigger] full[q] < entries.len() && pred(
            entries[full[q] as int],
        ) by {
            if q < r.len() {
                assert(full[q] == r[q]);
                assert(entries[r[q] as int] == dl[r[q] as int]);
            } else {
                assert(full[q] == (entries.len() - 1) as usize);
            }
        }
    }
}

pub proof fn lemma_rows_where_complete(entries: Seq<WinEntry>, pred: spec_fn(WinEntry) -> bool, i: int)
    requires
        0 <= i < entries.len(),
        entries.len() <= usize::MAX,
        pred(entries[i]),
    ensures
        rows_where(entries, pred).contains(i as usize),
    decreases entries.len(),
{
    if i < entries.len() - 1 {
        lemma_rows_where_complete(entries.drop_last(), pred, i);
        let r = rows_where(entries.drop_last(), pred);
        let k = choose|k: int| 0 <= k < r.len() && r[k] == i as usize;
        if pred(entries.last()) {
            assert(r.push((entries.len() - 1) as usize)[k] == i as usize);
        }
    } else {
        assert(rows_where(entries, pred).last() == i as usize);
    }
}

pub proof fn lemma_workspace_ids_tiled(entries: Seq<WinEntry>, pinned: Seq<String>, ws: i64)
    requires
        workspace_ids(entries, pinned).contains(ws),
    ensures
        exists|i: int| 0 <= i < entries.len() && (in_workspace(pinned, ws))(#[trigger] entries[i]),
    decreases entries.len(),
{
    let ids = workspace_ids(entries.drop_last(), pinned);
    if entries.len() > 0 {
        let last = entries.last();
        if is_tiled(pinned, last) && !ids.contains(last.workspace_id) {
            let le = |a: i64, b: i64| a <= b;
            let p = ins_pos(ids, le, last.workspace_id);
            lemma_ins_pos_bounds(ids, le, last.workspace_id);
            let k = choose|k: int| 0 <= k < ids.insert(p, last.workspace_id).len() && ids.insert(
                p,
                last.workspace_id,
            )[k] == ws;
            if ws == last.workspace_id {
                assert((in_workspace(pinned, ws))(entries[entries.len() - 1]));
            } else {
                if k < p {
                    assert(ids[k] == ws);
                } else {
                    assert(ids[k - 1] == ws);
                }
                lemma_workspace_ids_tiled(entries.drop_last(), pinned, ws);
                let i = choose|i: int|
                    0 <= i < entries.drop_last().len() && (in_workspace(pinned, ws))(
                        #[trigger] entries.drop_last()[i],
                    );
                assert(entries[i] == entries.drop_last()[i]);
            }
        } else {
            lemma_workspace_ids_tiled(entries.drop_last(), pinned, ws);
            let i = choose|i: int|
                0 <= i < entries.drop_last().len() && (in_workspace(pinned, ws))(
                    #[trigger] entries.drop_last()[i],
                );
            assert(entries[i] == entries.drop_last()[i]);
        }
    }
}

/// For each entry, whether its address is among the pinned ones.
fn pinned_flags(entries: &Vec<WinEntry>, pinned: &Vec<String>) -> (r: Vec<bool>)
    ensures
        r@.len() == entries@.len(),
        forall|i: int|
            0 <= i < entries@.len() ==> #[trigger] r@[i] == is_pinned_addr(pinned@, entries@[i].address@),
{
    let mut r: Vec<bool> = Vec::new();
    let mut i: usize = 0;
    while i < entries.len()
        invariant
            i <= entries@.len(),
            r@.len() == i,
            forall|q: int|
                0 <= q < i ==> #[trigger] r@[q] == is_pinned_addr(pinned@, entries@[q].address@),
        decreases entries@.len() - i,
    {
        let mut found = false;
        let mut j: usize = 0;
        while j < pinned.len()
            invariant
                j <= pinned@.len(),
                i < entries@.len(),
                found == exists|k: int| 0 <= k < j && pinned@[k]@ == entries@[i as int].address@,
            decreases pinned@.len() - j,
        {
            if text::str_eq(pinned[j].as_str(), entries[i].address.as_str()) {
                found = true;
            }
            j = j + 1;
        }
        r.push(found);
        i = i + 1;
    }
    r
}

/// Category of each entry: 0 pinned, 1 full screen, 2 tiled, 3 floating.
pub open spec fn category(pinned: Seq<String>, e: WinEntry) -> int {
    if is_pinned_addr(pinned, e.address@) {
        0
    } else if e.fullscreen {
        1
    } else if !e.floating {
        2
    } else {
        3
    }
}

/// The indices of the entries with `flags[i] == want` (`flags` being a
/// computed category per entry), as rows.
fn rows_with(
    entries: &Vec<WinEntry>,
    cats: &Vec<u8>,
    want: u8,
    ws: Option<i64>,
    Ghost(pred): Ghost<spec_fn(WinEntry) -> bool>,
) -> (r: Vec<usize>)
    requires
        cats@.len() == entries@.len(),
        forall|i: int|
            0 <= i < entries@.len() ==> (pred(#[trigger] entries@[i]) == (cats@[i] == want && match ws {
                Some(w) => entries@[i].workspace_id == w,
                None => true,
            })),
    ensures
        r@ == rows_where(entries@, pred),
{
    let mut r: Vec<usize> = Vec::new();
    let mut i: usize = 0;
    while i < entries.len()
        invariant
            i <= entries@.len(),
            cats@.len() == entries@.len(),
            forall|q: int|
                0 <= q < entries@.len() ==> (pred(#[trigger] entries@[q]) == (cats@[q] == want
                    && match ws {
                    Some(w) => entries@[q].workspace_id == w,
                    None => true,
                })),
            r@ == rows_where(entries@.take(i as int), pred),
        decreases entries@.len() - i,
    {
        proof {
            assert(entries@.take(i + 1).drop_last() =~= entries@.take(i as int));
            assert(entries@.take(i + 1).last() == entries@[i as int]);
        }
        let hit = cats[i] == want && match ws {
            Some(w) => entries[i].workspace_id == w,
            None => true,
        };
        if hit {
            r.push(i);
        }
        i = i + 1;
    }
    assert(entries@.take(entries@.len() as int) =~= entries@);
    r
}

fn label_of(t: &str) -> (s: String)
    ensures
        s@ == t@,
{
    text::owned(t)
}

/// The panel's sections for `entries` (see [`grouped`]).
pub fn group(entries: &Vec<WinEntry>, pinned_windows: &Vec<String>) -> (r: Vec<Group>)
    ensures
        groups_view(r@) == grouped(entries@, pinned_windows@),
{
    let ghost p = pinned_windows@;
    let flags = pinned_flags(entries, pinned_windows);
    // per-entry category, as in `category`
    let mut cats: Vec<u8> = Vec::new();
    let mut i: usize = 0;
    while i < entries.len()
        invariant
            i <= entries@.len(),
            flags@.len() == entries@.len(),
            forall|q: int|
                0 <= q < entries@.len() ==> #[trigger] flags@[q] == is_pinned_addr(
                    p,
                    entries@[q].address@,
                ),
            cats@.len() == i,
            forall|q: int| 0 <= q < i ==> #[trigger] cats@[q] as int == category(p, entries@[q]),
        decreases entries@.len() - i,
    {
        let c: u8 = if flags[i] {
            0
        } else if entries[i].fullscreen {
            1
        } else if !entries[i].floating {
            2
        } else {
            3
        };
        cats.push(c);
        i = i + 1;
    }
    let mut groups: Vec<Group> = Vec::new();
    let pinned_rows = rows_with(entries, &cats, 0, None, Ghost(in_pinned(p)));
    if pinned_rows.len() > 0 {
        groups.push(Group { label: label_of("Pinned"), rows: pinned_rows });
    }
    let full_rows = rows_with(entries, &cats, 1, None, Ghost(in_fullscreen(p)));
    if full_rows.len() > 0 {
        groups.push(Group { label: label_of("Full Screen"), rows: full_rows });
    }
    let ghost head = groups_view(groups@);
    assert(head =~= optional_group("Pinned"@, rows_where(entries@, in_pinned(p))) + optional_group(
        "Full Screen"@,
        rows_where(entries@, in_fullscreen(p)),
    ));
    // workspaces with tiled windows, ascending, each once
    let mut ids: Vec<i64> = Vec::new();
    let mut i: usize = 0;
    while i < entries.len()
        invariant
            i <= entries@.len(),
            cats@.len() == entries@.len(),
            forall|q: int| 0 <= q < entries@.len() ==> #[trigger] cats@[q] as int == category(p, entries@[q]),
            ids@ == workspace_ids(entries@.take(i as int), p),
        decreases entries@.len() - i,
    {
        proof {
            assert(entries@.take(i + 1).drop_last() =~= entries@.take(i as int));
            assert(entries@.take(i + 1).last() == entries@[i as int]);
        }
        if cats[i] == 2 {
            let x = entries[i].workspace_id;
            let mut present = false;
            let mut j: usize = 0;
            while j < ids.len()
                invariant
                    j <= ids@.len(),
                    present == exists|k: int| 0 <= k < j && ids@[k] == x,
                decreases ids@.len() - j,
            {
                if ids[j] == x {
                    present = true;
                }
                j = j + 1;
            }
            if !present {
                let mut j: usize = 0;
                while j < ids.len() && ids[j] <= x
                    invariant
                        j <= ids@.len(),
                        forall|q: int| 0 <= q < j ==> (|a: i64, b: i64| a <= b)(#[trigger] ids@[q], x),
                    decreases ids@.len() - j,
                {
                    j = j + 1;
                }
                proof {
                    let le = |a: i64, b: i64| a <= b;
                    lemma_ins_pos_skip(ids@, le, x, j as int);
                    if j < ids@.len() {
                        assert(!le(ids@.skip(j as int)[0], x));
                    }
                    assert(!ids@.contains(x));
                }
                ids.insert(j, x);
            } else {
                proof {
                    let k = choose|k: int| 0 <= k < ids@.len() && ids@[k] == x;
                    assert(ids@.contains(x));
                }
            }
        }
        i = i + 1;
    }
    assert(entries@.take(entries@.len() as int) =~= entries@);
    let ghost ids_spec = workspace_ids(entries@, p);
    let n_entries = entries.len();
    let mut k: usize = 0;
    while k < ids.len()
        invariant
            k <= ids@.len(),
            ids@ == ids_spec,
            ids_spec == workspace_ids(entries@, p),
            n_entries == entries@.len(),
            cats@.len() == entries@.len(),
            forall|q: int| 0 <= q < entries@.len() ==> #[trigger] cats@[q] as int == category(p, entries@[q]),
            groups_view(groups@) == head + workspace_groups(entries@, p, ids_spec.take(k as int)),
        decreases ids@.len() - k,
    {
        let ws = ids[k];
        let rows = rows_with(entries, &cats, 2, Some(ws), Ghost(in_workspace(p, ws)));
        proof {
            assert(ids_spec.contains(ws));
            lemma_workspace_ids_tiled(entries@, p, ws);
            let i = choose|i: int| 0 <= i < entries@.len() && (in_workspace(p, ws))(#[trigger] entries@[i]);
            lemma_rows_where_complete(entries@, in_workspace(p, ws), i);
            lemma_rows_where_bounds(entries@, in_workspace(p, ws));
        }
        let first = rows[0];
        let name = &entries[first].workspace_name;
        let label = match text::parse_i64_str(name.as_str()) {
            Some(_) => {
                let mut s = label_of("Workspace ");
                text::push_i64(&mut s, ws);
                s
            },
            None => text::clone_string(name),
        };
        let ghost g = (label@, rows@);
        let ghost before = groups@;
        groups.push(Group { label, rows });
        proof {
            assert(ids_spec.take(k + 1) =~= ids_spec.take(k as int).push(ws));
            assert(workspace_groups(entries@, p, ids_spec.take(k + 1)) =~= workspace_groups(
                entries@,
                p,
                ids_spec.take(k as int),
            ).push(g));
            assert(groups_view(groups@) =~= groups_view(before).push(g));
        }
        k = k + 1;
    }
    assert(ids_spec.take(ids@.len() as int) =~= ids_spec);
    let float_rows = rows_with(entries, &cats, 3, None, Ghost(in_floating(p)));
    let ghost before = groups@;
    if float_rows.len() > 0 {
        groups.push(Group { label: label_of("Floating"), rows: float_rows });
        assert(groups_view(groups@) =~= groups_view(before).push(("Floating"@, float_rows@)));
    }
    assert(groups_view(groups@) =~= grouped(entries@, p));
    groups
}

/// The rows of the groups, group after group.
pub open spec fn order_of(groups: Seq<(Seq<char>, Seq<usize>)>) -> Seq<usize> {
    groups.map_values(|g: (Seq<char>, Seq<usize>)| g.1).flatten()
}

/// Flat display order (entry indices) for selection cycling and digit hints.
pub fn display_order(groups: &Vec<Group>) -> (r: Vec<usize>)
    ensures
        r@ == order_of(groups_view(groups@)),
{
    let ghost rows = groups_view(groups@).map_values(|g: (Seq<char>, Seq<usize>)| g.1);
    let mut r: Vec<usize> = Vec::new();
    let mut k: usize = 0;
    while k < groups.len()
        invariant
            k <= groups@.len(),
            rows == groups_view(groups@).map_values(|g: (Seq<char>, Seq<usize>)| g.1),
            r@ == rows.take(k as int).flatten(),
        decreases groups@.len() - k,
    {
        let g = &groups[k];
        let mut j: usize = 0;
        let ghost start = r@;
        while j < g.rows.len()
            invariant
                j <= g.rows@.len(),
                r@ == start + g.rows@.take(j as int),
            decreases g.rows@.len() - j,
        {
            r.push(g.rows[j]);
            assert(g.rows@.take(j + 1) =~= g.rows@.take(j as int).push(g.rows@[j as int]));
            assert(start + g.rows@.take(j + 1) =~= (start + g.rows@.take(j as int)).push(
                g.rows@[j as int],
            ));
            j = j + 1;
        }
        proof {
            assert(g.rows@.take(g.rows@.len() as int) =~= g.rows@);
            assert(rows[k as int] == g.rows@);
            assert(rows.take(k + 1) =~= rows.take(k as int).push(g.rows@));
            rows.take(k as int).lemma_flatten_push(g.rows@);
        }
        k = k + 1;
    }
    assert(rows.take(groups@.len() as int) =~= rows);
    r
}

// ---------------------------------------------------------------------
// fuzzy filter
// ---------------------------------------------------------------------

/// The score `SkimMatcherV2::default().fuzzy_match(choice, pattern)`
/// gives, `None` when `pattern` does not match `choice`.
pub uninterp spec fn skim_score(choice: Seq<char>, pattern: Seq<char>) -> Option<i64>;

/// Wraps `fuzzy_matcher`'s `SkimMatcherV2::fuzzy_match` with the default
/// (smart-case) configuration. Its result depends on the two strings
/// only; the crate returns `Some(0)` for an empty pattern.
#[verifier::external_body]
fn fuzzy_score(choice: &str, pattern: &str) -> (r: Option<i64>)
    ensures
        r == skim_score(choice@, pattern@),
        pattern@.len() == 0 ==> r == Some(0i64),
{
    SkimMatcherV2::default().fuzzy_match(choice, pattern)
}

/// The text a window is searched by: class, initial class, title and
/// running command, separated by single spaces.
pub open spec fn haystack(e: WinEntry) -> Seq<char> {
    e.class@ + seq![' '] + e.initial_class@ + seq![' '] + e.title@ + seq![' '] + match e.command {
        Some(c) => c@,
        None => Seq::<char>::empty(),
    }
}

fn haystack_of(e: &WinEntry) -> (r: String)
    ensures
        r@ == haystack(*e),
{
    let mut s = String::new();
    text::push_str(&mut s, e.class.as_str());
    text::push_char(&mut s, ' ');
    text::push_str(&mut s, e.initial_class.as_str());
    text::push_char(&mut s, ' ');
    text::push_str(&mut s, e.title.as_str());
    text::push_char(&mut s, ' ');
    match &e.command {
        Some(c) => {
            text::push_str(&mut s, c.as_str());
        },
        None => {},
    }
    assert(s@ =~= haystack(*e));
    s
}

/// (score, index) for every entry that matched, in entry order.
pub open spec fn scored(scores: Seq<Option<i64>>) -> Seq<(i64, usize)>
    decreases scores.len(),
{
    if scores.len() == 0 {
        Seq::empty()
    } else {
        let p = scored(scores.drop_last());
        match scores.last() {
            Some(sc) => p.push((sc, (scores.len() - 1) as usize)),
            None => p,
        }
    }
}

/// Best score first; equal scores keep entry order.
pub open spec fn by_score_desc() -> spec_fn((i64, usize), (i64, usize)) -> bool {
    |a: (i64, usize), b: (i64, usize)| a.0 >= b.0
}

/// The matching entry indices, best match first.
pub open spec fn ranked(scores: Seq<Option<i64>>) -> Seq<usize> {
    stable_sort(scored(scores), by_score_desc()).map_values(|p: (i64, usize)| p.1)
}

/// Orders the matched entries by score: `scores[i]` is entry `i`'s fuzzy
/// score (`None` when it did not match).
pub fn rank_matches(scores: &Vec<Option<i64>>) -> (r: Vec<usize>)
    ensures
        r@ == ranked(scores@),
{
    let ghost le = by_score_desc();
    let mut sorted: Vec<(i64, usize)> = Vec::new();
    let mut i: usize = 0;
    while i < scores.len()
        invariant
            i <= scores@.len(),
            le == by_score_desc(),
            sorted@ == stable_sort(scored(scores@.take(i as int)), le),
        decreases scores@.len() - i,
    {
        proof {
            assert(scores@.take(i + 1).drop_last() =~= scores@.take(i as int));
            assert(scores@.take(i + 1).last() == scores@[i as int]);
        }
        match scores[i] {
            Some(sc) => {
                let e = (sc, i);
                let mut j: usize = 0;
                while j < sorted.len() && sorted[j].0 >= sc
                    invariant
                        j <= sorted@.len(),
                        le == by_score_desc(),
                        e == (sc, i),
                        forall|q: int| 0 <= q < j ==> le(#[trigger] sorted@[q], e),
                    decreases sorted@.len() - j,
                {
                    j = j + 1;
                }
                proof {
                    lemma_ins_pos_skip(sorted@, le, e, j as int);
                    if j < sorted@.len() {
                        assert(!le(sorted@.skip(j as int)[0], e));
                    }
                    let sc_seq = scored(scores@.take(i + 1));
                    assert(sc_seq == scored(scores@.take(i as int)).push(e));
                    assert(sc_seq.drop_last() =~= scored(scores@.take(i as int)));
                }
                sorted.insert(j, e);
            },
            None => {},
        }
        i = i + 1;
    }
    assert(scores@.take(scores@.len() as int) =~= scores@);
    let mut r: Vec<usize> = Vec::new();
    let mut k: usize = 0;
    while k < sorted.len()
        invariant
            k <= sorted@.len(),
            r@ == sorted@.take(k as int).map_values(|p: (i64, usize)| p.1),
        decreases sorted@.len() - k,
    {
        r.push(sorted[k].1);
        assert(sorted@.take(k + 1).map_values(|p: (i64, usize)| p.1) =~= sorted@.take(
            k as int,
        ).map_values(|p: (i64, usize)| p.1).push(sorted@[k as int].1));
        k = k + 1;
    }
    assert(sorted@.take(sorted@.len() as int) =~= sorted@);
    r
}

/// The fuzzy score of every entry against `query`.
pub open spec fn entry_scores(entries: Seq<WinEntry>, query: Seq<char>) -> Seq<Option<i64>> {
    entries.map_values(|e: WinEntry| skim_score(haystack(e), query))
}

/// Fuzzy-filtered entry indices, best match first.
pub fn filter(entries: &Vec<WinEntry>, query: &str) -> (r: Vec<usize>)
    ensures
        r@ == ranked(entry_scores(entries@, query@)),
{
    let mut scores: Vec<Option<i64>> = Vec::new();
    let mut i: usize = 0;
    while i < entries.len()
        invariant
            i <= entries@.len(),
            scores@ == entry_scores(entries@.take(i as int), query@),
        decreases entries@.len() - i,
    {
        let h = haystack_of(&entries[i]);
        let sc = fuzzy_score(h.as_str(), query);
        scores.push(sc);
        assert(entry_scores(entries@.take(i + 1), query@) =~= entry_scores(
            entries@.take(i as int),
            query@,
        ).push(sc));
        i = i + 1;
    }
    assert(entries@.take(entries@.len() as int) =~= entries@);
    rank_matches(&scores)
}

// ---------------------------------------------------------------------
// display names and terminals
// ---------------------------------------------------------------------

/// Nice app display name from a window class: the last dot-separated
/// segment with its first character uppercased
/// ("org.mozilla.firefox" -> "Firefox").
pub open spec fn app_name_of(class: Seq<char>) -> Seq<char> {
    let last = text::after_last(class, '.');
    if last.len() == 0 {
        Seq::empty()
    } else {
        text::uppercase_of(last[0]) + last.drop_first()
    }
}

pub fn app_name(class: &str) -> (r: String)
    ensures
        r@ == app_name_of(class@),
{
    let v = text::chars_of(class);
    let last = text::after_last_chars(v.as_slice(), '.');
    if last.len() == 0 {
        return String::new();
    }
    let mut s = text::char_to_uppercase(last[0]);
    let rest = text::sub_vec(last.as_slice(), 1, last.len());
    text::push_chars(&mut s, rest.as_slice());
    assert(rest@ =~= last@.drop_first());
    s
}

/// Window classes that are terminal emulators (their titles usually only
/// say user@host:cwd, so the foreground command is surfaced as well).
pub open spec fn terminal_names() -> Seq<Seq<char>> {
    seq![
        "alacritty"@,
        "kitty"@,
        "foot"@,
        "footclient"@,
        "ghostty"@,
        "wezterm"@,
        "konsole"@,
        "xterm"@,
        "urxvt"@,
        "st"@,
        "st-256color"@,
        "terminator"@,
        "tilix"@,
        "xfce4-terminal"@,
        "gnome-terminal-server"@,
    ]
}

/// A class names a terminal when its lowercase form, or the last
/// dot-separated segment of that, is one of [`terminal_names`].
pub open spec fn is_terminal_class(class: Seq<char>) -> bool {
    let lc = text::lowercase(class);
    let last = text::after_last(lc, '.');
    terminal_names().contains(lc) || terminal_names().contains(last)
}

fn terminal_name(k: usize) -> (r: &'static str)
    requires
        k < 15,
    ensures
        r@ == terminal_names()[k as int],
{
    match k {
        0 => "alacritty",
        1 => "kitty",
        2 => "foot",
        3 => "footclient",
        4 => "ghostty",
        5 => "wezterm",
        6 => "konsole",
        7 => "xterm",
        8 => "urxvt",
        9 => "st",
        10 => "st-256color",
        11 => "terminator",
        12 => "tilix",
        13 => "xfce4-terminal",
        _ => "gnome-terminal-server",
    }
}

/// Whether a window class is a terminal emulator.
pub fn is_terminal(class: &str) -> (r: bool)
    ensures
        r == is_terminal_class(class@),
{
    let lc_s = text::to_lowercase(class);
    let lc = text::chars_of(lc_s.as_str());
    let last = text::after_last_chars(lc.as_slice(), '.');
    let mut k: usize = 0;
    let mut found = false;
    while k < 15
        invariant
            k <= 15,
            terminal_names().len() == 15,
            lc@ == text::lowercase(class@),
            last@ == text::after_last(lc@, '.'),
            found == exists|q: int|
                0 <= q < k && (terminal_names()[q] == lc@ || terminal_names()[q] == last@),
        decreases 15 - k,
    {
        let t = text::chars_of(terminal_name(k));
        if text::chars_eq(t.as_slice(), lc.as_slice()) || text::chars_eq(t.as_slice(), last.as_slice()) {
            found = true;
        }
        k = k + 1;
    }
    proof {
        if terminal_names().contains(lc@) {
            let q = choose|q: int| 0 <= q < 15 && terminal_names()[q] == lc@;
        }
        if terminal_names().contains(last@) {
            let q = choose|q: int| 0 <= q < 15 && terminal_names()[q] == last@;
        }
    }
    found
}

/// Foreground command for a window if it's a terminal, `None` otherwise.
/// `foreground` looks up what runs in the terminal with process id `pid`
/// and is only asked for terminals.
pub fn terminal_command<F: FnOnce(i64) -> Option<String>>(class: &str, pid: i64, foreground: F) -> (r:
    Option<String>)
    requires
        is_terminal_class(class@) ==> foreground.requires((pid,)),
    ensures
        !is_terminal_class(class@) ==> r is None,
        is_terminal_class(class@) ==> foreground.ensures((pid,), r),
{
    if is_terminal(class) {
        foreground(pid)
    } else {
        None
    }
}

/// The shell a terminal runs: the first pid listed in
/// `/proc/<pid>/task/<pid>/children`.
pub open spec fn first_child_of(children: Seq<char>) -> Option<i64> {
    let w = text::words(children);
    if w.len() == 0 {
        None
    } else {
        text::parse_int(w[0])
    }
}

pub fn first_child(children: &str) -> (r: Option<i64>)
    ensures
        r == first_child_of(children@),
{
    let v = text::chars_of(children);
    let w = text::words_of(v.as_slice());
    if w.len() == 0 {
        None
    } else {
        text::parse_i64(w[0].as_slice())
    }
}

/// The tty's foreground process group from `/proc/<pid>/stat`: the sixth
/// field after the command name, which ends at the last `)` (the name
/// itself may hold spaces and parentheses).
pub open spec fn tpgid_of(stat: Seq<char>) -> Option<i64> {
    let after = text::after_last(stat, ')');
    if after.len() == stat.len() {
        None
    } else {
        let w = text::words(after);
        if w.len() > 5 {
            text::parse_int(w[5])
        } else {
            None
        }
    }
}

pub fn stat_tpgid(stat: &str) -> (r: Option<i64>)
    ensures
        r == tpgid_of(stat@),
{
    let v = text::chars_of(stat);
    let after = text::after_last_chars(v.as_slice(), ')');
    if after.len() == v.len() {
        return None;
    }
    let w = text::words_of(after.as_slice());
    if w.len() > 5 {
        text::parse_i64(w[5].as_slice())
    } else {
        None
    }
}

/// Whether the terminal's foreground group `fg` is a job rather than the
/// shell idling at its prompt.
pub open spec fn runs_job(shell: i64, fg: i64) -> bool {
    fg > 0 && fg != shell
}

pub fn is_job(shell: i64, fg: i64) -> (r: bool)
    ensures
        r == runs_job(shell, fg),
{
    fg > 0 && fg != shell
}

/// The non-empty NUL-separated arguments of a `/proc/<pid>/cmdline`.
pub open spec fn cmdline_args(raw: Seq<u8>) -> Seq<Seq<u8>> {
    text::split_on(raw, 0u8).filter(|a: Seq<u8>| a.len() > 0)
}

/// How a running command is shown: the program's file name, then up to
/// three arguments, separated by spaces; cut to 47 characters plus "…"
/// when longer than 48.
pub open spec fn command_text(raw: Seq<u8>) -> Option<Seq<char>> {
    let args = cmdline_args(raw);
    if args.len() == 0 {
        None
    } else {
        let name = text::after_last(text::utf8_lossy(args[0]), '/');
        let rest = args.subrange(1, if args.len() < 4 { args.len() as int } else { 4 }).map_values(
            |a: Seq<u8>| text::utf8_lossy(a),
        );
        let cmd = if rest.len() == 0 {
            name
        } else {
            name + seq![' '] + text::join(rest, seq![' '])
        };
        if cmd.len() > 48 {
            Some(cmd.take(47).push('…'))
        } else {
            Some(cmd)
        }
    }
}

/// The display text of a process's command line (see [`command_text`]).
pub fn command_line(raw: &[u8]) -> (r: Option<String>)
    ensures
        match r {
            Some(s) => command_text(raw@) == Some(s@),
            None => command_text(raw@) is None,
        },
{
    let pieces = text::split_bytes(raw, 0u8);
    let ghost all = text::split_on(raw@, 0u8);
    let ghost pred = |a: Seq<u8>| a.len() > 0;
    let mut args: Vec<Vec<u8>> = Vec::new();
    let mut i: usize = 0;
    while i < pieces.len()
        invariant
            i <= pieces@.len(),
            pieces@.len() == all.len(),
            all == text::split_on(raw@, 0u8),
            pred == (|a: Seq<u8>| a.len() > 0),
            forall|k: int| 0 <= k < pieces@.len() ==> #[trigger] pieces@[k]@ == all[k],
            args@.len() == all.take(i as int).filter(pred).len(),
            forall|k: int|
                0 <= k < args@.len() ==> #[trigger] args@[k]@ == all.take(i as int).filter(pred)[k],
        decreases pieces@.len() - i,
    {
        proof {
            assert(all.take(i + 1) =~= all.take(i as int).push(all[i as int]));
            all.take(i as int).lemma_filter_push(all[i as int], pred);
        }
        if pieces[i].len() > 0 {
            args.push(pieces[i].clone());
        }
        i = i + 1;
    }
    assert(all.take(all.len() as int) =~= all);
    let ghost spec_args = cmdline_args(raw@);
    if args.len() == 0 {
        return None;
    }
    let argv0 = text::from_utf8_lossy(args[0].as_slice());
    let argv0_chars = text::chars_of(argv0.as_str());
    let name = text::after_last_chars(argv0_chars.as_slice(), '/');
    let end: usize = if args.len() < 4 {
        args.len()
    } else {
        4
    };
    let mut rest: Vec<Vec<char>> = Vec::new();
    let mut k: usize = 1;
    while k < end
        invariant
            1 <= k <= end <= args@.len(),
            end == (if args@.len() < 4 { args@.len() } else { 4 }),
            args@.len() == spec_args.len(),
            forall|q: int| 0 <= q < args@.len() ==> #[trigger] args@[q]@ == spec_args[q],
            rest@.len() == k - 1,
            forall|q: int|
                0 <= q < rest@.len() ==> #[trigger] rest@[q]@ == text::utf8_lossy(spec_args[q + 1]),
        decreases end - k,
    {
        let a = text::from_utf8_lossy(args[k].as_slice());
        rest.push(text::chars_of(a.as_str()));
        k = k + 1;
    }
    let ghost rest_spec = spec_args.subrange(1, end as int).map_values(
        |a: Seq<u8>| text::utf8_lossy(a),
    );
    assert(rest@.map_values(|p: Vec<char>| p@) =~= rest_spec);
    let mut cmd = text::string_of(name.as_slice());
    if rest.len() > 0 {
        text::push_char(&mut cmd, ' ');
        let joined = text::join_chars(&rest, " ");
        text::push_str(&mut cmd, joined.as_str());
        proof {
            assert(" "@ == seq![' ']) by {
                reveal_strlit(" ");
            }
        }
    }
    let cv = text::chars_of(cmd.as_str());
    if cv.len() > 48 {
        let mut cut = text::sub_vec(cv.as_slice(), 0, 47);
        cut.push('…');
        let out = text::string_of(cut.as_slice());
        assert(cut@ =~= cv@.take(47).push('…'));
        Some(out)
    } else {
        Some(cmd)
    }
}


// ---------------------------------------------------------------------
// sections
// ---------------------------------------------------------------------

/// The section an entry belongs in: `(0, _)` pinned, `(1, _)` full
/// screen, `(2, ws)` the tiled windows of workspace `ws`, `(3, _)`
/// floating.
pub open spec fn slot(pinned: Seq<String>, e: WinEntry) -> (int, i64) {
    if is_pinned_addr(pinned, e.address@) {
        (0, 0)
    } else if e.fullscreen {
        (1, 0)
    } else if !e.floating {
        (2, e.workspace_id)
    } else {
        (3, 0)
    }
}

pub open spec fn in_slot(pinned: Seq<String>, s: (int, i64)) -> spec_fn(WinEntry) -> bool {
    |e: WinEntry| slot(pinned, e) == s
}

pub open spec fn opt_slot(rows: Seq<usize>, s: (int, i64)) -> Seq<(int, i64)> {
    if rows.len() > 0 {
        seq![s]
    } else {
        Seq::empty()
    }
}

/// The section of each group, in group order.
pub open spec fn group_slots(entries: Seq<WinEntry>, pinned: Seq<String>) -> Seq<(int, i64)> {
    opt_slot(rows_where(entries, in_pinned(pinned)), (0, 0)) + opt_slot(
        rows_where(entries, in_fullscreen(pinned)),
        (1, 0),
    ) + workspace_ids(entries, pinned).map_values(|ws: i64| (2int, ws)) + opt_slot(
        rows_where(entries, in_floating(pinned)),
        (3, 0),
    )
}

/// Each group holds exactly the entries of its section, in list order.
pub proof fn lemma_group_slots(entries: Seq<WinEntry>, pinned: Seq<String>)
    ensures
        group_slots(entries, pinned).len() == grouped(entries, pinned).len(),
        forall|g: int|
            0 <= g < grouped(entries, pinned).len() ==> #[trigger] grouped(entries, pinned)[g].1
                == rows_where(entries, in_slot(pinned, group_slots(entries, pinned)[g])),
{
    let gs = grouped(entries, pinned);
    let sl = group_slots(entries, pinned);
    let ids = workspace_ids(entries, pinned);
    assert(in_pinned(pinned) =~= in_slot(pinned, (0, 0)));
    assert(in_fullscreen(pinned) =~= in_slot(pinned, (1, 0)));
    assert(in_floating(pinned) =~= in_slot(pinned, (3, 0)));
    let a = optional_group("Pinned"@, rows_where(entries, in_pinned(pinned)));
    let b = optional_group("Full Screen"@, rows_where(entries, in_fullscreen(pinned)));
    let w = workspace_groups(entries, pinned, ids);
    let c = optional_group("Floating"@, rows_where(entries, in_floating(pinned)));
    let sa = opt_slot(rows_where(entries, in_pinned(pinned)), (0, 0));
    let sb = opt_slot(rows_where(entries, in_fullscreen(pinned)), (1, 0));
    let sw = ids.map_values(|ws: i64| (2int, ws));
    let sc = opt_slot(rows_where(entries, in_floating(pinned)), (3, 0));
    assert(gs == a + b + w + c);
    assert(sl == sa + sb + sw + sc);
    assert forall|g: int| 0 <= g < gs.len() implies #[trigger] gs[g].1 == rows_where(
        entries,
        in_slot(pinned, sl[g]),
    ) by {
        if g < a.len() {
            assert(gs[g] == a[g] && sl[g] == sa[g]);
        } else if g < a.len() + b.len() {
            assert(gs[g] == b[g - a.len()] && sl[g] == sb[g - a.len()]);
        } else if g < a.len() + b.len() + w.len() {
            let k = g - a.len() - b.len();
            assert(gs[g] == w[k] && sl[g] == sw[k]);
            assert(in_workspace(pinned, ids[k]) =~= in_slot(pinned, (2int, ids[k])));
        } else {
            let k = g - a.len() - b.len() - w.len();
            assert(gs[g] == c[k] && sl[g] == sc[k]);
        }
    }
}

/// The rows of a filter come in increasing order.
pub proof fn lemma_rows_where_ascending(entries: Seq<WinEntry>, pred: spec_fn(WinEntry) -> bool)
    requires
        entries.len() <= usize::MAX,
    ensures
        forall|p: int, q: int|
            0 <= p < q < rows_where(entries, pred).len() ==> rows_where(entries, pred)[p]
                < rows_where(entries, pred)[q],
    decreases entries.len(),
{
    if entries.len() > 0 {
        let dl = entries.drop_last();
        lemma_rows_where_ascending(dl, pred);
        lemma_rows_where_bounds(dl, pred);
        let r = rows_where(dl, pred);
        let full = rows_where(entries, pred);
        assert forall|p: int, q: int| 0 <= p < q < full.len() implies full[p] < full[q] by {
            if q < r.len() {
                assert(full[p] == r[p] && full[q] == r[q]);
            } else {
                assert(full[p] == r[p]);
                assert(full[q] == (entries.len() - 1) as usize);
            }
        }
    }
}

/// Each workspace gets one group: the ids are free of repeats.
pub proof fn lemma_workspace_ids_distinct(entries: Seq<WinEntry>, pinned: Seq<String>)
    ensures
        crate::order::no_dup(workspace_ids(entries, pinned)),
    decreases entries.len(),
{
    if entries.len() > 0 {
        let ids = workspace_ids(entries.drop_last(), pinned);
        lemma_workspace_ids_distinct(entries.drop_last(), pinned);
        let x = entries.last().workspace_id;
        if is_tiled(pinned, entries.last()) && !ids.contains(x) {
            let le = |a: i64, b: i64| a <= b;
            let p = ins_pos(ids, le, x);
            lemma_ins_pos_bounds(ids, le, x);
            ids.insert_ensures(p, x);
            let n = ids.insert(p, x);
            assert forall|i: int, j: int| 0 <= i < j < n.len() implies n[i] != n[j] by {
                if i < p && j < p {
                } else if i < p && j == p {
                    assert(ids[i] != x);
                } else if i < p {
                    assert(n[j] == ids[j - 1]);
                } else if i == p {
                    assert(n[j] == ids[j - 1]);
                    assert(ids[j - 1] != x);
                } else {
                    assert(n[i] == ids[i - 1] && n[j] == ids[j - 1]);
                }
            }
        }
    }
}

/// Every tiled entry's workspace has a group.
pub proof fn lemma_workspace_ids_complete(entries: Seq<WinEntry>, pinned: Seq<String>, i: int)
    requires
        0 <= i < entries.len(),
        is_tiled(pinned, entries[i]),
    ensures
        workspace_ids(entries, pinned).contains(entries[i].workspace_id),
    decreases entries.len(),
{
    let ids = workspace_ids(entries.drop_last(), pinned);
    let last = entries.last();
    let le = |a: i64, b: i64| a <= b;
    if i < entries.len() - 1 {
        assert(entries.drop_last()[i] == entries[i]);
        lemma_workspace_ids_complete(entries.drop_last(), pinned, i);
        if is_tiled(pinned, last) && !ids.contains(last.workspace_id) {
            let p = ins_pos(ids, le, last.workspace_id);
            lemma_ins_pos_bounds(ids, le, last.workspace_id);
            ids.insert_ensures(p, last.workspace_id);
            let k = choose|k: int| 0 <= k < ids.len() && ids[k] == entries[i].workspace_id;
            let n = ids.insert(p, last.workspace_id);
            if k < p {
                assert(n[k] == ids[k]);
            } else {
                assert(n[k + 1] == ids[k]);
            }
        }
    } else {
        if !ids.contains(last.workspace_id) {
            let p = ins_pos(ids, le, last.workspace_id);
            lemma_ins_pos_bounds(ids, le, last.workspace_id);
            ids.insert_ensures(p, last.workspace_id);
            assert(ids.insert(p, last.workspace_id)[p] == last.workspace_id);
        }
    }
}

/// Distinct groups belong to distinct sections.
pub proof fn lemma_group_slots_distinct(entries: Seq<WinEntry>, pinned: Seq<String>)
    ensures
        crate::order::no_dup(group_slots(entries, pinned)),
{
    let ids = workspace_ids(entries, pinned);
    lemma_workspace_ids_distinct(entries, pinned);
    let sa = opt_slot(rows_where(entries, in_pinned(pinned)), (0, 0));
    let sb = opt_slot(rows_where(entries, in_fullscreen(pinned)), (1, 0));
    let sw = ids.map_values(|ws: i64| (2int, ws));
    let sc = opt_slot(rows_where(entries, in_floating(pinned)), (3, 0));
    let sl = group_slots(entries, pinned);
    assert(sl == sa + sb + sw + sc);
    let cat = |g: int|
        if g < sa.len() {
            0int
        } else if g < sa.len() + sb.len() {
            1int
        } else if g < sa.len() + sb.len() + sw.len() {
            2int
        } else {
            3int
        };
    assert forall|g: int| 0 <= g < sl.len() implies (#[trigger] sl[g]).0 == cat(g) by {
        if g < sa.len() {
            assert(sl[g] == sa[g]);
        } else if g < sa.len() + sb.len() {
            assert(sl[g] == sb[g - sa.len()]);
        } else if g < sa.len() + sb.len() + sw.len() {
            assert(sl[g] == sw[g - sa.len() - sb.len()]);
        } else {
            assert(sl[g] == sc[g - sa.len() - sb.len() - sw.len()]);
        }
    }
    assert forall|p: int, q: int| 0 <= p < q < sl.len() implies sl[p] != sl[q] by {
        assert(sl[p].0 == cat(p) && sl[q].0 == cat(q));
        if cat(p) == 2 && cat(q) == 2 {
            let i = p - sa.len() - sb.len();
            let j = q - sa.len() - sb.len();
            assert(sl[p] == sw[i] && sl[q] == sw[j]);
            assert(ids[i] != ids[j]);
        }
    }
}

/// Every entry's section has a group.
pub proof fn lemma_group_slots_complete(entries: Seq<WinEntry>, pinned: Seq<String>, i: int)
    requires
        0 <= i < entries.len(),
        entries.len() <= usize::MAX,
    ensures
        group_slots(entries, pinned).contains(slot(pinned, entries[i])),
{
    let e = entries[i];
    let ids = workspace_ids(entries, pinned);
    let sa = opt_slot(rows_where(entries, in_pinned(pinned)), (0, 0));
    let sb = opt_slot(rows_where(entries, in_fullscreen(pinned)), (1, 0));
    let sw = ids.map_values(|ws: i64| (2int, ws));
    let sc = opt_slot(rows_where(entries, in_floating(pinned)), (3, 0));
    let sl = group_slots(entries, pinned);
    assert(sl == sa + sb + sw + sc);
    let s = slot(pinned, e);
    if s.0 == 0 {
        lemma_rows_where_complete(entries, in_pinned(pinned), i);
        assert(sl[0] == s);
    } else if s.0 == 1 {
        lemma_rows_where_complete(entries, in_fullscreen(pinned), i);
        assert(sl[sa.len() as int] == s);
    } else if s.0 == 2 {
        lemma_workspace_ids_complete(entries, pinned, i);
        let k = choose|k: int| 0 <= k < ids.len() && ids[k] == e.workspace_id;
        assert(sl[sa.len() + sb.len() + k] == sw[k]);
    } else {
        lemma_rows_where_complete(entries, in_floating(pinned), i);
        assert(sl[(sa.len() + sb.len() + sw.len()) as int] == s);
    }
}

/// Grouping places every window exactly once: the display order holds
/// each entry index once, and only entry indices.
pub proof fn lemma_display_order_permutation(entries: Seq<WinEntry>, pinned: Seq<String>)
    requires
        entries.len() <= usize::MAX,
    ensures
        ({
            let o = order_of(grouped(entries, pinned));
            &&& forall|k: int| 0 <= k < o.len() ==> #[trigger] o[k] < entries.len()
            &&& crate::order::no_dup(o)
            &&& forall|i: usize| i < entries.len() ==> #[trigger] o.contains(i)
        }),
{
    let gs = grouped(entries, pinned);
    let sl = group_slots(entries, pinned);
    let rows = gs.map_values(|g: (Seq<char>, Seq<usize>)| g.1);
    lemma_order_bound(entries, pinned);
    lemma_group_slots(entries, pinned);
    lemma_group_slots_distinct(entries, pinned);
    assert forall|k: int| 0 <= k < rows.len() implies crate::order::no_dup(#[trigger] rows[k]) by {
        assert(rows[k] == gs[k].1);
        lemma_rows_where_ascending(entries, in_slot(pinned, sl[k]));
    }
    assert forall|k1: int, k2: int, j1: int, j2: int|
        0 <= k1 < k2 < rows.len() && 0 <= j1 < rows[k1].len() && 0 <= j2 < rows[k2].len()
            implies #[trigger] rows[k1][j1] != #[trigger] rows[k2][j2] by {
        assert(rows[k1] == gs[k1].1 && rows[k2] == gs[k2].1);
        lemma_rows_where_bounds(entries, in_slot(pinned, sl[k1]));
        lemma_rows_where_bounds(entries, in_slot(pinned, sl[k2]));
        if rows[k1][j1] == rows[k2][j2] {
            let x = rows[k1][j1] as int;
            assert((in_slot(pinned, sl[k1]))(entries[x]));
            assert((in_slot(pinned, sl[k2]))(entries[x]));
            assert(sl[k1] == sl[k2]);
        }
    }
    crate::order::lemma_flatten_no_dup(rows);
    assert forall|i: usize| i < entries.len() implies #[trigger] order_of(gs).contains(i) by {
        lemma_group_slots_complete(entries, pinned, i as int);
        let g = choose|g: int| 0 <= g < sl.len() && sl[g] == slot(pinned, entries[i as int]);
        lemma_rows_where_complete(entries, in_slot(pinned, sl[g]), i as int);
        let r = rows_where(entries, in_slot(pinned, sl[g]));
        let j = choose|j: int| 0 <= j < r.len() && r[j] == i;
        assert(rows[g] == gs[g].1);
        crate::order::lemma_flatten_contains(rows, g, j);
    }
}

// ---------------------------------------------------------------------
// index bounds
// ---------------------------------------------------------------------

pub proof fn lemma_flatten_bound(gs: Seq<Seq<usize>>, n: int)
    requires
        forall|i: int, j: int| 0 <= i < gs.len() && 0 <= j < gs[i].len() ==> #[trigger] gs[i][j] < n,
    ensures
        forall|k: int| 0 <= k < gs.flatten().len() ==> #[trigger] gs.flatten()[k] < n,
    decreases gs.len(),
{
    if gs.len() > 0 {
        let rest = gs.drop_first();
        assert forall|i: int, j: int| 0 <= i < rest.len() && 0 <= j < rest[i].len() implies #[trigger] rest[i][j] < n by {
            assert(rest[i] == gs[i + 1]);
        }
        lemma_flatten_bound(rest, n);
        let f = gs.flatten();
        assert(f == gs.first() + rest.flatten());
        assert forall|k: int| 0 <= k < f.len() implies #[trigger] f[k] < n by {
            if k < gs.first().len() {
                assert(f[k] == gs[0][k]);
            } else {
                assert(f[k] == rest.flatten()[k - gs.first().len()]);
            }
        }
    }
}

/// Every row of every group indexes an entry.
pub proof fn lemma_grouped_rows_bound(entries: Seq<WinEntry>, pinned: Seq<String>)
    requires
        entries.len() <= usize::MAX,
    ensures
        forall|g: int, j: int|
            0 <= g < grouped(entries, pinned).len() && 0 <= j < grouped(entries, pinned)[g].1.len()
                ==> #[trigger] grouped(entries, pinned)[g].1[j] < entries.len(),
{
    let gs = grouped(entries, pinned);
    let ids = workspace_ids(entries, pinned);
    lemma_rows_where_bounds(entries, in_pinned(pinned));
    lemma_rows_where_bounds(entries, in_fullscreen(pinned));
    lemma_rows_where_bounds(entries, in_floating(pinned));
    assert forall|g: int, j: int| 0 <= g < gs.len() && 0 <= j < gs[g].1.len() implies #[trigger] gs[g].1[j]
        < entries.len() by {
        let a = optional_group("Pinned"@, rows_where(entries, in_pinned(pinned)));
        let b = optional_group("Full Screen"@, rows_where(entries, in_fullscreen(pinned)));
        let w = workspace_groups(entries, pinned, ids);
        let c = optional_group("Floating"@, rows_where(entries, in_floating(pinned)));
        assert(gs == a + b + w + c);
        if g < a.len() {
        } else if g < a.len() + b.len() {
            assert(gs[g] == b[g - a.len()]);
        } else if g < a.len() + b.len() + w.len() {
            let ws = ids[g - a.len() - b.len()];
            assert(gs[g] == w[g - a.len() - b.len()]);
            lemma_rows_where_bounds(entries, in_workspace(pinned, ws));
        } else {
            assert(gs[g] == c[g - a.len() - b.len() - w.len()]);
        }
    }
}

/// The display order only holds indices of entries.
pub proof fn lemma_order_bound(entries: Seq<WinEntry>, pinned: Seq<String>)
    requires
        entries.len() <= usize::MAX,
    ensures
        forall|k: int|
            0 <= k < order_of(grouped(entries, pinned)).len() ==> #[trigger] order_of(
                grouped(entries, pinned),
            )[k] < entries.len(),
{
    let gs = grouped(entries, pinned);
    let rows = gs.map_values(|g: (Seq<char>, Seq<usize>)| g.1);
    lemma_grouped_rows_bound(entries, pinned);
    assert forall|i: int, j: int| 0 <= i < rows.len() && 0 <= j < rows[i].len() implies #[trigger] rows[i][j]
        < entries.len() by {
        assert(rows[i] == gs[i].1);
    }
    lemma_flatten_bound(rows, entries.len() as int);
}

pub proof fn lemma_scored_bound(scores: Seq<Option<i64>>)
    requires
        scores.len() <= usize::MAX,
    ensures
        forall|k: int| 0 <= k < scored(scores).len() ==> (#[trigger] scored(scores)[k]).1 < scores.len(),
    decreases scores.len(),
{
    if scores.len() > 0 {
        lemma_scored_bound(scores.drop_last());
        let p = scored(scores.drop_last());
        assert forall|k: int| 0 <= k < scored(scores).len() implies (#[trigger] scored(scores)[k]).1
            < scores.len() by {
            if k < p.len() {
                assert(scored(scores)[k] == p[k]);
            }
        }
    }
}

/// The fuzzy ranking only holds indices of scored entries.
pub proof fn lemma_ranked_bound(scores: Seq<Option<i64>>)
    requires
        scores.len() <= usize::MAX,
    ensures
        forall|k: int| 0 <= k < ranked(scores).len() ==> #[trigger] ranked(scores)[k] < scores.len(),
{
    let s = scored(scores);
    lemma_scored_bound(scores);
    crate::order::lemma_stable_sort_elems(s, by_score_desc());
    crate::order::lemma_stable_sort_len(s, by_score_desc());
    let st = stable_sort(s, by_score_desc());
    assert forall|k: int| 0 <= k < ranked(scores).len() implies #[trigger] ranked(scores)[k] < scores.len() by {
        assert(ranked(scores)[k] == st[k].1);
        let j = choose|j: int| 0 <= j < s.len() && st[k] == s[j];
    }
}


/// The window list comes most recently used first: focus history ids
/// never decrease along it.
pub proof fn lemma_fetched_mru(clients: Seq<Client>, commands: Seq<Option<String>>)
    ensures
        crate::order::sorted_by(fetched(clients, commands), by_focus()),
{
    crate::order::lemma_stable_sort_sorted(listed_entries(clients, commands), by_focus());
}

/// Within every group the windows keep the list's order, so a list that is
/// most recently used first gives most-recently-used order within groups.
pub proof fn lemma_groups_keep_order(entries: Seq<WinEntry>, pinned: Seq<String>)
    requires
        entries.len() <= usize::MAX,
    ensures
        forall|g: int, p: int, q: int|
            0 <= g < grouped(entries, pinned).len() && 0 <= p < q < grouped(
                entries,
                pinned,
            )[g].1.len() ==> #[trigger] grouped(entries, pinned)[g].1[p] < #[trigger] grouped(
                entries,
                pinned,
            )[g].1[q],
{
    let gs = grouped(entries, pinned);
    let sl = group_slots(entries, pinned);
    lemma_group_slots(entries, pinned);
    assert forall|g: int, p: int, q: int|
        0 <= g < gs.len() && 0 <= p < q < gs[g].1.len() implies #[trigger] gs[g].1[p]
            < #[trigger] gs[g].1[q] by {
        lemma_rows_where_ascending(entries, in_slot(pinned, sl[g]));
    }
}

proof fn lemma_scored_props(scores: Seq<Option<i64>>)
    requires
        scores.len() <= usize::MAX,
    ensures
        forall|k: int|
            0 <= k < scored(scores).len() ==> (#[trigger] scored(scores)[k]).1 < scores.len()
                && scores[scored(scores)[k].1 as int] == Some(scored(scores)[k].0),
        forall|p: int, q: int|
            0 <= p < q < scored(scores).len() ==> (#[trigger] scored(scores)[p]).1 < (
            #[trigger] scored(scores)[q]).1,
        forall|i: int|
            0 <= i < scores.len() && (#[trigger] scores[i]) is Some ==> scored(scores).contains(
                (scores[i]->0, i as usize),
            ),
    decreases scores.len(),
{
    if scores.len() > 0 {
        let d = scores.drop_last();
        lemma_scored_props(d);
        let p = scored(d);
        let full = scored(scores);
        assert forall|k: int| 0 <= k < full.len() implies (#[trigger] full[k]).1 < scores.len()
            && scores[full[k].1 as int] == Some(full[k].0) by {
            if k < p.len() {
                assert(full[k] == p[k]);
                assert(d[p[k].1 as int] == scores[p[k].1 as int]);
            }
        }
        assert forall|a: int, b: int| 0 <= a < b < full.len() implies (#[trigger] full[a]).1 < (
        #[trigger] full[b]).1 by {
            if b < p.len() {
                assert(full[a] == p[a] && full[b] == p[b]);
            } else {
                assert(full[a] == p[a]);
            }
        }
        assert forall|i: int| 0 <= i < scores.len() && (#[trigger] scores[i]) is Some implies full.contains(
            (scores[i]->0, i as usize),
        ) by {
            if i < scores.len() - 1 {
                assert(d[i] == scores[i]);
                let k = choose|k: int| 0 <= k < p.len() && p[k] == (d[i]->0, i as usize);
                assert(full[k] == p[k]);
            } else {
                assert(full[p.len() as int] == (scores[i]->0, i as usize));
            }
        }
    }
}

/// Fuzzy search lists every matching window once and nothing else, best
/// score first.
pub proof fn lemma_ranked_matches(scores: Seq<Option<i64>>)
    requires
        scores.len() <= usize::MAX,
    ensures
        ({
            let r = ranked(scores);
            &&& forall|k: int|
                0 <= k < r.len() ==> #[trigger] r[k] < scores.len() && scores[r[k] as int] is Some
            &&& forall|i: int|
                0 <= i < scores.len() && (#[trigger] scores[i]) is Some ==> r.contains(i as usize)
            &&& crate::order::no_dup(r)
            &&& forall|p: int, q: int|
                0 <= p < q < r.len() ==> scores[(#[trigger] r[p]) as int]->0 >= scores[(
                #[trigger] r[q]) as int]->0
        }),
{
    let s = scored(scores);
    let le = by_score_desc();
    let st = stable_sort(s, le);
    let r = ranked(scores);
    lemma_scored_props(scores);
    crate::order::lemma_stable_sort_len(s, le);
    crate::order::lemma_stable_sort_elems(s, le);
    crate::order::lemma_stable_sort_contains(s, le);
    crate::order::lemma_stable_sort_no_dup(s, le);
    crate::order::lemma_stable_sort_sorted(s, le);
    assert(r.len() == st.len());
    assert forall|k: int| 0 <= k < st.len() implies #[trigger] st[k].1 < scores.len() && scores[st[k].1 as int]
        == Some(st[k].0) by {
        let j = choose|j: int| 0 <= j < s.len() && st[k] == s[j];
    }
    assert forall|k: int| 0 <= k < r.len() implies #[trigger] r[k] < scores.len() && scores[r[k] as int]
        is Some by {
        assert(r[k] == st[k].1);
    }
    assert forall|i: int| 0 <= i < scores.len() && (#[trigger] scores[i]) is Some implies r.contains(
        i as usize,
    ) by {
        let k = choose|k: int| 0 <= k < s.len() && s[k] == (scores[i]->0, i as usize);
        let m = choose|m: int| 0 <= m < st.len() && st[m] == s[k];
        assert(r[m] == st[m].1);
    }
    assert forall|p: int, q: int| 0 <= p < q < r.len() implies r[p] != r[q] by {
        assert(r[p] == st[p].1 && r[q] == st[q].1);
        if st[p].1 == st[q].1 {
            assert(st[p] == st[q]);
        }
    }
    assert forall|p: int, q: int| 0 <= p < q < r.len() implies scores[(#[trigger] r[p]) as int]->0
        >= scores[(#[trigger] r[q]) as int]->0 by {
        assert(r[p] == st[p].1 && r[q] == st[q].1);
        assert(le(st[p], st[q]));
    }
}

} // verus!
