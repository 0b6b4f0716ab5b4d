//! Window class -> app icon.
//!
//! Resolution: class/initialClass -> .desktop entry (filename stem or
//! StartupWMClass, case-insensitive, reverse-DNS aware) -> Icon= name ->
//! icon theme lookup. The program does the theme lookup and rasterizes SVG
//! results once into a cache directory (gpui renders PNG reliably); this
//! module decides which names are tried, in which order, and what the
//! cached files are called.

use crate::apps;
use crate::text;
use vstd::prelude::*;

verus! {

/// The desktop-entry index (lowercase key -> Icon= value, each key once,
/// the first entry for a key winning) and the icon themes to search, in
/// order.
pub struct IconResolver {
    desktop_index: Vec<(String, String)>,
    themes: Vec<String>,
}

/// An index entry as plain values.
pub open spec fn pair_view(p: (String, String)) -> (Seq<char>, Seq<char>) {
    (p.0@, p.1@)
}

/// The value stored for `key`: the first entry with that key.
pub open spec fn index_get(idx: Seq<(Seq<char>, Seq<char>)>, key: Seq<char>) -> Option<Seq<char>>
    decreases idx.len(),
{
    if idx.len() == 0 {
        None
    } else if idx[0].0 == key {
        Some(idx[0].1)
    } else {
        index_get(idx.drop_first(), key)
    }
}

/// `entry(key).or_insert(value)`: the index with `key` added unless it is
/// there already.
pub open spec fn or_insert(idx: Seq<(Seq<char>, Seq<char>)>, key: Seq<char>, value: Seq<char>) -> Seq<
    (Seq<char>, Seq<char>),
> {
    if index_get(idx, key) is Some {
        idx
    } else {
        idx.push((key, value))
    }
}

/// No key occurs twice.
pub open spec fn keys_unique(idx: Seq<(Seq<char>, Seq<char>)>) -> bool {
    forall|i: int, j: int| 0 <= i < j < idx.len() ==> #[trigger] idx[i].0 != #[trigger] idx[j].0
}

/// The keys a desktop entry is filed under: its lowercase file stem, the
/// lowercase last dot-separated segment of the stem (reverse-DNS stems also
/// match by it), and its lowercase StartupWMClass.
pub open spec fn entry_added(
    idx: Seq<(Seq<char>, Seq<char>)>,
    stem: Seq<char>,
    icon: Seq<char>,
    wm_class: Option<Seq<char>>,
) -> Seq<(Seq<char>, Seq<char>)> {
    let a = or_insert(idx, text::lowercase(stem), icon);
    let b = or_insert(a, text::lowercase(text::after_last(stem, '.')), icon);
    match wm_class {
        Some(w) => or_insert(b, text::lowercase(w), icon),
        None => b,
    }
}

proof fn lemma_index_get_found(idx: Seq<(Seq<char>, Seq<char>)>, key: Seq<char>)
    ensures
        index_get(idx, key) is Some <==> exists|i: int| 0 <= i < idx.len() && idx[i].0 == key,
        index_get(idx, key) is Some ==> exists|i: int|
            0 <= i < idx.len() && idx[i].0 == key && index_get(idx, key) == Some(idx[i].1),
    decreases idx.len(),
{
    if idx.len() > 0 {
        lemma_index_get_found(idx.drop_first(), key);
        if idx[0].0 != key {
            assert forall|i: int| 1 <= i < idx.len() implies idx[i] == idx.drop_first()[i - 1] by {}
            if exists|i: int| 0 <= i < idx.len() && idx[i].0 == key {
                let i = choose|i: int| 0 <= i < idx.len() && idx[i].0 == key;
                assert(idx.drop_first()[i - 1].0 == key);
            }
            if index_get(idx, key) is Some {
                let i = choose|i: int|
                    0 <= i < idx.drop_first().len() && idx.drop_first()[i].0 == key && index_get(
                        idx.drop_first(),
                        key,
                    ) == Some(idx.drop_first()[i].1);
                assert(idx[i + 1] == idx.drop_first()[i]);
            }
        }
    }
}

/// Adding keys with `or_insert` keeps every key once.
pub proof fn lemma_or_insert_unique(
    idx: Seq<(Seq<char>, Seq<char>)>,
    key: Seq<char>,
    value: Seq<char>,
)
    requires
        keys_unique(idx),
    ensures
        keys_unique(or_insert(idx, key, value)),
        index_get(or_insert(idx, key, value), key) is Some,
{
    lemma_index_get_found(idx, key);
    let r = or_insert(idx, key, value);
    if index_get(idx, key) is None {
        assert forall|i: int, j: int| 0 <= i < j < r.len() implies #[trigger] r[i].0
            != #[trigger] r[j].0 by {
            if j == idx.len() {
                assert(r[i] == idx[i]);
            } else {
                assert(r[i] == idx[i] && r[j] == idx[j]);
            }
        }
        lemma_index_get_found(r, key);
        assert(r[idx.len() as int].0 == key);
    }
}

fn index_lookup(idx: &Vec<(String, String)>, key: &[char]) -> (r: Option<String>)
    ensures
        match r {
            Some(v) => index_get(idx@.map_values(|p: (String, String)| pair_view(p)), key@)
                == Some(v@),
            None => index_get(idx@.map_values(|p: (String, String)| pair_view(p)), key@) is None,
        },
{
    let ghost view = idx@.map_values(|p: (String, String)| pair_view(p));
    let mut i: usize = 0;
    assert(view.skip(0) =~= view);
    while i < idx.len()
        invariant
            i <= idx@.len(),
            view == idx@.map_values(|p: (String, String)| pair_view(p)),
            index_get(view, key@) == index_get(view.skip(i as int), key@),
        decreases idx@.len() - i,
    {
        let k = text::chars_of(idx[i].0.as_str());
        if text::chars_eq(k.as_slice(), key) {
            return Some(text::clone_string(&idx[i].1));
        }
        assert(view.skip(i as int).drop_first() =~= view.skip(i + 1));
        i = i + 1;
    }
    None
}

impl IconResolver {
    /// The index as plain values.
    pub closed spec fn index(&self) -> Seq<(Seq<char>, Seq<char>)> {
        self.desktop_index@.map_values(|p: (String, String)| pair_view(p))
    }

    /// The themes searched, in order.
    pub closed spec fn theme_names(&self) -> Seq<Seq<char>> {
        self.themes@.map_values(|t: String| t@)
    }

    /// The themes searched, in order.
    pub fn themes(&self) -> (r: &Vec<String>)
        ensures
            r@.map_values(|t: String| t@) == self.theme_names(),
    {
        &self.themes
    }

    /// Every key is filed once.
    pub open spec fn wf(&self) -> bool {
        keys_unique(self.index())
    }

    /// A resolver with no desktop entries yet, searching `themes`.
    pub fn new(themes: Vec<String>) -> (r: IconResolver)
        ensures
            r.wf(),
            r.index().len() == 0,
            r.theme_names() == themes@.map_values(|t: String| t@),
    {
        let r = IconResolver { desktop_index: Vec::new(), themes };
        assert(r.index() =~= Seq::<(Seq<char>, Seq<char>)>::empty());
        r
    }

    fn insert_first(&mut self, key: String, icon: &str)
        requires
            old(self).wf(),
        ensures
            final(self).wf(),
            final(self).index() == or_insert(old(self).index(), key@, icon@),
            final(self).theme_names() == old(self).theme_names(),
    {
        let k = text::chars_of(key.as_str());
        proof {
            lemma_or_insert_unique(self.index(), key@, icon@);
        }
        if index_lookup(&self.desktop_index, k.as_slice()).is_none() {
            let ghost before = self.desktop_index@;
            self.desktop_index.push((key, text::owned(icon)));
            assert(self.index() =~= before.map_values(|p: (String, String)| pair_view(p)).push(
                (key@, icon@),
            ));
        }
    }

    /// File a desktop entry that has an Icon= value under its keys (see
    /// [`entry_added`]); keys already filed keep their icon.
    pub fn add_entry(&mut self, stem: &str, icon: &str, wm_class: Option<&str>)
        requires
            old(self).wf(),
        ensures
            final(self).wf(),
            final(self).index() == entry_added(
                old(self).index(),
                stem@,
                icon@,
                match wm_class {
                    Some(w) => Some(w@),
                    None => None,
                },
            ),
            final(self).theme_names() == old(self).theme_names(),
    {
        self.insert_first(text::to_lowercase(stem), icon);
        let v = text::chars_of(stem);
        let last = text::after_last_chars(v.as_slice(), '.');
        let last_s = text::string_of(last.as_slice());
        self.insert_first(text::to_lowercase(last_s.as_str()), icon);
        match wm_class {
            Some(w) => self.insert_first(text::to_lowercase(w), icon),
            None => {},
        }
    }

    /// Icon= value for a window class, trying the exact (lowercase) class
    /// and then its last dot-separated segment.
    pub fn icon_name_for_class(&self, class: &str) -> (r: Option<String>)
        ensures
            opt_view(r) == icon_name_of(self.index(), class@),
    {
        let lc = text::to_lowercase(class);
        let lcv = text::chars_of(lc.as_str());
        match index_lookup(&self.desktop_index, lcv.as_slice()) {
            Some(icon) => Some(icon),
            None => {
                let last = text::after_last_chars(lcv.as_slice(), '.');
                index_lookup(&self.desktop_index, last.as_slice())
            },
        }
    }

    /// The icon names tried for a window, in order: for its class and then
    /// its initial class (empty ones skipped), the desktop entry's icon, the
    /// lowercase class, and the class itself.
    pub fn candidates(&self, class: &str, initial_class: &str) -> (r: Vec<String>)
        ensures
            r@.map_values(|s: String| s@) == candidate_names(self.index(), class@)
                + candidate_names(self.index(), initial_class@),
    {
        let mut r: Vec<String> = Vec::new();
        self.push_candidates(&mut r, class);
        self.push_candidates(&mut r, initial_class);
        assert(r@.map_values(|s: String| s@) =~= candidate_names(self.index(), class@)
            + candidate_names(self.index(), initial_class@));
        r
    }

    fn push_candidates(&self, r: &mut Vec<String>, class: &str)
        ensures
            final(r)@.map_values(|s: String| s@) == old(r)@.map_values(|s: String| s@)
                + candidate_names(self.index(), class@),
    {
        let ghost before = r@.map_values(|s: String| s@);
        if class.is_empty() {
            assert(r@.map_values(|s: String| s@) =~= before + candidate_names(
                self.index(),
                class@,
            ));
            return;
        }
        let found = self.icon_name_for_class(class);
        let ghost names = match icon_name_of(self.index(), class@) {
            Some(n) => seq![n],
            None => Seq::<Seq<char>>::empty(),
        };
        match found {
            Some(n) => r.push(n),
            None => {},
        }
        assert(r@.map_values(|s: String| s@) =~= before + names);
        r.push(text::to_lowercase(class));
        r.push(text::owned(class));
        assert(r@.map_values(|s: String| s@) =~= before + candidate_names(self.index(), class@));
    }

    /// The first icon found for a window: `find` is tried on each candidate
    /// name in order (see [`IconResolver::candidates`]) and the first hit is
    /// the answer (`None` when every candidate misses; the program then
    /// draws a letter tile).
    pub fn resolve<T, F: Fn(&String) -> Option<T>>(
        &self,
        class: &str,
        initial_class: &str,
        find: F,
    ) -> (r: Option<T>)
        requires
            forall|s: &String| find.requires((s,)),
        ensures
            ({
                let names = candidate_names(self.index(), class@) + candidate_names(
                    self.index(),
                    initial_class@,
                );
                match r {
                    Some(p) => exists|k: int|
                        #![trigger names[k]]
                        0 <= k < names.len() && (exists|s: String|
                            s@ == names[k] && #[trigger] find.ensures((&s,), Some(p))) && (forall|
                            j: int,
                        |
                            0 <= j < k ==> exists|s: String|
                                s@ == #[trigger] names[j] && find.ensures((&s,), None)),
                    None => forall|k: int|
                        0 <= k < names.len() ==> exists|s: String|
                            s@ == #[trigger] names[k] && find.ensures((&s,), None),
                }
            }),
    {
        let cands = self.candidates(class, initial_class);
        let ghost names = cands@.map_values(|s: String| s@);
        let mut i: usize = 0;
        while i < cands.len()
            invariant
                i <= cands@.len(),
                names == cands@.map_values(|s: String| s@),
                names == candidate_names(self.index(), class@) + candidate_names(
                    self.index(),
                    initial_class@,
                ),
                forall|s: &String| find.requires((s,)),
                forall|j: int|
                    0 <= j < i ==> exists|s: String|
                        s@ == #[trigger] names[j] && find.ensures((&s,), None),
            decreases cands@.len() - i,
        {
            let hit = find(&cands[i]);
            match hit {
                Some(p) => {
                    assert(cands@[i as int]@ == names[i as int]);
                    assert(find.ensures((&cands@[i as int],), Some(p)));
                    assert(exists|s: String|
                        s@ == names[i as int] && #[trigger] find.ensures((&s,), Some(p)));
                    return Some(p);
                },
                None => {
                    assert(cands@[i as int]@ == names[i as int]);
                },
            }
            i = i + 1;
        }
        None
    }
}

pub open spec fn opt_view(o: Option<String>) -> Option<Seq<char>> {
    match o {
        Some(s) => Some(s@),
        None => None,
    }
}

/// The Icon= value filed for a window class (see
/// [`IconResolver::icon_name_for_class`]).
pub open spec fn icon_name_of(idx: Seq<(Seq<char>, Seq<char>)>, class: Seq<char>) -> Option<Seq<char>> {
    let lc = text::lowercase(class);
    match index_get(idx, lc) {
        Some(icon) => Some(icon),
        None => index_get(idx, text::after_last(lc, '.')),
    }
}

/// The names tried for one class (none for an empty class).
pub open spec fn candidate_names(idx: Seq<(Seq<char>, Seq<char>)>, class: Seq<char>) -> Seq<Seq<char>> {
    if class.len() == 0 {
        Seq::empty()
    } else {
        (match icon_name_of(idx, class) {
            Some(n) => seq![n],
            None => Seq::empty(),
        }) + seq![text::lowercase(class), class]
    }
}


/// What the lines of a desktop entry read so far say about its icon.
pub struct EntryScan {
    pub in_main: bool,
    pub icon: Option<Seq<char>>,
    pub wm_class: Option<Seq<char>>,
}

/// Reading one more (trimmed) line: a `[...]` line starts a section; inside
/// `[Desktop Entry]`, the first `Icon=` and `StartupWMClass=` values
/// (trimmed) are kept.
pub open spec fn entry_line(st: EntryScan, raw: Seq<char>) -> EntryScan {
    let line = text::trim(raw);
    if line.len() > 0 && line[0] == '[' {
        EntryScan { in_main: line == "[Desktop Entry]"@, ..st }
    } else if !st.in_main {
        st
    } else if text::starts_with(line, "Icon="@) {
        EntryScan {
            icon: apps::keep_first(st.icon, text::trim(line.skip("Icon="@.len() as int))),
            ..st
        }
    } else if text::starts_with(line, "StartupWMClass="@) {
        EntryScan {
            wm_class: apps::keep_first(
                st.wm_class,
                text::trim(line.skip("StartupWMClass="@.len() as int)),
            ),
            ..st
        }
    } else {
        st
    }
}

pub open spec fn entry_scan(lines: Seq<Seq<char>>) -> EntryScan
    decreases lines.len(),
{
    if lines.len() == 0 {
        EntryScan { in_main: false, icon: None, wm_class: None }
    } else {
        entry_line(entry_scan(lines.drop_last()), lines.last())
    }
}

/// The Icon= and StartupWMClass= values of a desktop entry.
pub fn parse_desktop_entry(content: &str) -> (r: (Option<String>, Option<String>))
    ensures
        ({
            let st = entry_scan(text::split_on(content@, '\n'));
            opt_view(r.0) == st.icon && opt_view(r.1) == st.wm_class
        }),
{
    let v = text::chars_of(content);
    let lines = text::split_chars(v.as_slice(), '\n');
    let ghost ls = text::split_on(content@, '\n');
    let header = text::chars_of("[Desktop Entry]");
    let icon_key = text::chars_of("Icon=");
    let wm_key = text::chars_of("StartupWMClass=");
    let mut in_main = false;
    let mut icon: Option<Vec<char>> = None;
    let mut wm: Option<Vec<char>> = None;
    let mut i: usize = 0;
    while i < lines.len()
        invariant
            i <= lines@.len(),
            lines@.len() == ls.len(),
            forall|k: int| 0 <= k < lines@.len() ==> #[trigger] lines@[k]@ == ls[k],
            header@ == "[Desktop Entry]"@,
            icon_key@ == "Icon="@,
            wm_key@ == "StartupWMClass="@,
            entry_scan(ls.take(i as int)) == (EntryScan {
                in_main,
                icon: apps::opt_chars(icon),
                wm_class: apps::opt_chars(wm),
            }),
        decreases lines@.len() - i,
    {
        assert(ls.take(i + 1).drop_last() =~= ls.take(i as int));
        assert(ls.take(i + 1).last() == ls[i as int]);
        let line = text::trim_chars(lines[i].as_slice());
        if line.len() > 0 && line[0] == '[' {
            in_main = text::chars_eq(line.as_slice(), header.as_slice());
        } else if in_main {
            if text::occurs_at_exec(line.as_slice(), icon_key.as_slice(), 0) {
                if icon.is_none() {
                    let rest = text::sub_vec(line.as_slice(), icon_key.len(), line.len());
                    assert(rest@ =~= line@.skip(icon_key@.len() as int));
                    icon = Some(text::trim_chars(rest.as_slice()));
                }
            } else if text::occurs_at_exec(line.as_slice(), wm_key.as_slice(), 0) {
                if wm.is_none() {
                    let rest = text::sub_vec(line.as_slice(), wm_key.len(), line.len());
                    assert(rest@ =~= line@.skip(wm_key@.len() as int));
                    wm = Some(text::trim_chars(rest.as_slice()));
                }
            }
        }
        i = i + 1;
    }
    assert(ls.take(ls.len() as int) =~= ls);
    (to_string_opt(icon), to_string_opt(wm))
}

fn to_string_opt(o: Option<Vec<char>>) -> (r: Option<String>)
    ensures
        opt_view(r) == apps::opt_chars(o),
{
    match o {
        Some(v) => Some(text::string_of(v.as_slice())),
        None => None,
    }
}

/// `ts` with theme `t` appended unless it is listed already.
pub open spec fn with_theme(ts: Seq<Seq<char>>, t: Seq<char>) -> Seq<Seq<char>> {
    if ts.contains(t) {
        ts
    } else {
        ts.push(t)
    }
}

/// The icon themes searched: the desktop's current theme first, then the
/// common fallbacks.
pub open spec fn theme_order(current: Option<Seq<char>>) -> Seq<Seq<char>> {
    let start = match current {
        Some(t) => seq![t],
        None => Seq::<Seq<char>>::empty(),
    };
    with_theme(with_theme(with_theme(start, "hicolor"@), "Adwaita"@), "breeze"@)
}

fn push_theme(ts: &mut Vec<String>, t: &str)
    ensures
        final(ts)@.map_values(|s: String| s@) == with_theme(old(ts)@.map_values(|s: String| s@), t@),
{
    let ghost before = ts@.map_values(|s: String| s@);
    let mut i: usize = 0;
    while i < ts.len()
        invariant
            i <= ts@.len(),
            before == ts@.map_values(|s: String| s@),
            forall|j: int| 0 <= j < i ==> #[trigger] ts@[j]@ != t@,
        decreases ts@.len() - i,
    {
        if text::str_eq(ts[i].as_str(), t) {
            assert(before[i as int] == t@);
            return;
        }
        i = i + 1;
    }
    assert(!before.contains(t@)) by {
        if before.contains(t@) {
            let j = choose|j: int| 0 <= j < before.len() && before[j] == t@;
            assert(ts@[j]@ == t@);
        }
    }
    ts.push(text::owned(t));
    assert(ts@.map_values(|s: String| s@) =~= before.push(t@));
}

/// The icon themes to search (see [`theme_order`]).
pub fn theme_list(current: Option<String>) -> (r: Vec<String>)
    ensures
        r@.map_values(|s: String| s@) == theme_order(opt_view(current)),
{
    let mut ts: Vec<String> = Vec::new();
    match current {
        Some(t) => ts.push(t),
        None => {},
    }
    assert(ts@.map_values(|s: String| s@) =~= (match opt_view(current) {
        Some(t) => seq![t],
        None => Seq::<Seq<char>>::empty(),
    }));
    push_theme(&mut ts, "hicolor");
    push_theme(&mut ts, "Adwaita");
    push_theme(&mut ts, "breeze");
    ts
}

/// The icon theme named by the desktop settings' reply (a quoted string):
/// surrounding whitespace and quotes removed; none when nothing is left.
pub open spec fn icon_theme_of(reply: Seq<char>) -> Option<Seq<char>> {
    let t = text::strip_both(text::strip_both(text::trim(reply), '\''), '"');
    if t.len() == 0 {
        None
    } else {
        Some(t)
    }
}

/// The current icon theme from the desktop settings' raw output.
pub fn parse_icon_theme(stdout: &[u8]) -> (r: Option<String>)
    ensures
        opt_view(r) == icon_theme_of(text::utf8_lossy(stdout@)),
{
    let s = text::from_utf8_lossy(stdout);
    let v = text::chars_of(s.as_str());
    let t = text::trim_chars(v.as_slice());
    let t = text::strip_both_chars(t.as_slice(), '\'');
    let t = text::strip_both_chars(t.as_slice(), '"');
    if t.len() == 0 {
        None
    } else {
        Some(text::string_of(t.as_slice()))
    }
}

/// An icon name made safe for a file name: alphanumerics and `-` kept,
/// everything else `_`.
pub open spec fn safe_name(name: Seq<char>) -> Seq<char> {
    name.map_values(|c: char| if text::alphanumeric(c) || c == '-' { c } else { '_' })
}

/// The file name of an icon's 64px rasterization in the cache.
pub fn cache_png_name(icon_name: &str) -> (r: String)
    ensures
        r@ == safe_name(icon_name@) + "-64.png"@,
{
    let v = text::chars_of(icon_name);
    let mut r = String::new();
    let mut i: usize = 0;
    while i < v.len()
        invariant
            i <= v@.len(),
            v@ == icon_name@,
            r@ == safe_name(v@.take(i as int)),
        decreases v@.len() - i,
    {
        let c = v[i];
        let keep = text::is_alphanumeric(c) || c == '-';
        text::push_char(&mut r, if keep { c } else { '_' });
        assert(r@ =~= safe_name(v@.take(i + 1)));
        i = i + 1;
    }
    assert(v@.take(v@.len() as int) =~= v@);
    text::push_str(&mut r, "-64.png");
    r
}

} // verus!
