//! Installed-application index built from .desktop entries. Backs the
//! pinned-apps picker in settings and dock-style launching from the panel.

use crate::order::{ins_pos, lemma_ins_pos_skip, lemma_stable_sort_sorted, stable_sort};
use crate::text;
use vstd::prelude::*;

verus! {

/// An installed application, from its .desktop entry.
#[derive(Debug)]
pub struct DesktopApp {
    /// Display name (Name=).
    pub name: String,
    /// Best guess at the window class: StartupWMClass= if present,
    /// otherwise the desktop-file stem. Stored in config when pinned.
    pub class: String,
    /// Exec= with %-field codes stripped, ready to hand to `dispatch exec`.
    pub exec_line: String,
    /// Icon= name, if any.
    pub icon: Option<String>,
}

/// Whether a pinned class and a window/app class refer to the same app:
/// equal ignoring ASCII case, or (both non-empty and) equal in their last
/// dot-separated segment, so reverse-DNS ids match ("org.mozilla.firefox"
/// == "firefox").
pub open spec fn classes_match(a: Seq<char>, b: Seq<char>) -> bool {
    let la = text::ascii_lower_seq(a);
    let lb = text::ascii_lower_seq(b);
    la == lb || (la.len() > 0 && lb.len() > 0 && text::after_last(la, '.') == text::after_last(
        lb,
        '.',
    ))
}

pub fn class_matches(a: &str, b: &str) -> (r: bool)
    ensures
        r == classes_match(a@, b@),
{
    let la = text::to_ascii_lowercase(a);
    let lb = text::to_ascii_lowercase(b);
    if text::chars_eq(la.as_slice(), lb.as_slice()) {
        return true;
    }
    if la.len() == 0 || lb.len() == 0 {
        return false;
    }
    let sa = text::after_last_chars(la.as_slice(), '.');
    let sb = text::after_last_chars(lb.as_slice(), '.');
    text::chars_eq(sa.as_slice(), sb.as_slice())
}



/// What the lines of a desktop entry read so far say: whether the reader
/// is inside the `[Desktop Entry]` section, the first value of each key of
/// interest, and whether the entry was ruled out.
pub struct AppScan {
    pub in_main: bool,
    pub name: Option<Seq<char>>,
    pub exec_cmd: Option<Seq<char>>,
    pub icon: Option<Seq<char>>,
    pub wm_class: Option<Seq<char>>,
    pub rejected: bool,
}

/// The first value seen for a key wins.
pub open spec fn keep_first(o: Option<Seq<char>>, v: Seq<char>) -> Option<Seq<char>> {
    match o {
        Some(x) => Some(x),
        None => Some(v),
    }
}

/// Reading one more line of a desktop entry. Lines are trimmed; a `[...]`
/// line starts a section; inside `[Desktop Entry]`, `key=value` lines
/// (both trimmed) set Name, Exec, Icon and StartupWMClass, and rule the
/// entry out when it is not an application (Type) or is hidden, not to be
/// displayed, or runs in a terminal (launchers and terminal apps don't
/// belong in a dock). Nothing changes once the entry is ruled out.
pub open spec fn app_line(st: AppScan, raw: Seq<char>) -> AppScan {
    let line = text::trim(raw);
    if st.rejected {
        st
    } else if line.len() > 0 && line[0] == '[' {
        AppScan { in_main: line == "[Desktop Entry]"@, ..st }
    } else if !st.in_main {
        st
    } else {
        match text::split_once_char(line, '=') {
            None => st,
            Some((k, v)) => {
                let key = text::trim(k);
                let value = text::trim(v);
                if key == "Name"@ {
                    AppScan { name: keep_first(st.name, value), ..st }
                } else if key == "Exec"@ {
                    AppScan { exec_cmd: keep_first(st.exec_cmd, value), ..st }
                } else if key == "Icon"@ {
                    AppScan { icon: keep_first(st.icon, value), ..st }
                } else if key == "StartupWMClass"@ {
                    AppScan { wm_class: keep_first(st.wm_class, value), ..st }
                } else if key == "Type"@ && value != "Application"@ {
                    AppScan { rejected: true, ..st }
                } else if (key == "NoDisplay"@ || key == "Hidden"@ || key == "Terminal"@) && value
                    == "true"@ {
                    AppScan { rejected: true, ..st }
                } else {
                    st
                }
            },
        }
    }
}

/// What a desktop entry's lines say, read in order.
pub open spec fn app_scan(lines: Seq<Seq<char>>) -> AppScan
    decreases lines.len(),
{
    if lines.len() == 0 {
        AppScan { in_main: false, name: None, exec_cmd: None, icon: None, wm_class: None, rejected: false }
    } else {
        app_line(app_scan(lines.drop_last()), lines.last())
    }
}

/// A `%f`/`%u`/... field code in an Exec line (two bytes: `%` and one
/// ASCII character).
pub open spec fn is_field_code(tok: Seq<char>) -> bool {
    tok.len() == 2 && tok[0] == '%' && (tok[1] as u32) < 0x80
}

/// An Exec line with its field codes stripped (they only matter when
/// opening files), its words joined by single spaces.
pub open spec fn launch_command(exec: Seq<char>) -> Seq<char> {
    text::join(text::words(exec).filter(|t: Seq<char>| !is_field_code(t)), " "@)
}

pub open spec fn opt_chars(o: Option<Vec<char>>) -> Option<Seq<char>> {
    match o {
        Some(v) => Some(v@),
        None => None,
    }
}

pub open spec fn opt_text(o: Option<String>) -> Option<Seq<char>> {
    match o {
        Some(s) => Some(s@),
        None => None,
    }
}

/// The app a desktop entry with file stem `stem` describes: none when it
/// was ruled out or lacks Name or Exec; its class is StartupWMClass, else
/// the stem.
pub open spec fn parsed_app(content: Seq<char>, stem: Seq<char>, r: Option<DesktopApp>) -> bool {
    let st = app_scan(text::split_on(content, '\n'));
    if st.rejected || st.exec_cmd is None || st.name is None {
        r is None
    } else {
        &&& r is Some
        &&& r->0.name@ == st.name->0
        &&& r->0.class@ == (match st.wm_class {
            Some(w) => w,
            None => stem,
        })
        &&& r->0.exec_line@ == launch_command(st.exec_cmd->0)
        &&& opt_text(r->0.icon) == st.icon
    }
}

fn is_field_code_exec(tok: &Vec<char>) -> (r: bool)
    ensures
        r == is_field_code(tok@),
{
    tok.len() == 2 && tok[0] == '%' && (tok[1] as u32) < 0x80
}

fn to_string_opt(o: Option<Vec<char>>) -> (r: Option<String>)
    ensures
        opt_text(r) == opt_chars(o),
{
    match o {
        Some(v) => Some(text::string_of(v.as_slice())),
        None => None,
    }
}

/// The launch command of an Exec line (see [`launch_command`]).
pub fn strip_field_codes(exec: &[char]) -> (r: String)
    ensures
        r@ == launch_command(exec@),
{
    let ws = text::words_of(exec);
    let ghost all = text::words(exec@);
    let ghost pred = |t: Seq<char>| !is_field_code(t);
    let mut kept: Vec<Vec<char>> = Vec::new();
    let mut i: usize = 0;
    while i < ws.len()
        invariant
            i <= ws@.len(),
            ws@.len() == all.len(),
            forall|k: int| 0 <= k < ws@.len() ==> #[trigger] ws@[k]@ == all[k],
            pred == (|t: Seq<char>| !is_field_code(t)),
            kept@.map_values(|p: Vec<char>| p@) == all.take(i as int).filter(pred),
        decreases ws@.len() - i,
    {
        proof {
            assert(all.take(i + 1) =~= all.take(i as int).push(all[i as int]));
            all.take(i as int).lemma_filter_push(all[i as int], pred);
        }
        if !is_field_code_exec(&ws[i]) {
            let ghost before = kept@;
            kept.push(ws[i].clone());
            assert(kept@.map_values(|p: Vec<char>| p@) =~= before.map_values(|p: Vec<char>| p@).push(
                all[i as int],
            ));
        }
        i = i + 1;
    }
    assert(all.take(all.len() as int) =~= all);
    text::join_chars(&kept, " ")
}

/// The app a desktop entry (`content`, file stem `stem`) describes.
pub fn parse_app(content: &str, stem: &str) -> (r: Option<DesktopApp>)
    ensures
        parsed_app(content@, stem@, r),
{
    let v = text::chars_of(content);
    let lines = text::split_chars(v.as_slice(), '\n');
    let ghost ls = text::split_on(content@, '\n');
    let header = text::chars_of("[Desktop Entry]");
    let k_name = text::chars_of("Name");
    let k_exec = text::chars_of("Exec");
    let k_icon = text::chars_of("Icon");
    let k_wm = text::chars_of("StartupWMClass");
    let k_type = text::chars_of("Type");
    let v_app = text::chars_of("Application");
    let k_nodisplay = text::chars_of("NoDisplay");
    let k_hidden = text::chars_of("Hidden");
    let k_terminal = text::chars_of("Terminal");
    let v_true = text::chars_of("true");
    let mut in_main = false;
    let mut name: Option<Vec<char>> = None;
    let mut exec: Option<Vec<char>> = None;
    let mut icon: Option<Vec<char>> = None;
    let mut wm: Option<Vec<char>> = None;
    let mut rejected = false;
    let mut i: usize = 0;
    while i < lines.len()
        invariant
            i <= lines@.len(),
            lines@.len() == ls.len(),
            forall|k: int| 0 <= k < lines@.len() ==> #[trigger] lines@[k]@ == ls[k],
            header@ == "[Desktop Entry]"@,
            k_name@ == "Name"@,
            k_exec@ == "Exec"@,
            k_icon@ == "Icon"@,
            k_wm@ == "StartupWMClass"@,
            k_type@ == "Type"@,
            v_app@ == "Application"@,
            k_nodisplay@ == "NoDisplay"@,
            k_hidden@ == "Hidden"@,
            k_terminal@ == "Terminal"@,
            v_true@ == "true"@,
            app_scan(ls.take(i as int)) == (AppScan {
                in_main,
                name: opt_chars(name),
                exec_cmd: opt_chars(exec),
                icon: opt_chars(icon),
                wm_class: opt_chars(wm),
                rejected,
            }),
        decreases lines@.len() - i,
    {
        assert(ls.take(i + 1).drop_last() =~= ls.take(i as int));
        assert(ls.take(i + 1).last() == ls[i as int]);
        if !rejected {
            let line = text::trim_chars(lines[i].as_slice());
            if line.len() > 0 && line[0] == '[' {
                in_main = text::chars_eq(line.as_slice(), header.as_slice());
            } else if in_main {
                match text::split_once_chars(line.as_slice(), '=') {
                    None => {},
                    Some((k, val)) => {
                        let key = text::trim_chars(k.as_slice());
                        let value = text::trim_chars(val.as_slice());
                        if text::chars_eq(key.as_slice(), k_name.as_slice()) {
                            if name.is_none() {
                                name = Some(value);
                            }
                        } else if text::chars_eq(key.as_slice(), k_exec.as_slice()) {
                            if exec.is_none() {
                                exec = Some(value);
                            }
                        } else if text::chars_eq(key.as_slice(), k_icon.as_slice()) {
                            if icon.is_none() {
                                icon = Some(value);
                            }
                        } else if text::chars_eq(key.as_slice(), k_wm.as_slice()) {
                            if wm.is_none() {
                                wm = Some(value);
                            }
                        } else if text::chars_eq(key.as_slice(), k_type.as_slice())
                            && !text::chars_eq(value.as_slice(), v_app.as_slice()) {
                            rejected = true;
                        } else if (text::chars_eq(key.as_slice(), k_nodisplay.as_slice())
                            || text::chars_eq(key.as_slice(), k_hidden.as_slice())
                            || text::chars_eq(key.as_slice(), k_terminal.as_slice()))
                            && text::chars_eq(value.as_slice(), v_true.as_slice()) {
                            rejected = true;
                        }
                    },
                }
            }
        }
        i = i + 1;
    }
    assert(ls.take(ls.len() as int) =~= ls);
    if rejected {
        return None;
    }
    let exec = match exec {
        Some(e) => e,
        None => {
            return None;
        },
    };
    let name = match name {
        Some(n) => n,
        None => {
            return None;
        },
    };
    let exec_line = strip_field_codes(exec.as_slice());
    let class = match wm {
        Some(w) => text::string_of(w.as_slice()),
        None => text::owned(stem),
    };
    Some(DesktopApp { name: text::string_of(name.as_slice()), class, exec_line, icon: to_string_opt(icon) })
}


/// A desktop app as plain values: (name, class, launch command, icon).
pub open spec fn app_view(a: DesktopApp) -> (Seq<char>, Seq<char>, Seq<char>, Option<Seq<char>>) {
    (a.name@, a.class@, a.exec_line@, opt_text(a.icon))
}

pub open spec fn app_views(apps: Seq<DesktopApp>) -> Seq<(Seq<char>, Seq<char>, Seq<char>, Option<Seq<char>>)> {
    apps.map_values(|a: DesktopApp| app_view(a))
}

/// The app a desktop entry with file stem `stem` describes, as plain
/// values (see [`parsed_app`]).
pub open spec fn app_of(content: Seq<char>, stem: Seq<char>) -> Option<(Seq<char>, Seq<char>, Seq<char>, Option<Seq<char>>)> {
    let st = app_scan(text::split_on(content, '\n'));
    if st.rejected || st.exec_cmd is None || st.name is None {
        None
    } else {
        Some(
            (
                st.name->0,
                match st.wm_class {
                    Some(w) => w,
                    None => stem,
                },
                launch_command(st.exec_cmd->0),
                st.icon,
            ),
        )
    }
}

proof fn lemma_parsed_app_of(content: Seq<char>, stem: Seq<char>, r: Option<DesktopApp>)
    requires
        parsed_app(content, stem, r),
    ensures
        match r {
            Some(a) => app_of(content, stem) == Some(app_view(a)),
            None => app_of(content, stem) is None,
        },
{
}

/// Whether the desktop file at position `i` is the first of its desktop id
/// (file stems compare by their lowercase form; earlier data dirs win).
pub open spec fn first_of_id(stems: Seq<Seq<char>>, i: int) -> bool {
    forall|j: int| 0 <= j < i ==> text::lowercase(#[trigger] stems[j]) != text::lowercase(stems[i])
}

/// The apps the desktop files (stem, content when readable) describe, in
/// file order, each desktop id counted once.
pub open spec fn listed_apps(files: Seq<(Seq<char>, Option<Seq<char>>)>) -> Seq<(Seq<char>, Seq<char>, Seq<char>, Option<Seq<char>>)>
    decreases files.len(),
{
    if files.len() == 0 {
        Seq::empty()
    } else {
        let prev = listed_apps(files.drop_last());
        let (stem, content) = files.last();
        if !first_of_id(files.map_values(|f: (Seq<char>, Option<Seq<char>>)| f.0), files.len() - 1) {
            prev
        } else {
            match content {
                Some(c) => match app_of(c, stem) {
                    Some(a) => prev.push(a),
                    None => prev,
                },
                None => prev,
            }
        }
    }
}

pub open spec fn file_views(files: Seq<(String, Option<String>)>) -> Seq<(Seq<char>, Option<Seq<char>>)> {
    files.map_values(|f: (String, Option<String>)| (f.0@, opt_text(f.1)))
}

/// `a <= b` in the order `String`'s `Ord` gives: lexicographic by
/// character (UTF-8 byte order is code point order).
pub open spec fn lex_le(a: Seq<char>, b: Seq<char>) -> bool
    decreases a.len(),
{
    if a.len() == 0 {
        true
    } else if b.len() == 0 {
        false
    } else if a[0] != b[0] {
        (a[0] as int) < (b[0] as int)
    } else {
        lex_le(a.drop_first(), b.drop_first())
    }
}

pub fn lex_le_exec(a: &[char], b: &[char]) -> (r: bool)
    ensures
        r == lex_le(a@, b@),
{
    let mut i: usize = 0;
    assert(a@.skip(0) =~= a@);
    assert(b@.skip(0) =~= b@);
    while i < a.len() && i < b.len() && a[i] == b[i]
        invariant
            i <= a@.len(),
            i <= b@.len(),
            lex_le(a@, b@) == lex_le(a@.skip(i as int), b@.skip(i as int)),
        decreases a@.len() - i,
    {
        assert(a@.skip(i as int).drop_first() =~= a@.skip(i + 1));
        assert(b@.skip(i as int).drop_first() =~= b@.skip(i + 1));
        i = i + 1;
    }
    if i == a.len() {
        true
    } else if i == b.len() {
        false
    } else {
        a[i] < b[i]
    }
}

/// `a` comes no later than `b` in dictionary order: `a` is a prefix of
/// `b`, or at the first position where they differ `a` has the smaller
/// character.
pub open spec fn dictionary_le(a: Seq<char>, b: Seq<char>) -> bool {
    ||| (a.len() <= b.len() && b.take(a.len() as int) == a)
    ||| exists|i: int|
        #![trigger a[i], b[i]]
        0 <= i < a.len() && i < b.len() && a.take(i) == b.take(i) && (a[i] as int) < (b[i] as int)
}

/// `lex_le` is the dictionary order, comparing every character.
pub proof fn lemma_lex_le_dictionary(a: Seq<char>, b: Seq<char>)
    ensures
        lex_le(a, b) == dictionary_le(a, b),
    decreases a.len(),
{
    if a.len() == 0 {
        assert(b.take(0) =~= a);
    } else if b.len() == 0 {
    } else if a[0] != b[0] {
        assert(a.take(0) =~= b.take(0));
        if b.len() >= a.len() {
            assert(b.take(a.len() as int)[0] == b[0]);
        }
        assert forall|i: int| 0 < i < a.len() && i < b.len() implies a.take(i) != b.take(i) by {
            assert(a.take(i)[0] == a[0] && b.take(i)[0] == b[0]);
        }
        if (a[0] as int) < (b[0] as int) {
            assert(a[0] == a[0] && b[0] == b[0]);
        }
    } else {
        let a1 = a.drop_first();
        let b1 = b.drop_first();
        lemma_lex_le_dictionary(a1, b1);
        // the prefix case
        if a.len() <= b.len() {
            if b.take(a.len() as int) == a {
                assert(b1.take(a1.len() as int) =~= a1) by {
                    assert forall|k: int| 0 <= k < a1.len() implies #[trigger] b1.take(a1.len() as int)[k]
                        == a1[k] by {
                        assert(b.take(a.len() as int)[k + 1] == a[k + 1]);
                    }
                }
            }
            if b1.take(a1.len() as int) == a1 {
                assert(b.take(a.len() as int) =~= a) by {
                    assert forall|k: int| 0 <= k < a.len() implies #[trigger] b.take(a.len() as int)[k]
                        == a[k] by {
                        if k > 0 {
                            assert(b1.take(a1.len() as int)[k - 1] == a1[k - 1]);
                        }
                    }
                }
            }
        }
        // the first-difference case
        if exists|i: int|
            #![trigger a[i], b[i]]
            0 <= i < a.len() && i < b.len() && a.take(i) == b.take(i) && (a[i] as int) < (
            b[i] as int) {
            let i = choose|i: int|
                #![trigger a[i], b[i]]
                0 <= i < a.len() && i < b.len() && a.take(i) == b.take(i) && (a[i] as int) < (
                b[i] as int);
            assert(i > 0);
            assert(a1.take(i - 1) =~= b1.take(i - 1)) by {
                assert forall|k: int| 0 <= k < i - 1 implies #[trigger] a1.take(i - 1)[k] == b1.take(i - 1)[k] by {
                    assert(a.take(i)[k + 1] == b.take(i)[k + 1]);
                }
            }
            assert(a1[i - 1] == a[i] && b1[i - 1] == b[i]);
        }
        if exists|i: int|
            #![trigger a1[i], b1[i]]
            0 <= i < a1.len() && i < b1.len() && a1.take(i) == b1.take(i) && (a1[i] as int) < (
            b1[i] as int) {
            let i = choose|i: int|
                #![trigger a1[i], b1[i]]
                0 <= i < a1.len() && i < b1.len() && a1.take(i) == b1.take(i) && (a1[i] as int) < (
                b1[i] as int);
            assert(a.take(i + 1) =~= b.take(i + 1)) by {
                assert forall|k: int| 0 <= k < i + 1 implies #[trigger] a.take(i + 1)[k] == b.take(i + 1)[k] by {
                    if k > 0 {
                        assert(a1.take(i)[k - 1] == b1.take(i)[k - 1]);
                    }
                }
            }
            assert(a[i + 1] == a1[i] && b[i + 1] == b1[i]);
        }
    }
}

proof fn lemma_lex_le_total(a: Seq<char>, b: Seq<char>)
    ensures
        lex_le(a, b) || lex_le(b, a),
    decreases a.len(),
{
    if a.len() > 0 && b.len() > 0 {
        if a[0] == b[0] {
            lemma_lex_le_total(a.drop_first(), b.drop_first());
        } else {
            assert((a[0] as int) != (b[0] as int));
        }
    }
}

proof fn lemma_lex_le_transitive(a: Seq<char>, b: Seq<char>, c: Seq<char>)
    requires
        lex_le(a, b),
        lex_le(b, c),
    ensures
        lex_le(a, c),
    decreases a.len(),
{
    if a.len() > 0 && b.len() > 0 && c.len() > 0 && a[0] == b[0] && b[0] == c[0] {
        lemma_lex_le_transitive(a.drop_first(), b.drop_first(), c.drop_first());
    }
}

/// The installed apps come in dictionary order of their lowercased
/// display names, every character compared.
pub proof fn lemma_installed_in_name_order(found: Seq<DesktopApp>)
    ensures
        ({
            let r = stable_sort(found, by_name());
            forall|p: int, q: int|
                0 <= p < q < r.len() ==> dictionary_le(
                    text::lowercase(#[trigger] r[p].name@),
                    text::lowercase(#[trigger] r[q].name@),
                )
        }),
{
    let le = by_name();
    assert forall|x: DesktopApp, y: DesktopApp| #[trigger] le(x, y) || le(y, x) by {
        lemma_lex_le_total(text::lowercase(x.name@), text::lowercase(y.name@));
    }
    assert forall|x: DesktopApp, y: DesktopApp, z: DesktopApp|
        #[trigger] le(x, y) && #[trigger] le(y, z) implies le(x, z) by {
        lemma_lex_le_transitive(
            text::lowercase(x.name@),
            text::lowercase(y.name@),
            text::lowercase(z.name@),
        );
    }
    lemma_stable_sort_sorted(found, le);
    let r = stable_sort(found, le);
    assert forall|p: int, q: int| 0 <= p < q < r.len() implies dictionary_le(
        text::lowercase(#[trigger] r[p].name@),
        text::lowercase(#[trigger] r[q].name@),
    ) by {
        assert(le(r[p], r[q]));
        lemma_lex_le_dictionary(text::lowercase(r[p].name@), text::lowercase(r[q].name@));
    }
}

/// Alphabetical by display name, ignoring case.
pub open spec fn by_name() -> spec_fn(DesktopApp, DesktopApp) -> bool {
    |a: DesktopApp, b: DesktopApp| lex_le(text::lowercase(a.name@), text::lowercase(b.name@))
}

/// Stable insertion sort by lowercase display name.
fn sort_by_name(v: Vec<DesktopApp>) -> (r: Vec<DesktopApp>)
    ensures
        r@ == stable_sort(v@, by_name()),
{
    let ghost orig = v@;
    let mut v = v;
    let mut r: Vec<DesktopApp> = Vec::new();
    let mut k: usize = 0;
    let n = v.len();
    while v.len() > 0
        invariant
            n == orig.len(),
            k <= n,
            v@ == orig.skip(k as int),
            r@ == stable_sort(orig.take(k as int), by_name()),
        decreases v@.len(),
    {
        let e = v.remove(0);
        let key_s = text::to_lowercase(e.name.as_str());
        let key = text::chars_of(key_s.as_str());
        let mut j: usize = 0;
        let mut stop = false;
        while j < r.len() && !stop
            invariant
                j <= r@.len(),
                key@ == text::lowercase(e.name@),
                forall|q: int| 0 <= q < j ==> (by_name())(#[trigger] r@[q], e),
                stop ==> j < r@.len() && !(by_name())(r@[j as int], e),
            decreases r@.len() - j + (if stop {
                0int
            } else {
                1int
            }),
        {
            let other_s = text::to_lowercase(r[j].name.as_str());
            let other = text::chars_of(other_s.as_str());
            if lex_le_exec(other.as_slice(), key.as_slice()) {
                j = j + 1;
            } else {
                stop = true;
            }
        }
        proof {
            lemma_ins_pos_skip(r@, by_name(), e, j as int);
            if j < r@.len() {
                assert(!(by_name())(r@.skip(j as int)[0], e));
            }
            assert(ins_pos(r@, by_name(), e) == j);
            assert(orig.take(k + 1).drop_last() =~= orig.take(k as int));
            assert(orig.take(k + 1).last() == e);
        }
        r.insert(j, e);
        proof {
            assert(v@ =~= orig.skip(k + 1));
        }
        k = k + 1;
    }
    assert(orig.take(n as int) =~= orig);
    r
}

/// Every launchable installed application, from the desktop files found
/// in the data directories (each as file stem and content, `None` when
/// unreadable, most specific directory first): deduped by desktop id
/// (earlier directories win) and sorted by display name.
pub fn installed(files: &Vec<(String, Option<String>)>) -> (r: Vec<DesktopApp>)
    ensures
        exists|found: Seq<DesktopApp>|
            app_views(found) == listed_apps(file_views(files@)) && r@ == stable_sort(
                found,
                by_name(),
            ),
{
    let ghost fv = file_views(files@);
    let ghost stems = fv.map_values(|f: (Seq<char>, Option<Seq<char>>)| f.0);
    let mut seen: Vec<Vec<char>> = Vec::new();
    let mut apps: Vec<DesktopApp> = Vec::new();
    let mut i: usize = 0;
    while i < files.len()
        invariant
            i <= files@.len(),
            fv == file_views(files@),
            stems == fv.map_values(|f: (Seq<char>, Option<Seq<char>>)| f.0),
            seen@.len() == i,
            forall|j: int| 0 <= j < i ==> #[trigger] seen@[j]@ == text::lowercase(stems[j]),
            app_views(apps@) == listed_apps(fv.take(i as int)),
        decreases files@.len() - i,
    {
        let (stem, content) = &files[i];
        let key_s = text::to_lowercase(stem.as_str());
        let key = text::chars_of(key_s.as_str());
        let mut dup = false;
        let mut j: usize = 0;
        while j < seen.len()
            invariant
                j <= seen@.len(),
                seen@.len() == i,
                key@ == text::lowercase(stems[i as int]),
                dup == exists|q: int| 0 <= q < j && #[trigger] seen@[q]@ == key@,
            decreases seen@.len() - j,
        {
            if text::chars_eq(seen[j].as_slice(), key.as_slice()) {
                dup = true;
            }
            j = j + 1;
        }
        proof {
            let pre = fv.take(i + 1);
            assert(pre.drop_last() =~= fv.take(i as int));
            assert(pre.last() == fv[i as int]);
            let pstems = pre.map_values(|f: (Seq<char>, Option<Seq<char>>)| f.0);
            assert forall|q: int| 0 <= q <= i implies #[trigger] pstems[q] == stems[q] by {}
            if dup {
                let q = choose|q: int| 0 <= q < i && #[trigger] seen@[q]@ == key@;
                assert(text::lowercase(pstems[q]) == text::lowercase(pstems[i as int]));
                assert(!first_of_id(pstems, i as int));
            } else {
                assert forall|q: int| 0 <= q < i implies text::lowercase(#[trigger] pstems[q])
                    != text::lowercase(pstems[i as int]) by {
                    assert(seen@[q]@ == text::lowercase(stems[q]));
                }
                assert(first_of_id(pstems, i as int));
            }
        }
        if !dup {
            match content {
                Some(c) => {
                    let parsed = parse_app(c.as_str(), stem.as_str());
                    proof {
                        lemma_parsed_app_of(c@, stem@, parsed);
                    }
                    match parsed {
                        Some(a) => {
                            let ghost before = apps@;
                            apps.push(a);
                            assert(app_views(apps@) =~= app_views(before).push(app_view(a)));
                        },
                        None => {},
                    }
                },
                None => {},
            }
        }
        seen.push(key);
        i = i + 1;
    }
    assert(fv.take(fv.len() as int) =~= fv);
    let ghost found = apps@;
    let r = sort_by_name(apps);
    assert(app_views(found) == listed_apps(file_views(files@)));
    r
}

/// Every class matches itself.
pub proof fn lemma_classes_match_reflexive(a: Seq<char>)
    ensures
        classes_match(a, a),
{
}

/// Matching ignores ASCII case: uppercasing either class changes nothing.
pub proof fn lemma_classes_match_ascii_case(a: Seq<char>, b: Seq<char>)
    ensures
        classes_match(text::ascii_upper_seq(a), b) == classes_match(a, b),
        classes_match(a, text::ascii_upper_seq(b)) == classes_match(a, b),
{
    text::lemma_lower_of_upper(a);
    text::lemma_lower_of_upper(b);
}

/// Matching does not depend on the order of the two classes.
pub proof fn lemma_classes_match_symmetric(a: Seq<char>, b: Seq<char>)
    ensures
        classes_match(a, b) == classes_match(b, a),
{
}

} // verus!
