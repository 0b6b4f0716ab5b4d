//! Settings types and the palette logic: which colors the panel uses for a
//! theme, and the small value rules the settings window applies.

use crate::apps;
use crate::order;
use crate::text;
use vstd::prelude::*;

verus! {

#[derive(Clone, Copy, PartialEq, Eq, Debug, Structural)]
pub enum Edge {
    Left,
    Right,
}

impl Edge {
    pub fn is_left(self) -> (r: bool)
        ensures
            r == (self == Edge::Left),
    {
        match self {
            Edge::Left => true,
            Edge::Right => false,
        }
    }
}

/// What a cycling shortcut (Alt+Tab / Super+Tab) shows.
#[derive(Clone, Copy, PartialEq, Eq, Debug, Structural)]
pub enum CycleScope {
    AllWorkspaces,
    CurrentWorkspace,
    /// The shortcut does nothing (remove the Hyprland binding to fully
    /// return the key to other uses).
    Disabled,
}

#[derive(Clone, Copy, PartialEq, Eq, Debug, Structural)]
pub enum ThemeVariant {
    /// Take colors from the current Omarchy theme (which follows the
    /// wallpaper), falling back to `System` when Omarchy isn't installed.
    Omarchy,
    /// Follow the desktop's color-scheme preference (checked on every reveal).
    System,
    Light,
    Dark,
}


/// Colors are 0xRRGGBBAA.
#[derive(Clone, Copy, Debug, PartialEq, Eq, Structural)]
pub struct Palette {
    pub background: u32,
    pub border: u32,
    pub text: u32,
    pub dim_text: u32,
    pub accent: u32,
    pub accent_text: u32,
    /// Whether this is a dark palette, for the few colors derived from it
    /// (menu borders, the settings window's own chrome).
    pub dark: bool,
}

/// The built-in light palette.
pub open spec fn light() -> Palette {
    Palette {
        background: 0xf2f2f2ff,
        border: 0x00000022,
        text: 0x2b2b2bff,
        dim_text: 0x8a8a8aff,
        accent: 0x2c6fefff,
        accent_text: 0xffffffff,
        dark: false,
    }
}

/// The built-in dark palette.
pub open spec fn dark() -> Palette {
    Palette {
        background: 0x232323ff,
        border: 0xffffff1e,
        text: 0xe5e7ebff,
        dim_text: 0x9ca3afff,
        accent: 0x2c6fefff,
        accent_text: 0xffffffff,
        dark: true,
    }
}

pub fn light_palette() -> (p: Palette)
    ensures
        p == light(),
{
    Palette {
        background: 0xf2f2f2ff,
        border: 0x00000022,
        text: 0x2b2b2bff,
        dim_text: 0x8a8a8aff,
        accent: 0x2c6fefff,
        accent_text: 0xffffffff,
        dark: false,
    }
}

pub fn dark_palette() -> (p: Palette)
    ensures
        p == dark(),
{
    Palette {
        background: 0x232323ff,
        border: 0xffffff1e,
        text: 0xe5e7ebff,
        dim_text: 0x9ca3afff,
        accent: 0x2c6fefff,
        accent_text: 0xffffffff,
        dark: true,
    }
}

/// The value of one hexadecimal digit.
pub open spec fn hex_digit(c: char) -> Option<int> {
    if '0' <= c && c <= '9' {
        Some(c as int - '0' as int)
    } else if 'a' <= c && c <= 'f' {
        Some(c as int - 'a' as int + 10)
    } else if 'A' <= c && c <= 'F' {
        Some(c as int - 'A' as int + 10)
    } else {
        None
    }
}

/// The value of a run of hexadecimal digits.
pub open spec fn hex_value(s: Seq<char>) -> int
    decreases s.len(),
{
    if s.len() == 0 {
        0
    } else {
        hex_value(s.drop_last()) * 16 + match hex_digit(s.last()) {
            Some(d) => d,
            None => 0,
        }
    }
}

/// At least one character, all of them hexadecimal digits.
pub open spec fn all_hex(d: Seq<char>) -> bool {
    d.len() > 0 && forall|i: int| 0 <= i < d.len() ==> #[trigger] hex_digit(d[i]) is Some
}

/// "#rrggbb" or "#rrggbbaa" (surrounding whitespace and any number of
/// leading '#' ignored) as 0xRRGGBBAA: exactly six or eight hexadecimal
/// digits, six getting an opaque alpha.
pub open spec fn hex_color(s: Seq<char>) -> Option<u32> {
    let t = text::strip_lead(text::trim(s), '#');
    if (t.len() == 6 || t.len() == 8) && all_hex(t) {
        if t.len() == 6 {
            Some((hex_value(t) * 256 + 255) as u32)
        } else {
            Some(hex_value(t) as u32)
        }
    } else {
        None
    }
}

/// 16 to the power `k`.
pub open spec fn p16(k: nat) -> nat
    decreases k,
{
    if k == 0 {
        1
    } else {
        16 * p16((k - 1) as nat)
    }
}

proof fn lemma_p16_positive(k: nat)
    ensures
        1 <= p16(k),
    decreases k,
{
    if k > 0 {
        lemma_p16_positive((k - 1) as nat);
    }
}

proof fn lemma_p16_monotone(j: nat, k: nat)
    requires
        j <= k,
    ensures
        1 <= p16(j) <= p16(k),
    decreases k,
{
    lemma_p16_positive(j);
    if j < k {
        lemma_p16_monotone(j, (k - 1) as nat);
    }
}

proof fn lemma_hex_value_bound(s: Seq<char>)
    requires
        forall|i: int| 0 <= i < s.len() ==> #[trigger] hex_digit(s[i]) is Some,
    ensures
        0 <= hex_value(s) < p16(s.len()),
    decreases s.len(),
{
    if s.len() > 0 {
        let d = s.drop_last();
        assert forall|i: int| 0 <= i < d.len() implies #[trigger] hex_digit(d[i]) is Some by {
            assert(d[i] == s[i]);
        }
        lemma_hex_value_bound(d);
        assert(hex_digit(s[s.len() - 1]) is Some);
    }
}

/// The value of a run of at most eight hexadecimal digits, if all of them
/// are.
fn hex_run(d: &[char]) -> (r: Option<u64>)
    requires
        d@.len() <= 8,
    ensures
        match r {
            Some(v) => (forall|k: int| 0 <= k < d@.len() ==> #[trigger] hex_digit(d@[k]) is Some)
                && v == hex_value(d@) && v < p16(d@.len()),
            None => !(forall|k: int| 0 <= k < d@.len() ==> #[trigger] hex_digit(d@[k]) is Some),
        },
{
    let mut value: u64 = 0;
    let mut i: usize = 0;
    while i < d.len()
        invariant
            i <= d@.len(),
            d@.len() <= 8,
            forall|k: int| 0 <= k < i ==> #[trigger] hex_digit(d@[k]) is Some,
            value == hex_value(d@.take(i as int)),
            value < p16(i as nat),
        decreases d@.len() - i,
    {
        let c = d[i];
        let h: u64 = if '0' <= c && c <= '9' {
            (c as u64) - ('0' as u64)
        } else if 'a' <= c && c <= 'f' {
            (c as u64) - ('a' as u64) + 10
        } else if 'A' <= c && c <= 'F' {
            (c as u64) - ('A' as u64) + 10
        } else {
            assert(hex_digit(d@[i as int]) is None);
            return None;
        };
        assert(d@.take(i + 1).drop_last() =~= d@.take(i as int));
        proof {
            lemma_p16_monotone(i as nat, 7);
            reveal_with_fuel(p16, 8);
            assert(p16(7) == 0x1000_0000);
        }
        value = value * 16 + h;
        i = i + 1;
    }
    assert(d@.take(d@.len() as int) =~= d@);
    Some(value)
}

/// "#rrggbb" or "#rrggbbaa" -> 0xRRGGBBAA
pub fn parse_hex(s: &str) -> (r: Option<u32>)
    ensures
        r == hex_color(s@),
{
    let v = text::chars_of(s);
    let trimmed = text::trim_chars(v.as_slice());
    let t = text::strip_lead_chars(trimmed.as_slice(), '#');
    let n = t.len();
    if n != 6 && n != 8 {
        return None;
    }
    match hex_run(t.as_slice()) {
        None => None,
        Some(value) => {
            proof {
                reveal_with_fuel(p16, 9);
                lemma_p16_monotone(n as nat, 8);
                assert(p16(8) == 0x1_0000_0000);
                if n == 6 {
                    assert(p16(6) == 0x100_0000);
                }
            }
            if n == 6 {
                Some((value * 256 + 255) as u32)
            } else {
                Some(value as u32)
            }
        },
    }
}


/// The hexadecimal digit for `d` (below 16), lowercase or uppercase.
pub open spec fn hex_char(d: int, upper: bool) -> char {
    if d < 10 {
        (48 + d) as char
    } else if upper {
        (55 + d) as char
    } else {
        (87 + d) as char
    }
}

/// The `n` lowest hexadecimal digits of `v`, most significant first, as
/// `{:0nx}` (or `{:0nX}`) writes a value below 16^n.
pub open spec fn hex_text(v: nat, n: nat, upper: bool) -> Seq<char>
    decreases n,
{
    if n == 0 {
        Seq::empty()
    } else {
        hex_text(v / 16, (n - 1) as nat, upper).push(hex_char((v % 16) as int, upper))
    }
}

proof fn lemma_hex_text(v: nat, n: nat, upper: bool)
    requires
        v < p16(n),
    ensures
        hex_text(v, n, upper).len() == n,
        forall|i: int|
            0 <= i < n ==> #[trigger] hex_digit(hex_text(v, n, upper)[i]) is Some
                && hex_text(v, n, upper)[i] != '#' && !text::is_ws(hex_text(v, n, upper)[i]),
        hex_value(hex_text(v, n, upper)) == v,
    decreases n,
{
    if n > 0 {
        let m = (n - 1) as nat;
        let q = v / 16;
        let d = (v % 16) as int;
        assert(q < p16(m) && 0 <= d < 16 && q * 16 + d == v) by (nonlinear_arith)
            requires
                v < 16 * p16(m),
                q == v / 16,
                d == v % 16,
        ;
        lemma_hex_text(q, m, upper);
        let c = hex_char(d, upper);
        assert(hex_digit(c) == Some(d));
        let t = hex_text(v, n, upper);
        assert(t.drop_last() =~= hex_text(q, m, upper));
        assert(t.last() == c);
    }
}

/// A colour written as eight hexadecimal digits (`{:08x}` or `{:08X}`,
/// with or without the '#') reads back as itself; one below 2^24 written
/// as six digits after '#' reads back with an opaque alpha.
pub proof fn lemma_hex_round_trip(v: u32, c: u32, upper: bool)
    requires
        c < 0x100_0000,
    ensures
        hex_color(seq!['#'] + hex_text(v as nat, 8, upper)) == Some(v),
        hex_color(hex_text(v as nat, 8, upper)) == Some(v),
        hex_color(seq!['#'] + hex_text(c as nat, 6, upper)) == Some((c * 256 + 255) as u32),
{
    reveal_with_fuel(p16, 9);
    assert(p16(8) == 0x1_0000_0000);
    assert(p16(6) == 0x100_0000);
    lemma_hex_text(v as nat, 8, upper);
    lemma_hex_text(c as nat, 6, upper);
    lemma_plain_hex_reads(hex_text(v as nat, 8, upper));
    lemma_plain_hex_reads(hex_text(c as nat, 6, upper));
}

/// A run of hex digits, with or without one leading '#', is what the
/// colour reader looks at.
proof fn lemma_plain_hex_reads(t: Seq<char>)
    requires
        t.len() > 0,
        forall|i: int|
            0 <= i < t.len() ==> #[trigger] hex_digit(t[i]) is Some && t[i] != '#' && !text::is_ws(
                t[i],
            ),
    ensures
        text::strip_lead(text::trim(t), '#') == t,
        text::strip_lead(text::trim(seq!['#'] + t), '#') == t,
        all_hex(t),
{
    let h = seq!['#'] + t;
    assert(hex_digit(t[0]) is Some);
    assert(hex_digit(t[t.len() - 1]) is Some);
    assert(t[0] != '#' && !text::is_ws(t[0]) && !text::is_ws(t.last()));
    assert(h[0] == '#' && h.last() == t.last());
    assert(!text::is_ws('#'));
    assert(text::trim_start(t) == t);
    assert(text::trim_end(t) == t);
    assert(text::trim_start(h) == h);
    assert(text::trim_end(h) == h);
    assert(h.drop_first() =~= t);
    assert(text::strip_lead(t, '#') == t);
}

/// Theme settings: where the colors come from, plus optional hex overrides
/// like "#2c6fef" or "#f2f2f2cc".
#[derive(Clone, Debug)]
pub struct Theme {
    pub variant: ThemeVariant,
    pub background: Option<String>,
    pub accent: Option<String>,
    pub text: Option<String>,
    pub dim_text: Option<String>,
}

impl Default for Theme {
    fn default() -> (t: Self)
        ensures
            t.variant == ThemeVariant::Omarchy,
            t.background is None,
            t.accent is None,
            t.text is None,
            t.dim_text is None,
    {
        Theme {
            variant: ThemeVariant::Omarchy,
            background: None,
            accent: None,
            text: None,
            dim_text: None,
        }
    }
}

/// The color an override names, if it is set and parses.
pub open spec fn override_of(o: Option<String>) -> Option<u32> {
    match o {
        Some(s) => hex_color(s@),
        None => None,
    }
}

/// `fallback`, replaced by the override when there is one.
pub open spec fn overridden(o: Option<String>, fallback: u32) -> u32 {
    match override_of(o) {
        Some(c) => c,
        None => fallback,
    }
}

/// The palette a theme variant starts from: the built-in light or dark
/// one, following the desktop's preference (`system_dark`) for `System`,
/// and Omarchy's palette when there is one (`omarchy`), else the desktop's
/// preference, for `Omarchy`.
pub open spec fn base_palette(variant: ThemeVariant, system_dark: bool, omarchy: Option<Palette>) -> Palette {
    let system = if system_dark {
        dark()
    } else {
        light()
    };
    match variant {
        ThemeVariant::Light => light(),
        ThemeVariant::Dark => dark(),
        ThemeVariant::System => system,
        ThemeVariant::Omarchy => match omarchy {
            Some(p) => p,
            None => system,
        },
    }
}

fn override_hex(o: &Option<String>) -> (r: Option<u32>)
    ensures
        r == override_of(*o),
{
    match o {
        Some(s) => parse_hex(s.as_str()),
        None => None,
    }
}

impl Theme {
    /// The panel's colors: the variant's base palette with the overrides
    /// that parse applied. An overridden background also decides whether
    /// the palette counts as dark, by `is_dark` (perceived brightness below
    /// one half).
    pub fn palette<D: Fn(u32) -> bool>(
        &self,
        system_dark: bool,
        omarchy: Option<Palette>,
        is_dark: D,
    ) -> (p: Palette)
        requires
            forall|c: u32| is_dark.requires((c,)),
        ensures
            ({
                let base = base_palette(self.variant, system_dark, omarchy);
                &&& p.background == overridden(self.background, base.background)
                &&& p.accent == overridden(self.accent, base.accent)
                &&& p.text == overridden(self.text, base.text)
                &&& p.dim_text == overridden(self.dim_text, base.dim_text)
                &&& p.border == base.border
                &&& p.accent_text == base.accent_text
                &&& match override_of(self.background) {
                    Some(c) => is_dark.ensures((c,), p.dark),
                    None => p.dark == base.dark,
                }
            }),
    {
        let system = if system_dark {
            dark_palette()
        } else {
            light_palette()
        };
        let mut p = match self.variant {
            ThemeVariant::Light => light_palette(),
            ThemeVariant::Dark => dark_palette(),
            ThemeVariant::System => system,
            ThemeVariant::Omarchy => match omarchy {
                Some(o) => o,
                None => system,
            },
        };
        if let Some(c) = override_hex(&self.background) {
            p.background = c;
            p.dark = is_dark(c);
        }
        if let Some(c) = override_hex(&self.accent) {
            p.accent = c;
        }
        if let Some(c) = override_hex(&self.text) {
            p.text = c;
        }
        if let Some(c) = override_hex(&self.dim_text) {
            p.dim_text = c;
        }
        p
    }
}

/// Whether an Omarchy theme is dark: Omarchy 4 themes say so in `mode`
/// ("light" in any ASCII case, surrounding whitespace ignored, is light);
/// Omarchy 3 themes have no mode and mark light mode with a `light.mode`
/// file (`light_mode_file`).
pub fn omarchy_is_dark(mode: Option<&str>, light_mode_file: bool) -> (dark: bool)
    ensures
        dark == (match mode {
            Some(m) => text::ascii_lower_seq(text::trim(m@)) != "light"@,
            None => !light_mode_file,
        }),
{
    match mode {
        Some(m) => {
            let v = text::chars_of(m);
            let t = text::trim_chars(v.as_slice());
            let s = text::string_of(t.as_slice());
            let lower = text::to_ascii_lowercase(s.as_str());
            let light = text::chars_of("light");
            !text::chars_eq(lower.as_slice(), light.as_slice())
        },
        None => !light_mode_file,
    }
}

/// The views of the pinned classes.
pub open spec fn pin_views(pins: Seq<String>) -> Seq<Seq<char>> {
    pins.map_values(|s: String| s@)
}

/// Whether some pin names the app of class `class`.
pub open spec fn pinned_app(pins: Seq<Seq<char>>, class: Seq<char>) -> bool {
    exists|i: int| 0 <= i < pins.len() && apps::classes_match(#[trigger] pins[i], class)
}

/// The pins after toggling the app of class `class`: every pin naming it
/// removed, or, when there was none and there is room, `class` added at
/// the end.
pub open spec fn toggled_apps(pins: Seq<Seq<char>>, class: Seq<char>) -> Seq<Seq<char>> {
    let rest = pins.filter(|p: Seq<char>| !apps::classes_match(p, class));
    if rest.len() == pins.len() && pins.len() < MAX_PINNED {
        rest.push(class)
    } else {
        rest
    }
}

/// Pin the app if it isn't pinned (and the cap allows), unpin it if it is.
pub fn toggle_pinned(pinned: &mut Vec<String>, class: &str)
    ensures
        pin_views(final(pinned)@) == toggled_apps(pin_views(old(pinned)@), class@),
{
    let ghost views = pin_views(pinned@);
    let ghost pred = |p: Seq<char>| !apps::classes_match(p, class@);
    let before = pinned.len();
    let mut rest: Vec<String> = Vec::new();
    let mut i: usize = 0;
    while i < pinned.len()
        invariant
            i <= pinned@.len(),
            before == pinned@.len(),
            views == pin_views(pinned@),
            pred == (|p: Seq<char>| !apps::classes_match(p, class@)),
            pin_views(rest@) == views.take(i as int).filter(pred),
        decreases pinned@.len() - i,
    {
        proof {
            assert(views.take(i + 1) =~= views.take(i as int).push(views[i as int]));
            views.take(i as int).lemma_filter_push(views[i as int], pred);
        }
        if !apps::class_matches(pinned[i].as_str(), class) {
            let ghost r0 = rest@;
            rest.push(text::clone_string(&pinned[i]));
            assert(pin_views(rest@) =~= pin_views(r0).push(pinned@[i as int]@));
        }
        i = i + 1;
    }
    assert(views.take(views.len() as int) =~= views);
    if rest.len() == before && before < MAX_PINNED {
        let ghost r0 = rest@;
        rest.push(text::owned(class));
        assert(pin_views(rest@) =~= pin_views(r0).push(class@));
    }
    *pinned = rest;
}

/// Whether the app of class `class` is pinned.
pub fn is_pinned(pinned: &Vec<String>, class: &str) -> (r: bool)
    ensures
        r == pinned_app(pin_views(pinned@), class@),
{
    let mut i: usize = 0;
    while i < pinned.len()
        invariant
            i <= pinned@.len(),
            forall|j: int|
                0 <= j < i ==> !apps::classes_match(#[trigger] pin_views(pinned@)[j], class@),
        decreases pinned@.len() - i,
    {
        if apps::class_matches(pinned[i].as_str(), class) {
            assert(apps::classes_match(pin_views(pinned@)[i as int], class@));
            return true;
        }
        assert(!apps::classes_match(pin_views(pinned@)[i as int], class@));
        i = i + 1;
    }
    false
}


/// Toggling an app's pin flips whether it is pinned, except that an
/// unpinned app stays unpinned when the cap is already reached.
pub proof fn lemma_toggle_pinned_flips(pins: Seq<Seq<char>>, class: Seq<char>)
    ensures
        pinned_app(toggled_apps(pins, class), class) == (!pinned_app(pins, class) && pins.len()
            < MAX_PINNED),
{
    let pred = |p: Seq<char>| !apps::classes_match(p, class);
    let rest = pins.filter(pred);
    order::lemma_filter_keeps_all(pins, pred);
    apps::lemma_classes_match_reflexive(class);
    if pinned_app(pins, class) {
        let j = choose|j: int| 0 <= j < pins.len() && apps::classes_match(#[trigger] pins[j], class);
        assert(!pred(pins[j]));
        assert(toggled_apps(pins, class) == rest);
        assert forall|q: int| 0 <= q < rest.len() implies !apps::classes_match(
            #[trigger] rest[q],
            class,
        ) by {
            pins.lemma_filter_pred(pred, q);
        }
    } else {
        assert forall|i: int| 0 <= i < pins.len() implies pred(pins[i]) by {
            if !pred(pins[i]) {
                assert(apps::classes_match(pins[i], class));
            }
        }
        if pins.len() < MAX_PINNED {
            let t = toggled_apps(pins, class);
            assert(t == pins.push(class));
            assert(apps::classes_match(t[pins.len() as int], class));
        } else {
            assert(toggled_apps(pins, class) == pins);
        }
    }
}

/// Toggling pins never takes the list past the cap.
pub proof fn lemma_toggle_pinned_capped(pins: Seq<Seq<char>>, class: Seq<char>)
    requires
        pins.len() <= MAX_PINNED,
    ensures
        toggled_apps(pins, class).len() <= MAX_PINNED,
{
    let pred = |p: Seq<char>| !apps::classes_match(p, class);
    pins.lemma_filter_len(pred);
}


/// Whether the desktop settings' reply for the color scheme (raw output)
/// says dark: it mentions "prefer-dark" (Omarchy's theme switcher keeps
/// it in sync).
pub fn prefers_dark(stdout: &[u8]) -> (r: bool)
    ensures
        r == text::contains(text::utf8_lossy(stdout@), "prefer-dark"@),
{
    let s = text::from_utf8_lossy(stdout);
    text::str_contains(s.as_str(), "prefer-dark")
}

/// Corner radius of the panel card, in pixels. Hyprland has to round the
/// *window* to the same radius: it clips a blurred window's blur region to
/// the window's rounding, so a square window paints blur into the corners
/// the card leaves transparent.
pub const CARD_ROUNDING: i64 = 12;

/// Cap on pinned apps. The header clips icons it can't fit, so below
/// ~240px wide the last of five pins start disappearing.
pub const MAX_PINNED: usize = 5;

} // verus!
