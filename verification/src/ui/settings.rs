//! The settings window's rules: the delay steppers, the pinned-apps
//! search field and which apps it lists, and when a pin button is off.

use crate::apps::DesktopApp;
use crate::config::{self, MAX_PINNED};
use crate::text;
use crate::ui::panel::{typed_text, without_last};
use vstd::prelude::*;

verus! {

/// Hover reveal delay after a stepper click: 30ms steps, down to 0, up to
/// 600ms at most.
pub open spec fn show_delay_after(ms: u64, up: bool) -> u64 {
    if up {
        if ms + 30 < 600 {
            (ms + 30) as u64
        } else {
            600
        }
    } else if ms >= 30 {
        (ms - 30) as u64
    } else {
        0
    }
}

pub fn step_show_delay(ms: u64, up: bool) -> (r: u64)
    requires
        up ==> ms + 30 <= u64::MAX,
    ensures
        r == show_delay_after(ms, up),
{
    if up {
        let n = ms + 30;
        if n < 600 {
            n
        } else {
            600
        }
    } else {
        ms.saturating_sub(30)
    }
}

/// Hover auto-hide delay after a stepper click: 50ms steps, down to 0, up
/// to 2000ms at most.
pub open spec fn hide_delay_after(ms: u64, up: bool) -> u64 {
    if up {
        if ms + 50 < 2000 {
            (ms + 50) as u64
        } else {
            2000
        }
    } else if ms >= 50 {
        (ms - 50) as u64
    } else {
        0
    }
}

pub fn step_hide_delay(ms: u64, up: bool) -> (r: u64)
    requires
        up ==> ms + 50 <= u64::MAX,
    ensures
        r == hide_delay_after(ms, up),
{
    if up {
        let n = ms + 50;
        if n < 2000 {
            n
        } else {
            2000
        }
    } else {
        ms.saturating_sub(50)
    }
}

/// A key in the pinned-apps search field: Backspace deletes the last
/// character, Escape clears the query, typed text (non-empty, no control
/// characters) is appended. Returns whether to redraw.
pub fn search_key(query: &mut String, key: &str, key_char: Option<&str>) -> (redraw: bool)
    ensures
        ({
            let q = old(query)@;
            if key@ == "backspace"@ {
                redraw && final(query)@ == without_last(q)
            } else if key@ == "escape"@ {
                redraw == (q.len() > 0) && final(query)@.len() == 0
            } else {
                match typed_text(
                    match key_char {
                        Some(s) => Some(s@),
                        None => None,
                    },
                ) {
                    Some(t) => redraw && final(query)@ == q + t,
                    None => !redraw && final(query)@ == q,
                }
            }
        }),
{
    if text::str_eq(key, "backspace") {
        let v = text::chars_of(query.as_str());
        let n = v.len();
        let kept = if n == 0 {
            Vec::new()
        } else {
            text::sub_vec(v.as_slice(), 0, n - 1)
        };
        assert(kept@ =~= without_last(old(query)@));
        *query = text::string_of(kept.as_slice());
        return true;
    }
    if text::str_eq(key, "escape") {
        let had = !query.as_str().is_empty();
        *query = String::new();
        return had;
    }
    match key_char {
        None => false,
        Some(s) => {
            let cs = text::chars_of(s);
            if cs.len() == 0 || !no_control_chars(cs.as_slice()) {
                return false;
            }
            text::push_str(query, s);
            true
        },
    }
}

fn no_control_chars(v: &[char]) -> (r: bool)
    ensures
        r == (forall|i: int| 0 <= i < v@.len() ==> !text::is_ctrl(#[trigger] v@[i])),
{
    let mut i: usize = 0;
    while i < v.len()
        invariant
            i <= v@.len(),
            forall|j: int| 0 <= j < i ==> !text::is_ctrl(#[trigger] v@[j]),
        decreases v@.len() - i,
    {
        if text::is_control(v[i]) {
            return false;
        }
        i = i + 1;
    }
    true
}

/// Whether the app is listed for the (lowercased) query: every app for an
/// empty query, else those whose lowercase name contains it.
pub open spec fn app_listed(app: DesktopApp, q: Seq<char>) -> bool {
    q.len() == 0 || text::contains(text::lowercase(app.name@), q)
}

/// The indices of the apps the search field lists, in order.
pub fn matching_apps(apps: &Vec<DesktopApp>, query: &str) -> (r: Vec<usize>)
    ensures
        ({
            let q = text::lowercase(query@);
            &&& forall|k: int| 0 <= k < r@.len() ==> #[trigger] r@[k] < apps@.len() && app_listed(
                apps@[r@[k] as int],
                q,
            )
            &&& forall|k: int, l: int| 0 <= k < l < r@.len() ==> #[trigger] r@[k] < #[trigger] r@[l]
            &&& forall|i: int|
                0 <= i < apps@.len() && app_listed(#[trigger] apps@[i], q) ==> r@.contains(
                    i as usize,
                )
        }),
{
    let q = text::to_lowercase(query);
    let qv = text::chars_of(q.as_str());
    let mut r: Vec<usize> = Vec::new();
    let mut i: usize = 0;
    while i < apps.len()
        invariant
            i <= apps@.len(),
            qv@ == text::lowercase(query@),
            forall|k: int| 0 <= k < r@.len() ==> #[trigger] r@[k] < i && app_listed(
                apps@[r@[k] as int],
                qv@,
            ),
            forall|k: int, l: int| 0 <= k < l < r@.len() ==> #[trigger] r@[k] < #[trigger] r@[l],
            forall|j: int| 0 <= j < i && app_listed(#[trigger] apps@[j], qv@) ==> r@.contains(
                j as usize,
            ),
        decreases apps@.len() - i,
    {
        let listed = if qv.len() == 0 {
            true
        } else {
            let name = text::to_lowercase(apps[i].name.as_str());
            let nv = text::chars_of(name.as_str());
            text::contains_chars(nv.as_slice(), qv.as_slice())
        };
        if listed {
            let ghost before = r@;
            r.push(i);
            assert forall|j: int| 0 <= j < i + 1 && app_listed(#[trigger] apps@[j], qv@) implies r@.contains(
                j as usize,
            ) by {
                if j < i {
                    let k = choose|k: int| 0 <= k < before.len() && before[k] == j as usize;
                    assert(r@[k] == j as usize);
                } else {
                    assert(r@[before.len() as int] == i);
                }
            }
        }
        i = i + 1;
    }
    r
}

/// Whether an app's pin button is off: the cap is reached and the app is
/// not one of the pins (unpinning always works).
pub fn pin_disabled(pinned: &Vec<String>, class: &str) -> (r: bool)
    ensures
        r == (pinned@.len() >= MAX_PINNED && !config::pinned_app(
            config::pin_views(pinned@),
            class@,
        )),
{
    pinned.len() >= MAX_PINNED && !config::is_pinned(pinned, class)
}

} // verus!
