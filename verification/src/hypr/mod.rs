//! Hyprland IPC: the command socket (`ctl`) and the event socket
//! (`events`), and which running instance to talk to.

pub mod ctl;
pub mod events;

use vstd::prelude::*;

verus! {

/// Which of several Hyprland instance directories (each with its last
/// modification time) is the live one: the most recently modified, the
/// first of equals.
pub fn newest(times: &[u128]) -> (r: Option<usize>)
    ensures
        match r {
            Some(i) => i < times@.len() && (forall|j: int|
                0 <= j < times@.len() ==> #[trigger] times@[j] <= times@[i as int]) && (forall|
                j: int,
            | 0 <= j < i ==> #[trigger] times@[j] < times@[i as int]),
            None => times@.len() == 0,
        },
{
    let mut best: Option<usize> = None;
    let mut i: usize = 0;
    while i < times.len()
        invariant
            i <= times@.len(),
            match best {
                Some(b) => b < i && (forall|j: int| 0 <= j < i ==> #[trigger] times@[j] <= times@[b as int])
                    && (forall|j: int| 0 <= j < b ==> #[trigger] times@[j] < times@[b as int]),
                None => i == 0,
            },
        decreases times@.len() - i,
    {
        match best {
            None => {
                best = Some(i);
            },
            Some(b) => {
                if times[i] > times[b] {
                    best = Some(i);
                }
            },
        }
        i = i + 1;
    }
    best
}

} // verus!
