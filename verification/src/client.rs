//! `sidetab <command>`: the commands the daemon takes, and the check made
//! before one is sent (the program writes it to the daemon's socket).

use crate::text;
use vstd::prelude::*;

verus! {

/// The file name of the daemon's control socket (in the runtime
/// directory).
pub const SOCKET_NAME: &'static str = "sidetab.sock";

/// The commands a running daemon takes.
pub open spec fn command_names() -> Seq<Seq<char>> {
    seq![
        "next"@,
        "prev"@,
        "next-ws"@,
        "prev-ws"@,
        "commit"@,
        "toggle"@,
        "show"@,
        "hide"@,
        "search"@,
        "settings"@,
    ]
}

pub fn commands() -> (r: Vec<&'static str>)
    ensures
        r@.map_values(|s: &str| s@) == command_names(),
{
    let r = vec![
        "next",
        "prev",
        "next-ws",
        "prev-ws",
        "commit",
        "toggle",
        "show",
        "hide",
        "search",
        "settings",
    ];
    assert(r@.map_values(|s: &str| s@) =~= command_names());
    r
}

/// What checking a command gives: success for a daemon command, else the
/// message naming the command and listing what is available.
pub open spec fn validation(command: Seq<char>) -> Result<(), Seq<char>> {
    if command_names().contains(command) {
        Ok(())
    } else {
        Err(
            "unknown command '"@ + command + "'. Available: daemon, "@ + text::join(
                command_names(),
                ", "@,
            ),
        )
    }
}

pub fn validate(command: &str) -> (r: Result<(), String>)
    ensures
        match r {
            Ok(()) => validation(command@) == Ok::<(), Seq<char>>(()),
            Err(m) => validation(command@) == Err::<(), Seq<char>>(m@),
        },
{
    let names = commands();
    let ghost views = names@.map_values(|s: &str| s@);
    let mut i: usize = 0;
    while i < names.len()
        invariant
            i <= names@.len(),
            views == names@.map_values(|s: &str| s@),
            views == command_names(),
            forall|j: int| 0 <= j < i ==> #[trigger] views[j] != command@,
        decreases names@.len() - i,
    {
        if text::str_eq(names[i], command) {
            assert(views[i as int] == command@);
            return Ok(());
        }
        i = i + 1;
    }
    assert(!command_names().contains(command@));
    let mut pieces: Vec<Vec<char>> = Vec::new();
    let mut k: usize = 0;
    while k < names.len()
        invariant
            k <= names@.len(),
            views == names@.map_values(|s: &str| s@),
            pieces@.len() == k,
            forall|j: int| 0 <= j < k ==> #[trigger] pieces@[j]@ == views[j],
        decreases names@.len() - k,
    {
        pieces.push(text::chars_of(names[k]));
        k = k + 1;
    }
    assert(pieces@.map_values(|p: Vec<char>| p@) =~= views);
    let listed = text::join_chars(&pieces, ", ");
    let mut m = text::owned("unknown command '");
    text::push_str(&mut m, command);
    text::push_str(&mut m, "'. Available: daemon, ");
    text::push_str(&mut m, listed.as_str());
    Err(m)
}

} // verus!
