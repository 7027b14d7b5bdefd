//! Starting a new instance of the target executable.

use vstd::prelude::*;
use crate::logbook::{join, joined, texts};

verus! {

/// The name of the launcher: the title of its window, and the name of the
/// lock that keeps a second launcher from starting.
pub const APP_NAME: &'static str = "SC:R Multi-Launcher";

/// The argument that an instance is started with.
pub const LAUNCH_ARGUMENT: &'static str = "-launch";

/// The time between two scans, in milliseconds.
pub const CHECK_INTERVAL_MILLIS: u64 = 500;

/// The command line that starts the executable at `path` with the
/// arguments `args`: the path and the arguments, with a space between each
/// two.
pub fn command_line(path: &str, args: &Vec<String>) -> (line: String)
    ensures
        line@ == joined(seq![path@] + texts(args@), " "@),
{
    let mut parts: Vec<String> = Vec::new();
    parts.push(String::from_str(path));
    let mut at: usize = 0;
    while at < args.len()
        invariant
            at <= args.len(),
            texts(parts@) == seq![path@] + texts(args@).take(at as int),
        decreases args.len() - at,
    {
        let ghost before = texts(parts@);
        parts.push(args[at].clone());
        assert(texts(parts@) =~= before.push(args[at as int]@));
        assert(texts(parts@) =~= seq![path@] + texts(args@).take(at + 1));
        at += 1;
    }
    assert(texts(args@).take(at as int) =~= texts(args@));
    join(&parts, " ")
}

} // verus!
