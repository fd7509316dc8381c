//! Which log records reach the console, and the text a record shows.

use crate::text::{append_str, chars_of, chars_starts_with, is_prefix, join_strings, join_with, str_eq};
use vstd::prelude::*;

verus! {

broadcast use vstd::string::group_string_axioms;

/// The log target of this crate's transcript persistence.
pub open spec fn persistence_target() -> Seq<char> {
    "chill_bevy_console::persistence"@
}

/// Records from transcript persistence (its target or a module below it) are
/// kept out of the console, so saving output cannot feed more output.
pub open spec fn is_persistence_target(t: Seq<char>) -> bool {
    let p = persistence_target();
    t == p || (is_prefix(p, t) && is_prefix("::"@, t.skip(p.len() as int)))
}

/// Whether a log target belongs to transcript persistence (see
/// [`is_persistence_target`]).
pub fn is_persistence_log_target(target: &str) -> (r: bool)
    ensures
        r == is_persistence_target(target@),
{
    let p = "chill_bevy_console::persistence";
    if str_eq(target, p) {
        return true;
    }
    let t = chars_of(target);
    let pc = chars_of(p);
    if !chars_starts_with(t.as_slice(), pc.as_slice()) {
        return false;
    }
    let sep = chars_of("::");
    chars_starts_with(&t.as_slice()[pc.len()..t.len()], sep.as_slice())
}

/// The text of a log record: its message, then its other fields, separated
/// by spaces.
pub open spec fn record_text(message: Seq<char>, fields: Seq<Seq<char>>) -> Seq<char> {
    if message.len() == 0 {
        join_with(fields, " "@)
    } else if fields.len() == 0 {
        message
    } else {
        message + " "@ + join_with(fields, " "@)
    }
}

/// The text of a log record (see [`record_text`]); an empty text means the
/// record is not shown.
pub fn log_text(message: &str, fields: &[String]) -> (r: String)
    ensures
        r@ == record_text(message@, fields@.map_values(|f: String| f@)),
{
    let joined = join_strings(fields, " ");
    if message.is_empty() {
        return joined;
    }
    if fields.len() == 0 {
        return crate::text::copy_str(message);
    }
    let mut s = crate::text::copy_str(message);
    append_str(&mut s, " ");
    append_str(&mut s, joined.as_str());
    s
}

} // verus!
