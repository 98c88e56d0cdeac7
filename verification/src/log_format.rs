//! The text of log records: `EVENT: <event>; <key>: <value>; ...` messages
//! and the timestamped lines that hold them.

use vstd::prelude::*;

verus! {

/// One detail of a log message, `key: value`.
pub open spec fn detail_text(d: (Seq<char>, Seq<char>)) -> Seq<char> {
    d.0 + ": "@ + d.1
}

/// The details joined with `"; "`.
pub open spec fn join_details(d: Seq<(Seq<char>, Seq<char>)>) -> Seq<char>
    decreases d.len(),
{
    if d.len() == 0 {
        Seq::empty()
    } else if d.len() == 1 {
        detail_text(d[0])
    } else {
        join_details(d.drop_last()) + "; "@ + detail_text(d.last())
    }
}

/// The log message for an event and its details:
/// `EVENT: <event>; <k1>: <v1>; <k2>: <v2>`.
pub open spec fn log_message(event: Seq<char>, details: Seq<(Seq<char>, Seq<char>)>) -> Seq<
    char,
> {
    "EVENT: "@ + event + "; "@ + join_details(details)
}

/// The views of borrowed detail pairs.
pub open spec fn details_view(details: Seq<(&str, &str)>) -> Seq<(Seq<char>, Seq<char>)> {
    details.map_values(|p: (&str, &str)| (p.0@, p.1@))
}

/// Formats a log message: `EVENT: <event>; <key>: <value>; ...`, the
/// details joined with `"; "`.
pub fn format_log(event: &str, details: &[(&str, &str)]) -> (r: String)
    ensures
        r@ == log_message(event@, details_view(details@)),
{
    let ghost dv = details_view(details@);
    let mut joined = String::new();
    let mut i: usize = 0;
    while i < details.len()
        invariant
            i <= details.len(),
            dv == details_view(details@),
            joined@ == join_details(dv.take(i as int)),
        decreases details.len() - i,
    {
        let (k, v) = details[i];
        if i > 0 {
            joined.append("; ");
        }
        joined.append(k);
        joined.append(": ");
        joined.append(v);
        proof {
            let t = dv.take(i + 1);
            assert(t.drop_last() =~= dv.take(i as int));
            assert(t.last() == (k@, v@));
            if i == 0 {
                assert(t.len() == 1);
            }
        }
        i = i + 1;
    }
    assert(dv.take(details.len() as int) =~= dv);
    let mut r = String::new();
    r.append("EVENT: ");
    r.append(event);
    r.append("; ");
    r.append(joined.as_str());
    r
}

/// The line that a log record takes in the log file: the timestamp in
/// square brackets, a space, and the message.
pub open spec fn log_line_text(timestamp: Seq<char>, message: Seq<char>) -> Seq<char> {
    "["@ + timestamp + "] "@ + message
}

/// Builds the line `[<timestamp>] <message>` that records `message` in the
/// log file.
pub fn log_line(timestamp: &str, message: &str) -> (r: String)
    ensures
        r@ == log_line_text(timestamp@, message@),
{
    let mut r = String::new();
    r.append("[");
    r.append(timestamp);
    r.append("] ");
    r.append(message);
    r
}

} // verus!
