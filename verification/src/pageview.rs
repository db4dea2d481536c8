//! The access log: one line for each view of the main page.

use vstd::prelude::*;
use vstd::string::*;
use crate::clock::{time_shaped, timestamp};
use crate::text::same_text;

verus! {

/// Whether a request is a view of the main page: a `GET` of `/` or of
/// `/index.html`.
pub open spec fn is_pageview(method: Seq<char>, path: Seq<char>) -> bool {
    method == "GET"@ && (path == "/"@ || path == "/index.html"@)
}

/// The line that records a view of `path` at `time`.
pub open spec fn entry_text(time: Seq<char>, path: Seq<char>) -> Seq<char> {
    time + " - Pageview: "@ + path + "\n"@
}

/// Whether a request is logged.
pub fn should_log(method: &str, path: &str) -> (r: bool)
    ensures
        r == is_pageview(method@, path@),
{
    same_text(method, "GET") && (same_text(path, "/") || same_text(path, "/index.html"))
}

/// The log line for a view of `path` at `time`.
pub fn log_entry(time: &str, path: &str) -> (line: String)
    ensures
        line@ == entry_text(time@, path@),
{
    let mut line = time.to_owned();
    line.append(" - Pageview: ");
    line.append(path);
    line.append("\n");
    line
}

/// The line to append to the log for a request, given the time text that the
/// clock gave: a line for a view of the main page at a time that could be
/// written, nothing for any other request and nothing without a time.
pub fn pageview_line(method: &str, path: &str, time: Option<&str>) -> (r: Option<String>)
    ensures
        r is Some <==> is_pageview(method@, path@) && time is Some,
        r matches Some(line) ==> line@ == entry_text(time->0@, path@),
{
    match time {
        Some(t) => {
            if should_log(method, path) {
                Some(log_entry(t, path))
            } else {
                None
            }
        },
        None => None,
    }
}

/// The line to append to the log for a request, stamped with the current UTC
/// time. A request that is no view of the main page gives none; neither does
/// a clock without a time that can be written.
pub fn log_pageview(method: &str, path: &str) -> (r: Option<String>)
    ensures
        r is Some ==> is_pageview(method@, path@),
        r matches Some(line) ==> exists|time: Seq<char>|
            time_shaped(time) && line@ == entry_text(time, path@),
{
    if !should_log(method, path) {
        return None;
    }
    match timestamp() {
        Some(time) => {
            let r = pageview_line(method, path, Some(time.as_str()));
            assert(r matches Some(line) ==> time_shaped(time@) && line@ == entry_text(
                time@,
                path@,
            ));
            r
        },
        None => None,
    }
}

} // verus!
