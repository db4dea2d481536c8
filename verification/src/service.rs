//! The three operations of the API, from request to response, over a store.

use vstd::prelude::*;
use crate::clock::day_shaped;
use crate::gate::{admitted, secret_view, AccessGate};
use crate::ingest::{normalize, normalized, SetRequest};
use crate::keyed::{as_map, ascending};
use crate::patterns::PatternMap;
use crate::record::{
    empty_tally, flat, flatten, today_counts, Columns, DayRecord, StoredRow,
};
use crate::store::{records_view, tally_on, DayStore};

verus! {

/// Why a write was not carried out.
#[derive(Clone, Copy, Debug, PartialEq, Eq, Structural)]
pub enum SetError {
    /// A secret is configured and the request did not supply it.
    Unauthorized,
    /// The backing table did not take the write. Nothing of it was written.
    StoreFailed,
}

impl SetError {
    /// The HTTP status that reports the error.
    pub fn status(&self) -> (code: u16)
        ensures
            code == (match *self {
                SetError::Unauthorized => 401u16,
                SetError::StoreFailed => 500u16,
            }),
    {
        match self {
            SetError::Unauthorized => 401,
            SetError::StoreFailed => 500,
        }
    }

    /// The text that reports the error.
    pub fn message(&self) -> (text: &'static str)
        ensures
            text@ == (match *self {
                SetError::Unauthorized => "Invalid secret"@,
                SetError::StoreFailed => "Store unavailable"@,
            }),
    {
        match self {
            SetError::Unauthorized => "Invalid secret",
            SetError::StoreFailed => "Store unavailable",
        }
    }
}

/// The result of a write that was handed to the backing table: success
/// where the table committed the whole row, a failure of the store where it
/// did not. There is nothing in between.
pub fn conclude_set(committed: bool) -> (r: Result<(), SetError>)
    ensures
        r == (if committed {
            Ok::<(), SetError>(())
        } else {
            Err::<(), SetError>(SetError::StoreFailed)
        }),
{
    if committed {
        Ok(())
    } else {
        Err(SetError::StoreFailed)
    }
}

/// The text that acknowledges a write.
pub fn acknowledgment() -> (text: &'static str)
    ensures
        text@ == "ok"@,
{
    "ok"
}

/// The routes of the API, and everything else.
#[derive(Clone, Copy, Debug, PartialEq, Eq, Structural)]
pub enum Route {
    Today,
    History,
    Write,
    /// Any other path: a static file.
    Static,
}

/// For how many seconds a response may be cached: a minute for the current
/// day, five minutes for the history, not at all for anything else.
pub fn max_age(route: Route) -> (seconds: Option<u32>)
    ensures
        seconds == (match route {
            Route::Today => Some(60u32),
            Route::History => Some(300u32),
            Route::Write => None,
            Route::Static => None,
        }),
{
    match route {
        Route::Today => Some(60),
        Route::History => Some(300),
        Route::Write => None,
        Route::Static => None,
    }
}

/// The `Cache-Control` text for a route.
pub open spec fn control_text(route: Route) -> Seq<char> {
    match route {
        Route::Today => "public, max-age=60"@,
        Route::History => "public, max-age=300"@,
        Route::Write => "no-cache, no-store, must-revalidate"@,
        Route::Static => "no-cache, no-store, must-revalidate"@,
    }
}

/// The `Cache-Control` value for a route.
pub fn cache_control(route: Route) -> (value: &'static str)
    ensures
        value@ == control_text(route),
{
    match route {
        Route::Today => "public, max-age=60",
        Route::History => "public, max-age=300",
        Route::Write => "no-cache, no-store, must-revalidate",
        Route::Static => "no-cache, no-store, must-revalidate",
    }
}

/// The cache headers of a response. A header that is `None` is not sent.
pub struct CacheDirectives {
    pub cache_control: &'static str,
    pub pragma: Option<&'static str>,
    pub expires: Option<&'static str>,
}

impl CacheDirectives {
    /// Whether these are the headers of `route`: the two JSON reads carry
    /// their own positive max-age and nothing that forbids caching; every
    /// other response carries the three headers that forbid it.
    pub open spec fn fits(&self, route: Route) -> bool {
        &&& self.cache_control@ == control_text(route)
        &&& match route {
            Route::Today | Route::History => self.pragma is None && self.expires is None,
            Route::Write | Route::Static => {
                &&& self.pragma matches Some(p) && p@ == "no-cache"@
                &&& self.expires matches Some(e) && e@ == "0"@
            },
        }
    }
}

/// The cache headers of a route.
pub fn directives(route: Route) -> (d: CacheDirectives)
    ensures
        d.fits(route),
{
    match route {
        Route::Today | Route::History => CacheDirectives {
            cache_control: cache_control(route),
            pragma: None,
            expires: None,
        },
        Route::Write | Route::Static => CacheDirectives {
            cache_control: cache_control(route),
            pragma: Some("no-cache"),
            expires: Some("0"),
        },
    }
}

/// The response for the current day, given the row found for it or no row
/// at all: the day's counts as one flat map, cacheable for a minute. A day
/// without a row has no pattern and a total of zero.
pub fn today_response(row: Option<&Columns>) -> (r: (PatternMap, CacheDirectives))
    ensures
        r.0@ == flat(
            match row {
                Some(columns) => columns.tally(),
                None => empty_tally(),
            },
        ),
        r.1.fits(Route::Today),
{
    (today_counts(row), directives(Route::Today))
}

/// The response for the current UTC day over a store: the day that was
/// looked up, where the clock gave one, its counts as one flat map, and the
/// cache headers of a minute.
pub fn get_today(store: &DayStore) -> (r: (Option<String>, PatternMap, CacheDirectives))
    ensures
        r.0 matches Some(day) ==> day_shaped(day@),
        r.1@ == flat(
            tally_on(
                store@,
                match r.0 {
                    Some(day) => Some(day@),
                    None => None,
                },
            ),
        ),
        r.2.fits(Route::Today),
{
    let (day, patterns, total_messages) = store.get_today();
    (day, flatten(patterns, total_messages), directives(Route::Today))
}

/// The response for the history: every record of the store, by ascending
/// day, and the cache headers of five minutes. The store is not changed.
pub fn get_history(store: &DayStore) -> (r: (Vec<DayRecord>, CacheDirectives))
    ensures
        ascending(records_view(r.0@)),
        as_map(records_view(r.0@)) == store@,
        r.0.len() == store@.dom().len(),
        r.1.fits(Route::History),
{
    (store.list_history(), directives(Route::History))
}

/// The row that a request asks to be written, or the refusal of the access
/// gate. An admitted request always gives a row.
pub fn prepare_set(gate: &AccessGate, req: &SetRequest) -> (r: Result<StoredRow, SetError>)
    ensures
        match r {
            Ok(row) => {
                &&& admitted(*gate, secret_view(req.secret))
                &&& row.day@ == req.day@
                &&& row.columns.tally() == normalized(*req)
                &&& row.columns.patterns is Some
                &&& row.columns.total_messages == Some(normalized(*req).1)
            },
            Err(e) => e == SetError::Unauthorized && !admitted(*gate, secret_view(req.secret)),
        },
{
    let supplied = match &req.secret {
        Some(s) => Some(s),
        None => None,
    };
    if !gate.admits(supplied) {
        return Err(SetError::Unauthorized);
    }
    let (patterns, total_messages) = normalize(req);
    Ok(StoredRow::encode(req.day.clone(), &patterns, total_messages))
}

/// Carries out a write: where the request is admitted, the record of
/// its day is replaced by what the request normalizes to; where it is not,
/// the store is left as it was.
pub fn set_day(gate: &AccessGate, store: &mut DayStore, req: &SetRequest) -> (r: Result<
    (),
    SetError,
>)
    ensures
        r is Ok <==> admitted(*gate, secret_view(req.secret)),
        r is Ok ==> final(store)@ == old(store)@.insert(req.day@, normalized(*req)),
        r is Err ==> final(store)@ == old(store)@ && r == Err::<(), SetError>(
            SetError::Unauthorized,
        ),
{
    match prepare_set(gate, req) {
        Ok(row) => {
            store.load_row(row);
            Ok(())
        },
        Err(e) => Err(e),
    }
}

} // verus!
