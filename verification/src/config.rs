//! Where the process keeps its files and how it is configured.

use vstd::prelude::*;

verus! {

/// The directory whose presence selects the deployed file locations.
pub fn data_dir() -> (path: &'static str)
    ensures
        path@ == "/app/data"@,
{
    "/app/data"
}

/// The database file: under the data directory where that exists, in the
/// working directory where it does not.
pub fn database_path(has_data_dir: bool) -> (path: &'static str)
    ensures
        path@ == (if has_data_dir {
            "/app/data/counts.db"@
        } else {
            "counts.db"@
        }),
{
    if has_data_dir {
        "/app/data/counts.db"
    } else {
        "counts.db"
    }
}

/// The access log file, chosen as the database file is.
pub fn log_path(has_data_dir: bool) -> (path: &'static str)
    ensures
        path@ == (if has_data_dir {
            "/app/data/pageviews.log"@
        } else {
            "pageviews.log"@
        }),
{
    if has_data_dir {
        "/app/data/pageviews.log"
    } else {
        "pageviews.log"
    }
}

/// The environment variable that holds the shared secret.
pub fn secret_variable() -> (name: &'static str)
    ensures
        name@ == "ABSOLUTELYRIGHT_SECRET"@,
{
    "ABSOLUTELYRIGHT_SECRET"
}

} // verus!
