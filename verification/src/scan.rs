//! The start of a scan, and the places that the platform provides.

use crate::classify::Entry;
use crate::engine::{ActionView, EngineView, SortEngine};
use crate::error::{Error, ErrorView};
use crate::mapping::{AppState, Table};
use crate::plan::{
    destination, lemma_plan_members, listing_view, plan, plan_listing, task_for, ListedView,
};
use crate::text::{join, join_path};
use vstd::prelude::*;

verus! {

/// The desktop directory, or the failure to report where the platform
/// names none.
pub fn get_desktop_path(desktop: Option<String>) -> (result: Result<String, Error>)
    ensures
        match desktop {
            Some(dir) => result is Ok && result->Ok_0@ == dir@,
            None => result is Err && result->Err_0@ == ErrorView::DesktopNotFound,
        },
{
    match desktop {
        Some(dir) => Ok(dir),
        None => Err(Error::DesktopNotFound),
    }
}

/// Where the settings are kept below the configuration directory
/// `config_dir`.
pub open spec fn settings_path(config_dir: Seq<char>) -> Seq<char> {
    join_path(join_path(config_dir, "desksort"@), "settings.db"@)
}

/// The path of the settings file, or the failure to report where the
/// platform names no configuration directory.
pub fn get_db_path(config_dir: Option<String>) -> (result: Result<String, Error>)
    ensures
        match config_dir {
            Some(dir) => result is Ok && result->Ok_0@ == settings_path(dir@),
            None => result is Err && result->Err_0@ == ErrorView::ConfigDirNotFound,
        },
{
    match config_dir {
        Some(dir) => {
            let own = join(dir.as_str(), "desksort");
            Ok(join(own.as_str(), "settings.db"))
        },
        None => Err(Error::ConfigDirNotFound),
    }
}

/// Starts a scan of the desktop directory.
///
/// `desktop` is the directory as the platform names it, and `listing` what
/// it holds directly, in the order in which the entries were found, with
/// the reason in the place of an entry that could not be read; it is
/// `None` where the directory does not exist. Both failures end the scan
/// before anything is touched. Otherwise the scan is ready to run over the
/// entries that `state` has a destination for. The destinations are read
/// here, once: a mapping that is set while the scan runs does not change
/// where the scan moves an entry.
pub fn scan_and_sort(
    state: &AppState,
    desktop: Option<String>,
    listing: Option<Vec<Result<Entry, String>>>,
) -> (result: Result<SortEngine, Error>)
    ensures
        match (desktop, listing) {
            (None, _) => result is Err && result->Err_0@ == ErrorView::DesktopNotFound,
            (Some(dir), None) => result is Err && result->Err_0@ == ErrorView::DirectoryNotFound(
                dir@,
            ),
            (Some(dir), Some(entries)) => result is Ok && result->Ok_0@ == EngineView::start(
                plan(state@, listing_view(entries@)),
            ) && result->Ok_0@.wf(),
        },
{
    let root = match get_desktop_path(desktop) {
        Ok(dir) => dir,
        Err(error) => {
            return Err(error);
        },
    };
    match listing {
        Some(entries) => Ok(SortEngine::new(plan_listing(state, entries))),
        None => Err(Error::DirectoryNotFound(root)),
    }
}

/// Whether `path` is the path of an entry of `listing` that `table` has a
/// destination for: one that is not hidden, has a category, and whose
/// category is mapped.
pub open spec fn is_planned(table: Table, listing: Seq<ListedView>, path: Seq<char>) -> bool {
    exists|i: int|
        0 <= i < listing.len() && (#[trigger] listing[i]) is Ok && listing[i]->Ok_0.path == path
            && destination(table, listing[i]->Ok_0) is Some
}

/// A scan touches and reports nothing but what the listing holds. At every
/// state of the scan of a listing, the entry that a move is asked for is a
/// listed entry that has a destination, and every outcome is that of such
/// an entry or says that an entry could not be read; hidden entries, files
/// without extension and unmapped categories are neither moved nor
/// reported.
pub proof fn lemma_scan_touches_only_planned(
    table: Table,
    listing: Seq<ListedView>,
    state: EngineView,
)
    requires
        state.wf(),
        state.jobs == plan(table, listing),
    ensures
        state.action() matches ActionView::Move { source, destination } ==> is_planned(
            table,
            listing,
            source,
        ),
        forall|k: int|
            0 <= k < state.report.len() ==> is_planned(
                table,
                listing,
                (#[trigger] state.report[k]).source(),
            ) || state.report[k].is_unreadable(),
{
    lemma_plan_members(table, listing);
    let jobs = plan(table, listing);
    assert forall|k: int| 0 <= k < jobs.len() && (#[trigger] jobs[k]) is Ok implies is_planned(
        table,
        listing,
        jobs[k]->Ok_0.source,
    ) by {
        let i = choose|i: int|
            0 <= i < listing.len() && task_for(table, listing[i]) == Some(jobs[k]);
        assert(listing[i] is Ok);
        assert(listing[i]->Ok_0.path == jobs[k]->Ok_0.source);
    }
    assert forall|k: int| 0 <= k < state.report.len() implies is_planned(
        table,
        listing,
        (#[trigger] state.report[k]).source(),
    ) || state.report[k].is_unreadable() by {
        if jobs[k] is Ok {
            assert(state.report[k].source() == jobs[k]->Ok_0.source);
        }
    }
    if !state.done() {
        assert(is_planned(table, listing, jobs[state.cursor as int]->Ok_0.source));
    }
}

} // verus!
