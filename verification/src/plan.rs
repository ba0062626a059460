//! Which entries of a listing are to be moved, and where to.

use crate::classify::{category_key, classify, folder_key, Entry, EntryKind, EntryView};
use crate::mapping::{
    find_path_mapping, get_path_mapping, lemma_lookup_ignoring_case, lookup,
    lookup_ignoring_case, AppState, Table,
};
use crate::text::{is_hidden, is_hidden_name, last_dot, lowercase, split_name, suffix_of};
use vstd::prelude::*;

verus! {

/// One entry that is to be moved into a destination directory.
#[derive(Debug, PartialEq, Eq)]
pub struct Job {
    /// Where the entry is now.
    pub source: String,
    /// The directory that its category is mapped to.
    pub dest_dir: String,
    /// Its file name, which it keeps unless that name is taken.
    pub name: String,
}

/// A `Job` with its texts as character sequences.
pub struct JobView {
    pub source: Seq<char>,
    pub dest_dir: Seq<char>,
    pub name: Seq<char>,
}

impl View for Job {
    type V = JobView;

    open spec fn view(&self) -> JobView {
        JobView { source: self.source@, dest_dir: self.dest_dir@, name: self.name@ }
    }
}

/// One item of a listing: an entry, or why an entry could not be read.
pub type ListedView = Result<EntryView, Seq<char>>;

/// One thing that a scan has to settle: an entry to move, or an entry that
/// could not be read, with the reason.
pub type TaskView = Result<JobView, Seq<char>>;

/// The tasks of a list, in order.
pub open spec fn tasks_view(tasks: Seq<Result<Job, String>>) -> Seq<TaskView> {
    tasks.map_values(
        |task: Result<Job, String>|
            match task {
                Ok(job) => Ok(job@),
                Err(reason) => Err(reason@),
            },
    )
}

/// The items of a listing, in order.
pub open spec fn listing_view(listing: Seq<Result<Entry, String>>) -> Seq<ListedView> {
    listing.map_values(
        |item: Result<Entry, String>|
            match item {
                Ok(entry) => Ok(entry@),
                Err(reason) => Err(reason@),
            },
    )
}

/// The directory that an entry is to be moved into. There is none for a
/// hidden entry, for a file without an extension, and for a category that
/// `table` does not map. A directory goes where the folder key is mapped
/// to. A file goes where the key of its extension is mapped to, and the
/// case of letters does not count: the row whose key is spelt as the name
/// spells the extension is taken where there is one, else the first row
/// whose key in lower case is the category key of the file.
pub open spec fn destination(table: Table, entry: EntryView) -> Option<Seq<char>> {
    if is_hidden_name(entry.name) {
        None
    } else {
        match category_key(entry.name, entry.kind) {
            Some(key) => match entry.kind {
                EntryKind::Directory => lookup(table, key),
                EntryKind::File => lookup_ignoring_case(table, suffix_of(entry.name), key),
            },
            None => None,
        }
    }
}

/// The job for an entry, if it is to be moved.
pub open spec fn job_for(table: Table, entry: EntryView) -> Option<JobView> {
    match destination(table, entry) {
        Some(dir) => Some(JobView { source: entry.path, dest_dir: dir, name: entry.name }),
        None => None,
    }
}

/// The task for an item of a listing: the job of an entry that is to be
/// moved, or the note that an entry could not be read. An entry that stays
/// where it is gives no task.
pub open spec fn task_for(table: Table, item: ListedView) -> Option<TaskView> {
    match item {
        Ok(entry) => match job_for(table, entry) {
            Some(job) => Some(Ok(job)),
            None => None,
        },
        Err(reason) => Some(Err(reason)),
    }
}

/// The tasks of a listing: one for each entry that is to be moved and one
/// for each entry that could not be read, in the order of the listing.
pub open spec fn plan(table: Table, listing: Seq<ListedView>) -> Seq<TaskView>
    decreases listing.len(),
{
    if listing.len() == 0 {
        Seq::empty()
    } else {
        let earlier = plan(table, listing.drop_last());
        match task_for(table, listing.last()) {
            Some(task) => earlier.push(task),
            None => earlier,
        }
    }
}

/// Decides whether an entry is to be moved, and into which directory.
pub fn plan_entry(state: &AppState, entry: &Entry) -> (job: Option<Job>)
    ensures
        match job {
            Some(j) => job_for(state@, entry@) == Some(j@),
            None => job_for(state@, entry@) is None,
        },
{
    if is_hidden(entry.name.as_str()) {
        return None;
    }
    let found = match classify(entry.name.as_str(), entry.kind) {
        Some(key) => match entry.kind {
            EntryKind::Directory => get_path_mapping(key.as_str(), state),
            EntryKind::File => {
                let (_stem, suffix) = split_name(entry.name.as_str());
                find_path_mapping(suffix.as_str(), key.as_str(), state)
            },
        },
        None => None,
    };
    match found {
        Some(dir) => Some(
            Job { source: entry.path.clone(), dest_dir: dir, name: entry.name.clone() },
        ),
        None => None,
    }
}

/// Plans a whole listing.
pub fn plan_listing(state: &AppState, listing: Vec<Result<Entry, String>>) -> (tasks: Vec<
    Result<Job, String>,
>)
    ensures
        tasks_view(tasks@) == plan(state@, listing_view(listing@)),
{
    let ghost all = listing_view(listing@);
    let mut tasks: Vec<Result<Job, String>> = Vec::new();
    let mut index: usize = 0;
    assert(all.take(0) =~= Seq::empty());
    assert(tasks_view(tasks@) =~= Seq::empty());
    while index < listing.len()
        invariant
            index <= listing.len(),
            all == listing_view(listing@),
            tasks_view(tasks@) == plan(state@, all.take(index as int)),
        decreases listing.len() - index,
    {
        let ghost planned = tasks_view(tasks@);
        proof {
            let next = all.take(index + 1);
            assert(next.drop_last() == all.take(index as int));
            assert(next.last() == all[index as int]);
        }
        match &listing[index] {
            Ok(entry) => match plan_entry(state, entry) {
                Some(job) => {
                    tasks.push(Ok(job));
                    assert(tasks_view(tasks@) =~= planned.push(Ok(job@)));
                },
                None => {},
            },
            Err(reason) => {
                let note = reason.clone();
                tasks.push(Err(note));
                assert(tasks_view(tasks@) =~= planned.push(Err(note@)));
            },
        }
        index = index + 1;
    }
    assert(all.take(index as int) == all);
    tasks
}

/// The entries of a listing that a scan leaves where they are, in order.
pub open spec fn left_behind(table: Table, listing: Seq<ListedView>) -> Seq<ListedView>
    decreases listing.len(),
{
    if listing.len() == 0 {
        Seq::empty()
    } else {
        let earlier = left_behind(table, listing.drop_last());
        if task_for(table, listing.last()) is None {
            earlier.push(listing.last())
        } else {
            earlier
        }
    }
}

/// A hidden entry is never moved, whatever its kind and whatever the table
/// holds.
pub proof fn lemma_hidden_is_left(table: Table, entry: EntryView)
    requires
        is_hidden_name(entry.name),
    ensures
        job_for(table, entry) is None,
{
}

/// A file whose name has no dot is never moved.
pub proof fn lemma_file_without_extension_is_left(table: Table, entry: EntryView)
    requires
        entry.kind == EntryKind::File,
        last_dot(entry.name) is None,
    ensures
        job_for(table, entry) is None,
{
}

/// A file whose extension no row of the table matches is not moved: no key
/// is spelt as the name spells the extension, and no key in lower case is
/// the category key of the file.
pub proof fn lemma_unmapped_is_left(table: Table, entry: EntryView, key: Seq<char>)
    requires
        entry.kind == EntryKind::File,
        category_key(entry.name, entry.kind) == Some(key),
        forall|i: int|
            0 <= i < table.len() ==> (#[trigger] table[i]).0 != suffix_of(entry.name)
                && lowercase(table[i].0) != key,
    ensures
        job_for(table, entry) is None,
{
    lemma_lookup_ignoring_case(table, suffix_of(entry.name), key);
}

/// A file goes where the key that is spelt as its name spells the extension
/// is mapped to, whatever the case of the letters of that key.
pub proof fn lemma_written_key_is_matched(table: Table, entry: EntryView, dir: Seq<char>)
    requires
        entry.kind == EntryKind::File,
        !is_hidden_name(entry.name),
        last_dot(entry.name) is Some,
        lookup(table, suffix_of(entry.name)) == Some(dir),
    ensures
        job_for(table, entry) == Some(
            JobView { source: entry.path, dest_dir: dir, name: entry.name },
        ),
{
}

/// Files whose extensions have the same category key go to the same
/// directory, whatever the case of their letters, where no key of the table
/// is spelt as either name spells its extension.
pub proof fn lemma_destination_ignores_case(table: Table, a: EntryView, b: EntryView)
    requires
        a.kind == EntryKind::File,
        b.kind == EntryKind::File,
        !is_hidden_name(a.name),
        !is_hidden_name(b.name),
        category_key(a.name, a.kind) == category_key(b.name, b.kind),
        lookup(table, suffix_of(a.name)) is None,
        lookup(table, suffix_of(b.name)) is None,
    ensures
        destination(table, a) == destination(table, b),
{
}

/// The directory that a file goes to is that of a row whose key matches
/// the extension of the file without regard to the case of letters.
pub proof fn lemma_file_goes_to_a_matching_row(table: Table, entry: EntryView)
    requires
        entry.kind == EntryKind::File,
        destination(table, entry) is Some,
    ensures
        category_key(entry.name, entry.kind) is Some,
        exists|i: int|
            0 <= i < table.len() && (#[trigger] table[i]).1 == destination(table, entry)->0 && (
            table[i].0 == suffix_of(entry.name) || lowercase(table[i].0) == category_key(
                entry.name,
                entry.kind,
            )->0),
{
    lemma_lookup_ignoring_case(
        table,
        suffix_of(entry.name),
        category_key(entry.name, entry.kind)->0,
    );
}

/// A directory that is not hidden goes where the folder key is mapped to,
/// whatever its name: as one job, under its own name.
pub proof fn lemma_directory_is_one_job(table: Table, entry: EntryView)
    requires
        entry.kind == EntryKind::Directory,
        !is_hidden_name(entry.name),
    ensures
        job_for(table, entry) == match lookup(table, folder_key()) {
            Some(dir) => Some(JobView { source: entry.path, dest_dir: dir, name: entry.name }),
            None => None,
        },
{
}

/// The plan of two listings, one after the other, is the plan of the first
/// followed by the plan of the second.
pub proof fn lemma_plan_append(table: Table, first: Seq<ListedView>, second: Seq<ListedView>)
    ensures
        plan(table, first + second) == plan(table, first) + plan(table, second),
    decreases second.len(),
{
    if second.len() == 0 {
        assert(first + second =~= first);
        assert(plan(table, first) + plan(table, second) =~= plan(table, first));
    } else {
        assert((first + second).drop_last() =~= first + second.drop_last());
        lemma_plan_append(table, first, second.drop_last());
        let earlier = plan(table, first) + plan(table, second.drop_last());
        match task_for(table, second.last()) {
            Some(task) => {
                assert(earlier.push(task) =~= plan(table, first) + plan(
                    table,
                    second.drop_last(),
                ).push(task));
            },
            None => {},
        }
    }
}

/// Every task of a plan is the task of an item of the listing, and every
/// item that has a task is in the plan. So a scan touches nothing but
/// listed entries that have a destination.
pub proof fn lemma_plan_members(table: Table, listing: Seq<ListedView>)
    ensures
        plan(table, listing).len() <= listing.len(),
        forall|k: int|
            0 <= k < plan(table, listing).len() ==> exists|i: int|
                0 <= i < listing.len() && task_for(table, listing[i]) == Some(
                    #[trigger] plan(table, listing)[k],
                ),
        forall|i: int|
            0 <= i < listing.len() && task_for(table, #[trigger] listing[i]) is Some
                ==> exists|k: int|
                0 <= k < plan(table, listing).len() && plan(table, listing)[k] == task_for(
                    table,
                    listing[i],
                )->0,
    decreases listing.len(),
{
    if listing.len() > 0 {
        let front = listing.drop_last();
        let earlier = plan(table, front);
        let all = plan(table, listing);
        lemma_plan_members(table, front);
        assert forall|k: int| 0 <= k < all.len() implies exists|i: int|
            0 <= i < listing.len() && task_for(table, listing[i]) == Some(#[trigger] all[k])
        by {
            if k < earlier.len() {
                assert(all[k] == earlier[k]);
                let i = choose|i: int|
                    0 <= i < front.len() && task_for(table, front[i]) == Some(earlier[k]);
                assert(front[i] == listing[i]);
            } else {
                assert(task_for(table, listing[listing.len() - 1]) == Some(all[k]));
            }
        }
        assert forall|i: int|
            0 <= i < listing.len() && task_for(table, #[trigger] listing[i]) is Some
            implies exists|k: int|
            0 <= k < all.len() && all[k] == task_for(table, listing[i])->0
        by {
            if i < front.len() {
                assert(front[i] == listing[i]);
                let k = choose|k: int|
                    0 <= k < earlier.len() && earlier[k] == task_for(table, front[i])->0;
                assert(all[k] == earlier[k]);
            } else {
                assert(all[all.len() - 1] == task_for(table, listing[i])->0);
            }
        }
    }
}

/// Sorting twice moves nothing twice. What a scan leaves behind has no
/// task, so a second scan plans only the entries that are new since the
/// first.
pub proof fn lemma_rescan_plans_only_new_entries(
    table: Table,
    listing: Seq<ListedView>,
    added: Seq<ListedView>,
)
    ensures
        plan(table, left_behind(table, listing)) == Seq::<TaskView>::empty(),
        plan(table, left_behind(table, listing) + added) == plan(table, added),
    decreases listing.len(),
{
    if listing.len() > 0 {
        let earlier = left_behind(table, listing.drop_last());
        lemma_rescan_plans_only_new_entries(table, listing.drop_last(), Seq::empty());
        if task_for(table, listing.last()) is None {
            assert(earlier.push(listing.last()).drop_last() =~= earlier);
        }
    }
    lemma_plan_append(table, left_behind(table, listing), added);
    assert(Seq::<TaskView>::empty() + plan(table, added) =~= plan(table, added));
}

} // verus!
