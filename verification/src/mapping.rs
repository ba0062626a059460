//! The table that maps a category key to its destination directory.

use crate::text::{lowercase, to_lowercase};
use vstd::prelude::*;

verus! {

/// One row of the table: a category key and the directory it is sorted into.
#[derive(Debug, PartialEq, Eq)]
pub struct PathMapping {
    pub extension: String,
    pub target_path: String,
}

impl View for PathMapping {
    type V = (Seq<char>, Seq<char>);

    open spec fn view(&self) -> (Seq<char>, Seq<char>) {
        (self.extension@, self.target_path@)
    }
}

impl Clone for PathMapping {
    fn clone(&self) -> (copy: PathMapping)
        ensures
            copy@ == self@,
    {
        PathMapping { extension: self.extension.clone(), target_path: self.target_path.clone() }
    }
}

impl Default for PathMapping {
    fn default() -> (empty: PathMapping)
        ensures
            empty@ == (Seq::<char>::empty(), Seq::<char>::empty()),
    {
        PathMapping { extension: String::new(), target_path: String::new() }
    }
}

/// A table as a sequence of rows, each a key and a path.
pub type Table = Seq<(Seq<char>, Seq<char>)>;

/// No key occurs in two rows.
pub open spec fn distinct_keys(table: Table) -> bool {
    forall|i: int, j: int| 0 <= i < j < table.len() ==> table[i].0 != table[j].0
}

/// The first row of `table` that has `key`, if there is one.
pub open spec fn position(table: Table, key: Seq<char>) -> Option<int>
    decreases table.len(),
{
    if table.len() == 0 {
        None
    } else {
        match position(table.drop_last(), key) {
            Some(i) => Some(i),
            None => if table.last().0 == key {
                Some(table.len() - 1)
            } else {
                None
            },
        }
    }
}

/// The path that `table` gives for `key`.
pub open spec fn lookup(table: Table, key: Seq<char>) -> Option<Seq<char>> {
    match position(table, key) {
        Some(i) => Some(table[i].1),
        None => None,
    }
}

/// `table` after `key` was set to `path`: the row of `key` is replaced where
/// it stands, or a new row is added at the end.
pub open spec fn upsert(table: Table, key: Seq<char>, path: Seq<char>) -> Table {
    match position(table, key) {
        Some(i) => table.update(i, (key, path)),
        None => table.push((key, path)),
    }
}

/// `position` gives the least index whose row has `key`, and none exactly
/// when no row has it.
pub proof fn lemma_position(table: Table, key: Seq<char>)
    ensures
        match position(table, key) {
            Some(i) => 0 <= i < table.len() && table[i].0 == key && forall|j: int|
                0 <= j < i ==> table[j].0 != key,
            None => forall|j: int| 0 <= j < table.len() ==> table[j].0 != key,
        },
    decreases table.len(),
{
    if table.len() > 0 {
        let front = table.drop_last();
        lemma_position(front, key);
        assert(forall|j: int| 0 <= j < front.len() ==> front[j] == table[j]);
    }
}

/// The mappings of the application: a table in which every key occurs once.
pub struct AppState {
    mappings: Vec<PathMapping>,
}

impl View for AppState {
    type V = Table;

    closed spec fn view(&self) -> Table {
        self.mappings@.map_values(|m: PathMapping| m@)
    }
}

impl AppState {
    #[verifier::type_invariant]
    spec fn unique(self) -> bool {
        distinct_keys(self@)
    }

    /// A table without rows.
    pub fn new() -> (state: AppState)
        ensures
            state@ == Seq::<(Seq<char>, Seq<char>)>::empty(),
    {
        let state = AppState { mappings: Vec::new() };
        assert(state@ =~= Seq::<(Seq<char>, Seq<char>)>::empty());
        state
    }

    /// Tells whether the table has no rows.
    pub fn is_empty(&self) -> (empty: bool)
        ensures
            empty == (self@.len() == 0),
    {
        self.mappings.len() == 0
    }

    /// Puts `table` in the place of all rows.
    pub(crate) fn install(&mut self, table: Vec<PathMapping>)
        requires
            distinct_keys(rows(table@)),
        ensures
            final(self)@ == rows(table@),
    {
        self.mappings = table;
    }

    fn find(&self, key: &str) -> (found: Option<usize>)
        ensures
            match found {
                Some(i) => position(self@, key@) == Some(i as int) && i < self.mappings.len(),
                None => position(self@, key@) is None,
            },
    {
        find_row(&self.mappings, key)
    }

    /// The rows with every key in lower case.
    fn folded_rows(&self) -> (folded: Vec<PathMapping>)
        ensures
            rows(folded@) == fold_keys(self@),
    {
        let mut folded: Vec<PathMapping> = Vec::new();
        let mut index: usize = 0;
        assert(rows(folded@) =~= fold_keys(self@).take(0));
        while index < self.mappings.len()
            invariant
                index <= self.mappings.len(),
                rows(folded@) == fold_keys(self@).take(index as int),
            decreases self.mappings.len() - index,
        {
            let row = PathMapping {
                extension: to_lowercase(self.mappings[index].extension.as_str()),
                target_path: self.mappings[index].target_path.clone(),
            };
            let ghost filled = rows(folded@);
            folded.push(row);
            index = index + 1;
            proof {
                assert(self@[index - 1] == self.mappings@[index - 1]@);
                assert(row@ == fold_keys(self@)[index - 1]);
                assert(rows(folded@) =~= filled.push(row@));
                assert(rows(folded@) =~= fold_keys(self@).take(index as int));
            }
        }
        assert(fold_keys(self@).take(index as int) == fold_keys(self@));
        folded
    }
}

/// Finds the first row of `table` that has `key`.
pub fn find_row(table: &Vec<PathMapping>, key: &str) -> (found: Option<usize>)
    ensures
        match found {
            Some(i) => position(rows(table@), key@) == Some(i as int) && i < table.len(),
            None => position(rows(table@), key@) is None,
        },
{
    let ghost all = rows(table@);
    let wanted = key.to_owned();
    let mut index: usize = 0;
    while index < table.len()
        invariant
            index <= table.len(),
            wanted@ == key@,
            all == rows(table@),
            position(all.take(index as int), key@) is None,
        decreases table.len() - index,
    {
        proof {
            assert(all.take(index + 1).drop_last() == all.take(index as int));
        }
        if table[index].extension == wanted {
            proof {
                let prefix = all.take(index as int);
                lemma_position(prefix, key@);
                lemma_position(all, key@);
                assert(all[index as int] == table@[index as int]@);
                let first = position(all, key@)->0;
                if first < index {
                    assert(prefix[first] == all[first]);
                }
            }
            return Some(index);
        }
        index = index + 1;
    }
    proof {
        assert(all.take(index as int) == all);
    }
    None
}

/// `table` with every key in lower case.
pub open spec fn fold_keys(table: Table) -> Table {
    table.map_values(|row: (Seq<char>, Seq<char>)| (lowercase(row.0), row.1))
}

/// The path that `table` gives for a key without regard to the case of
/// letters. `written` is the key as a file name spells it and `folded` its
/// lower-case form. The row whose key is spelt as `written` is taken where
/// there is one, else the first row whose key in lower case is `folded`.
pub open spec fn lookup_ignoring_case(
    table: Table,
    written: Seq<char>,
    folded: Seq<char>,
) -> Option<Seq<char>> {
    match lookup(table, written) {
        Some(path) => Some(path),
        None => lookup(fold_keys(table), folded),
    }
}

/// Reads the directory that `extension` is mapped to.
pub fn get_path_mapping(extension: &str, state: &AppState) -> (path: Option<String>)
    ensures
        match path {
            Some(p) => lookup(state@, extension@) == Some(p@),
            None => lookup(state@, extension@) is None,
        },
{
    match state.find(extension) {
        Some(i) => Some(state.mappings[i].target_path.clone()),
        None => None,
    }
}

/// Reads the directory of the first row whose key in lower case is `folded`.
pub fn get_folded_mapping(folded: &str, state: &AppState) -> (path: Option<String>)
    ensures
        match path {
            Some(p) => lookup(fold_keys(state@), folded@) == Some(p@),
            None => lookup(fold_keys(state@), folded@) is None,
        },
{
    let table = state.folded_rows();
    match find_row(&table, folded) {
        Some(i) => {
            proof {
                assert(rows(table@)[i as int] == table@[i as int]@);
            }
            Some(table[i].target_path.clone())
        },
        None => None,
    }
}

/// Reads the directory for a key as a file name spells it, without regard
/// to the case of letters; `folded` is the lower-case form of the key.
pub fn find_path_mapping(written: &str, folded: &str, state: &AppState) -> (path: Option<
    String,
>)
    ensures
        match path {
            Some(p) => lookup_ignoring_case(state@, written@, folded@) == Some(p@),
            None => lookup_ignoring_case(state@, written@, folded@) is None,
        },
{
    match get_path_mapping(written, state) {
        Some(path) => Some(path),
        None => get_folded_mapping(folded, state),
    }
}

/// In a table of distinct keys, the key of every row reads as the path of
/// that row.
pub proof fn lemma_lookup_row(table: Table, i: int)
    requires
        distinct_keys(table),
        0 <= i < table.len(),
    ensures
        lookup(table, table[i].0) == Some(table[i].1),
{
    lemma_position(table, table[i].0);
}

/// What is found without regard to case is the path of a row that matches:
/// one whose key is spelt as written, or whose key in lower case is the
/// folded key. Nothing is found exactly when no row matches.
pub proof fn lemma_lookup_ignoring_case(table: Table, written: Seq<char>, folded: Seq<char>)
    ensures
        match lookup_ignoring_case(table, written, folded) {
            Some(path) => exists|i: int|
                0 <= i < table.len() && (#[trigger] table[i]).1 == path && (table[i].0 == written
                    || lowercase(table[i].0) == folded),
            None => forall|i: int|
                0 <= i < table.len() ==> (#[trigger] table[i]).0 != written && lowercase(
                    table[i].0,
                ) != folded,
        },
{
    lemma_position(table, written);
    lemma_position(fold_keys(table), folded);
    match position(table, written) {
        Some(i) => {
            assert(table[i].1 == lookup(table, written)->0);
        },
        None => {
            match position(fold_keys(table), folded) {
                Some(i) => {
                    assert(fold_keys(table)[i] == (lowercase(table[i].0), table[i].1));
                },
                None => {
                    assert forall|i: int| 0 <= i < table.len() implies (#[trigger] table[i]).0
                        != written && lowercase(table[i].0) != folded by {
                        assert(fold_keys(table)[i] == (lowercase(table[i].0), table[i].1));
                    }
                },
            }
        },
    }
}

/// The rows of a list of mappings, in order.
pub open spec fn rows(mappings: Seq<PathMapping>) -> Table {
    mappings.map_values(|m: PathMapping| m@)
}

/// Maps `extension` to `target_path`, in place of what it was mapped to
/// before, if anything. The other rows stay as they are.
pub fn set_path_mapping(extension: String, target_path: String, state: &mut AppState)
    ensures
        final(state)@ == upsert(old(state)@, extension@, target_path@),
        lookup(final(state)@, extension@) == Some(target_path@),
        forall|other: Seq<char>|
            other != extension@ ==> lookup(final(state)@, other) == lookup(old(state)@, other),
{
    proof {
        use_type_invariant(&*state);
        lemma_upsert(state@, extension@, target_path@);
    }
    let ghost before = state@;
    let found = state.find(extension.as_str());
    let mut table: Vec<PathMapping> = Vec::new();
    core::mem::swap(&mut table, &mut state.mappings);
    assert(rows(table@) == before);
    match found {
        Some(i) => {
            table.set(i, PathMapping { extension, target_path });
            assert(rows(table@) =~= before.update(i as int, (extension@, target_path@)));
        },
        None => {
            table.push(PathMapping { extension, target_path });
            assert(rows(table@) =~= before.push((extension@, target_path@)));
        },
    }
    state.mappings = table;
}

/// Reads the whole table, row by row in the order in which the keys were
/// first set.
pub fn get_all_mappings(state: &AppState) -> (all: Vec<PathMapping>)
    ensures
        rows(all@) == state@,
        distinct_keys(state@),
{
    proof {
        use_type_invariant(state);
    }
    let mut all: Vec<PathMapping> = Vec::new();
    let mut index: usize = 0;
    while index < state.mappings.len()
        invariant
            index <= state.mappings.len(),
            rows(all@) == state@.take(index as int),
        decreases state.mappings.len() - index,
    {
        let row = state.mappings[index].clone();
        all.push(row);
        index = index + 1;
        assert(rows(all@) =~= state@.take(index - 1).push(row@));
        assert(rows(all@) =~= state@.take(index as int));
    }
    assert(state@.take(index as int) == state@);
    all
}

/// Tables that agree on the key of every row give every key the same
/// position.
proof fn lemma_position_by_keys(a: Table, b: Table, key: Seq<char>)
    requires
        a.len() == b.len(),
        forall|i: int| 0 <= i < a.len() ==> a[i].0 == b[i].0,
    ensures
        position(a, key) == position(b, key),
    decreases a.len(),
{
    if a.len() > 0 {
        lemma_position_by_keys(a.drop_last(), b.drop_last(), key);
    }
}

/// Setting a key keeps the keys distinct, makes the key read as the new
/// path, and leaves what every other key reads as unchanged.
pub proof fn lemma_upsert(table: Table, key: Seq<char>, path: Seq<char>)
    requires
        distinct_keys(table),
    ensures
        distinct_keys(upsert(table, key, path)),
        lookup(upsert(table, key, path), key) == Some(path),
        forall|other: Seq<char>|
            other != key ==> lookup(upsert(table, key, path), other) == lookup(table, other),
{
    let after = upsert(table, key, path);
    lemma_position(table, key);
    match position(table, key) {
        Some(i) => {
            assert forall|other: Seq<char>| position(after, other) == position(
                table,
                other,
            ) by {
                lemma_position_by_keys(after, table, other);
            }
            assert forall|other: Seq<char>| other != key implies lookup(after, other) == lookup(
                table,
                other,
            ) by {
                lemma_position(table, other);
            }
        },
        None => {
            assert(after.drop_last() == table);
            assert forall|other: Seq<char>| other != key implies lookup(after, other) == lookup(
                table,
                other,
            ) by {
                lemma_position(table, other);
            }
        },
    }
}

/// Setting a key never takes a row away: a table that has rows keeps them,
/// and a table that was set once is never empty again.
pub proof fn lemma_upsert_keeps_rows(table: Table, key: Seq<char>, path: Seq<char>)
    ensures
        upsert(table, key, path).len() >= table.len(),
        upsert(table, key, path).len() >= 1,
{
    lemma_position(table, key);
}

/// Setting a key twice is as good as setting it once to the later path;
/// in particular, setting it again to the same path changes nothing.
pub proof fn lemma_last_write_wins(
    table: Table,
    key: Seq<char>,
    first: Seq<char>,
    second: Seq<char>,
)
    ensures
        upsert(upsert(table, key, first), key, second) == upsert(table, key, second),
{
    let once = upsert(table, key, first);
    lemma_position(table, key);
    lemma_position(once, key);
    match position(table, key) {
        Some(i) => {
            lemma_position_by_keys(once, table, key);
            assert(once.update(i, (key, second)) =~= table.update(i, (key, second)));
        },
        None => {
            assert(once.drop_last() == table);
            assert(once.update(table.len() as int, (key, second)) =~= table.push((key, second)));
        },
    }
}

} // verus!
