//! The table that a first run starts from.

use crate::error::{Error, ErrorView};
use crate::mapping::{
    distinct_keys, lemma_lookup_row, lookup, rows, AppState, PathMapping, Table,
};
use crate::text::{join, join_path};
use vstd::prelude::*;

verus! {

/// The rows that send each key of `keys` to the directory `dir`.
pub open spec fn group(keys: Seq<Seq<char>>, dir: Seq<char>) -> Table {
    keys.map_values(|key: Seq<char>| (key, dir))
}

pub open spec fn document_keys() -> Seq<Seq<char>> {
    seq![".pdf"@, ".docx"@, ".doc"@, ".txt"@, ".odt"@, ".rtf"@]
}

pub open spec fn spreadsheet_keys() -> Seq<Seq<char>> {
    seq![".xls"@, ".xlsx"@, ".csv"@, ".ods"@]
}

pub open spec fn presentation_keys() -> Seq<Seq<char>> {
    seq![".pptx"@, ".odp"@, ".key"@]
}

pub open spec fn image_keys() -> Seq<Seq<char>> {
    seq![".jpg"@, ".jpeg"@, ".png"@, ".gif"@, ".bmp"@, ".webp"@, ".tiff"@]
}

pub open spec fn video_keys() -> Seq<Seq<char>> {
    seq![".mp4"@, ".mkv"@, ".avi"@, ".mov"@, ".webm"@, ".flv"@, ".wmv"@]
}

pub open spec fn audio_keys() -> Seq<Seq<char>> {
    seq![".mp3"@, ".wav"@, ".aac"@, ".ogg"@, ".flac"@]
}

pub open spec fn archive_keys() -> Seq<Seq<char>> {
    seq![".zip"@, ".rar"@, ".7z"@, ".tar"@, ".gz"@, ".tar.gz"@]
}

pub open spec fn executable_keys() -> Seq<Seq<char>> {
    seq![".exe"@, ".msi"@, ".sh"@, ".bat"@, ".AppImage"@]
}

pub open spec fn code_keys() -> Seq<Seq<char>> {
    seq![".js"@, ".py"@, ".rs"@, ".cpp"@, ".java"@, ".html"@, ".css"@, ".json"@, ".ts"@]
}

pub open spec fn folder_keys() -> Seq<Seq<char>> {
    seq!["folder"@]
}

/// The table of a first run: every known key, group by group, each group
/// sent to the directory of its name under `Sorted` on the desktop.
pub open spec fn default_table(desktop: Seq<char>) -> Table {
    let base = join_path(desktop, "Sorted"@);
    group(document_keys(), join_path(base, "Documents"@)) + group(
        spreadsheet_keys(),
        join_path(base, "Spreadsheets"@),
    ) + group(presentation_keys(), join_path(base, "Presentations"@)) + group(
        image_keys(),
        join_path(base, "Images"@),
    ) + group(video_keys(), join_path(base, "Videos"@)) + group(
        audio_keys(),
        join_path(base, "Audio"@),
    ) + group(archive_keys(), join_path(base, "Archives"@)) + group(
        executable_keys(),
        join_path(base, "Executables"@),
    ) + group(code_keys(), join_path(base, "Code"@)) + group(
        folder_keys(),
        join_path(base, "Folders"@),
    )
}

/// The texts of a list of string slices.
pub open spec fn texts(keys: Seq<&'static str>) -> Seq<Seq<char>> {
    keys.map_values(|key: &'static str| key@)
}

fn add_group(table: &mut Vec<PathMapping>, keys: Vec<&'static str>, base: &str, folder: &str)
    ensures
        rows(final(table)@) == rows(old(table)@) + group(
            texts(keys@),
            join_path(base@, folder@),
        ),
{
    let dir = join(base, folder);
    let ghost before = rows(table@);
    let mut index: usize = 0;
    while index < keys.len()
        invariant
            index <= keys.len(),
            dir@ == join_path(base@, folder@),
            rows(table@) == before + group(texts(keys@), dir@).take(index as int),
        decreases keys.len() - index,
    {
        let row = PathMapping { extension: keys[index].to_owned(), target_path: dir.clone() };
        let ghost filled = rows(table@);
        table.push(row);
        index = index + 1;
        proof {
            let all = group(texts(keys@), dir@);
            assert(row@ == all[index - 1]);
            assert(rows(table@) =~= filled.push(row@));
            assert(all.take(index as int) =~= all.take(index - 1).push(all[index - 1]));
            assert(rows(table@) =~= before + all.take(index as int));
        }
    }
    assert(group(texts(keys@), dir@).take(index as int) == group(texts(keys@), dir@));
}

/// Builds the table of a first run for the given desktop directory.
pub fn default_mappings(desktop: &str) -> (table: Vec<PathMapping>)
    ensures
        rows(table@) == default_table(desktop@),
{
    let base = join(desktop, "Sorted");
    let mut table: Vec<PathMapping> = Vec::new();
    assert(rows(table@) =~= Seq::empty());
    let keys = vec![".pdf", ".docx", ".doc", ".txt", ".odt", ".rtf"];
    assert(texts(keys@) =~= document_keys());
    add_group(&mut table, keys, base.as_str(), "Documents");
    let keys = vec![".xls", ".xlsx", ".csv", ".ods"];
    assert(texts(keys@) =~= spreadsheet_keys());
    add_group(&mut table, keys, base.as_str(), "Spreadsheets");
    let keys = vec![".pptx", ".odp", ".key"];
    assert(texts(keys@) =~= presentation_keys());
    add_group(&mut table, keys, base.as_str(), "Presentations");
    let keys = vec![".jpg", ".jpeg", ".png", ".gif", ".bmp", ".webp", ".tiff"];
    assert(texts(keys@) =~= image_keys());
    add_group(&mut table, keys, base.as_str(), "Images");
    let keys = vec![".mp4", ".mkv", ".avi", ".mov", ".webm", ".flv", ".wmv"];
    assert(texts(keys@) =~= video_keys());
    add_group(&mut table, keys, base.as_str(), "Videos");
    let keys = vec![".mp3", ".wav", ".aac", ".ogg", ".flac"];
    assert(texts(keys@) =~= audio_keys());
    add_group(&mut table, keys, base.as_str(), "Audio");
    let keys = vec![".zip", ".rar", ".7z", ".tar", ".gz", ".tar.gz"];
    assert(texts(keys@) =~= archive_keys());
    add_group(&mut table, keys, base.as_str(), "Archives");
    let keys = vec![".exe", ".msi", ".sh", ".bat", ".AppImage"];
    assert(texts(keys@) =~= executable_keys());
    add_group(&mut table, keys, base.as_str(), "Executables");
    let keys = vec![".js", ".py", ".rs", ".cpp", ".java", ".html", ".css", ".json", ".ts"];
    assert(texts(keys@) =~= code_keys());
    add_group(&mut table, keys, base.as_str(), "Code");
    let keys = vec!["folder"];
    assert(texts(keys@) =~= folder_keys());
    add_group(&mut table, keys, base.as_str(), "Folders");
    assert(rows(table@) =~= default_table(desktop@));
    table
}

/// Every key of the first-run table, in the order of its rows.
pub open spec fn default_keys() -> Seq<Seq<char>> {
    document_keys() + spreadsheet_keys() + presentation_keys() + image_keys() + video_keys()
        + audio_keys() + archive_keys() + executable_keys() + code_keys() + folder_keys()
}

/// No key occurs twice among the keys of the first-run table.
pub proof fn lemma_default_keys_distinct()
    ensures
        default_keys().len() == 53,
        forall|i: int, j: int| 0 <= i < j < 53 ==> default_keys()[i] != default_keys()[j],
{
    reveal_strlit(".pdf");
    reveal_strlit(".docx");
    reveal_strlit(".doc");
    reveal_strlit(".txt");
    reveal_strlit(".odt");
    reveal_strlit(".rtf");
    reveal_strlit(".xls");
    reveal_strlit(".xlsx");
    reveal_strlit(".csv");
    reveal_strlit(".ods");
    reveal_strlit(".pptx");
    reveal_strlit(".odp");
    reveal_strlit(".key");
    reveal_strlit(".jpg");
    reveal_strlit(".jpeg");
    reveal_strlit(".png");
    reveal_strlit(".gif");
    reveal_strlit(".bmp");
    reveal_strlit(".webp");
    reveal_strlit(".tiff");
    reveal_strlit(".mp4");
    reveal_strlit(".mkv");
    reveal_strlit(".avi");
    reveal_strlit(".mov");
    reveal_strlit(".webm");
    reveal_strlit(".flv");
    reveal_strlit(".wmv");
    reveal_strlit(".mp3");
    reveal_strlit(".wav");
    reveal_strlit(".aac");
    reveal_strlit(".ogg");
    reveal_strlit(".flac");
    reveal_strlit(".zip");
    reveal_strlit(".rar");
    reveal_strlit(".7z");
    reveal_strlit(".tar");
    reveal_strlit(".gz");
    reveal_strlit(".tar.gz");
    reveal_strlit(".exe");
    reveal_strlit(".msi");
    reveal_strlit(".sh");
    reveal_strlit(".bat");
    reveal_strlit(".AppImage");
    reveal_strlit(".js");
    reveal_strlit(".py");
    reveal_strlit(".rs");
    reveal_strlit(".cpp");
    reveal_strlit(".java");
    reveal_strlit(".html");
    reveal_strlit(".css");
    reveal_strlit(".json");
    reveal_strlit(".ts");
    reveal_strlit("folder");
    assert(".pdf"@ =~= seq!['.', 'p', 'd', 'f']);
    assert(".docx"@ =~= seq!['.', 'd', 'o', 'c', 'x']);
    assert(".doc"@ =~= seq!['.', 'd', 'o', 'c']);
    assert(".txt"@ =~= seq!['.', 't', 'x', 't']);
    assert(".odt"@ =~= seq!['.', 'o', 'd', 't']);
    assert(".rtf"@ =~= seq!['.', 'r', 't', 'f']);
    assert(".xls"@ =~= seq!['.', 'x', 'l', 's']);
    assert(".xlsx"@ =~= seq!['.', 'x', 'l', 's', 'x']);
    assert(".csv"@ =~= seq!['.', 'c', 's', 'v']);
    assert(".ods"@ =~= seq!['.', 'o', 'd', 's']);
    assert(".pptx"@ =~= seq!['.', 'p', 'p', 't', 'x']);
    assert(".odp"@ =~= seq!['.', 'o', 'd', 'p']);
    assert(".key"@ =~= seq!['.', 'k', 'e', 'y']);
    assert(".jpg"@ =~= seq!['.', 'j', 'p', 'g']);
    assert(".jpeg"@ =~= seq!['.', 'j', 'p', 'e', 'g']);
    assert(".png"@ =~= seq!['.', 'p', 'n', 'g']);
    assert(".gif"@ =~= seq!['.', 'g', 'i', 'f']);
    assert(".bmp"@ =~= seq!['.', 'b', 'm', 'p']);
    assert(".webp"@ =~= seq!['.', 'w', 'e', 'b', 'p']);
    assert(".tiff"@ =~= seq!['.', 't', 'i', 'f', 'f']);
    assert(".mp4"@ =~= seq!['.', 'm', 'p', '4']);
    assert(".mkv"@ =~= seq!['.', 'm', 'k', 'v']);
    assert(".avi"@ =~= seq!['.', 'a', 'v', 'i']);
    assert(".mov"@ =~= seq!['.', 'm', 'o', 'v']);
    assert(".webm"@ =~= seq!['.', 'w', 'e', 'b', 'm']);
    assert(".flv"@ =~= seq!['.', 'f', 'l', 'v']);
    assert(".wmv"@ =~= seq!['.', 'w', 'm', 'v']);
    assert(".mp3"@ =~= seq!['.', 'm', 'p', '3']);
    assert(".wav"@ =~= seq!['.', 'w', 'a', 'v']);
    assert(".aac"@ =~= seq!['.', 'a', 'a', 'c']);
    assert(".ogg"@ =~= seq!['.', 'o', 'g', 'g']);
    assert(".flac"@ =~= seq!['.', 'f', 'l', 'a', 'c']);
    assert(".zip"@ =~= seq!['.', 'z', 'i', 'p']);
    assert(".rar"@ =~= seq!['.', 'r', 'a', 'r']);
    assert(".7z"@ =~= seq!['.', '7', 'z']);
    assert(".tar"@ =~= seq!['.', 't', 'a', 'r']);
    assert(".gz"@ =~= seq!['.', 'g', 'z']);
    assert(".tar.gz"@ =~= seq!['.', 't', 'a', 'r', '.', 'g', 'z']);
    assert(".exe"@ =~= seq!['.', 'e', 'x', 'e']);
    assert(".msi"@ =~= seq!['.', 'm', 's', 'i']);
    assert(".sh"@ =~= seq!['.', 's', 'h']);
    assert(".bat"@ =~= seq!['.', 'b', 'a', 't']);
    assert(".AppImage"@ =~= seq!['.', 'A', 'p', 'p', 'I', 'm', 'a', 'g', 'e']);
    assert(".js"@ =~= seq!['.', 'j', 's']);
    assert(".py"@ =~= seq!['.', 'p', 'y']);
    assert(".rs"@ =~= seq!['.', 'r', 's']);
    assert(".cpp"@ =~= seq!['.', 'c', 'p', 'p']);
    assert(".java"@ =~= seq!['.', 'j', 'a', 'v', 'a']);
    assert(".html"@ =~= seq!['.', 'h', 't', 'm', 'l']);
    assert(".css"@ =~= seq!['.', 'c', 's', 's']);
    assert(".json"@ =~= seq!['.', 'j', 's', 'o', 'n']);
    assert(".ts"@ =~= seq!['.', 't', 's']);
    assert("folder"@ =~= seq!['f', 'o', 'l', 'd', 'e', 'r']);
}

/// The first-run table holds the keys of `default_keys`, row for row, so
/// none of its keys occurs twice.
pub proof fn lemma_default_table(desktop: Seq<char>)
    ensures
        default_table(desktop).len() == 53,
        forall|i: int| 0 <= i < 53 ==> (#[trigger] default_table(desktop)[i]).0 == default_keys()[i],
        distinct_keys(default_table(desktop)),
{
    lemma_default_keys_distinct();
    let table = default_table(desktop);
    assert(table.len() == 53);
    assert forall|i: int| 0 <= i < 53 implies (#[trigger] table[i]).0 == default_keys()[i] by {
    }
}

/// In the first-run table every key reads as the directory of its own row,
/// spelt as it is listed.
pub proof fn lemma_default_lookup(desktop: Seq<char>, i: int)
    requires
        0 <= i < 53,
    ensures
        lookup(default_table(desktop), default_keys()[i]) == Some(default_table(desktop)[i].1),
{
    lemma_default_table(desktop);
    lemma_lookup_row(default_table(desktop), i);
}

/// Seeds an empty table with the rows of a first run; a table that has rows
/// is left as it is. Seeding needs the desktop directory, and fails without
/// touching the table where the platform names none.
pub fn init_db(state: &mut AppState, desktop: Option<&str>) -> (result: Result<(), Error>)
    ensures
        old(state)@.len() > 0 ==> result is Ok && final(state)@ == old(state)@,
        old(state)@.len() == 0 ==> match desktop {
            Some(dir) => result is Ok && final(state)@ == default_table(dir@),
            None => result is Err && result->Err_0@ == ErrorView::DesktopNotFound && final(state)@
                == old(state)@,
        },
{
    if !state.is_empty() {
        return Ok(());
    }
    match desktop {
        Some(dir) => {
            let table = default_mappings(dir);
            proof {
                lemma_default_table(dir@);
            }
            state.install(table);
            Ok(())
        },
        None => Err(Error::DesktopNotFound),
    }
}

} // verus!
