use desksort::classify::{Entry, EntryKind};
use desksort::defaults::init_db;
use desksort::engine::{Action, Event, MoveOutcome, SortEngine};
use desksort::error::Error;
use desksort::mapping::{set_path_mapping, AppState};
use desksort::plan::{plan_entry, plan_listing, Job};
use desksort::report::{summarize, SortResult};
use desksort::scan::scan_and_sort;

const DESKTOP: &str = "/home/u/Desktop";

fn seeded() -> AppState {
    let mut state = AppState::new();
    assert_eq!(init_db(&mut state, Some(DESKTOP)), Ok(()));
    state
}

fn file(name: &str) -> Entry {
    Entry { path: format!("{}/{}", DESKTOP, name), name: name.to_string(), kind: EntryKind::File }
}

fn dir(name: &str) -> Entry {
    Entry {
        path: format!("{}/{}", DESKTOP, name),
        name: name.to_string(),
        kind: EntryKind::Directory,
    }
}

fn start(state: &AppState, listing: Vec<Entry>) -> SortEngine {
    start_listed(state, listing.into_iter().map(Ok).collect())
}

fn start_listed(state: &AppState, listing: Vec<Result<Entry, String>>) -> SortEngine {
    match scan_and_sort(state, Some(DESKTOP.to_string()), Some(listing)) {
        Ok(engine) => engine,
        Err(error) => panic!("scan did not start: {:?}", error),
    }
}

/// A file system that holds `existing` paths, cannot create the
/// directories of `unwritable`, and cannot move the sources of `stuck`.
struct Disk {
    existing: Vec<String>,
    unwritable: Vec<String>,
    stuck: Vec<String>,
    actions: Vec<Action>,
}

fn disk(existing: &[&str], unwritable: &[&str], stuck: &[&str]) -> Disk {
    Disk {
        existing: existing.iter().map(|p| p.to_string()).collect(),
        unwritable: unwritable.iter().map(|p| p.to_string()).collect(),
        stuck: stuck.iter().map(|p| p.to_string()).collect(),
        actions: Vec::new(),
    }
}

fn perform(disk: &mut Disk, action: &Action) -> Event {
    match action {
        Action::CreateDir { path } => {
            if disk.unwritable.contains(path) {
                Event::DirectoryFailed("permission denied".to_string())
            } else {
                Event::DirectoryReady
            }
        }
        Action::Probe { path } => {
            if disk.existing.contains(path) {
                Event::PathTaken
            } else {
                Event::PathFree
            }
        }
        Action::Move { source, destination } => {
            if disk.stuck.contains(source) {
                Event::MoveFailed("permission denied".to_string())
            } else {
                disk.existing.push(destination.clone());
                Event::Moved
            }
        }
        Action::Done => unreachable!(),
    }
}

fn run(engine: SortEngine, disk: &mut Disk) -> SortEngine {
    let mut engine = engine;
    let mut action = engine.action();
    let mut steps = 0;
    while action != Action::Done {
        assert!(steps < 10_000);
        let event = perform(disk, &action);
        disk.actions.push(action);
        let next = engine.step(event);
        engine = next.0;
        action = next.1;
        steps += 1;
    }
    assert!(engine.is_done());
    engine
}

#[test]
fn scan_without_a_desktop_fails() {
    let state = seeded();
    let result = scan_and_sort(&state, None, Some(vec![Ok(file("a.pdf"))]));
    assert_eq!(result.err(), Some(Error::DesktopNotFound));
    let result = scan_and_sort(&state, None, None);
    assert_eq!(result.err(), Some(Error::DesktopNotFound));
}

#[test]
fn scan_of_a_missing_directory_fails() {
    let state = seeded();
    let result = scan_and_sort(&state, Some(DESKTOP.to_string()), None);
    assert_eq!(result.err(), Some(Error::DirectoryNotFound(DESKTOP.to_string())));
}

#[test]
fn empty_directory_gives_an_empty_report() {
    let state = seeded();
    let engine = start(&state, Vec::new());
    assert!(engine.is_done());
    assert_eq!(engine.action(), Action::Done);
    assert_eq!(engine.finish(), SortResult { moved_files: Vec::new(), errors: Vec::new() });
}

#[test]
fn a_file_is_moved_to_the_directory_of_its_group() {
    let state = seeded();
    let mut fs = disk(&[], &[], &[]);
    let engine = run(start(&state, vec![file("report.pdf")]), &mut fs);
    assert_eq!(
        fs.actions,
        vec![
            Action::CreateDir { path: "/home/u/Desktop/Sorted/Documents".to_string() },
            Action::Probe { path: "/home/u/Desktop/Sorted/Documents/report.pdf".to_string() },
            Action::Move {
                source: "/home/u/Desktop/report.pdf".to_string(),
                destination: "/home/u/Desktop/Sorted/Documents/report.pdf".to_string(),
            },
        ]
    );
    assert_eq!(
        engine.report(),
        &vec![MoveOutcome::Moved {
            source: "/home/u/Desktop/report.pdf".to_string(),
            destination: "/home/u/Desktop/Sorted/Documents/report.pdf".to_string(),
        }]
    );
    let result = engine.finish();
    assert_eq!(
        result.moved_files,
        vec!["Moved /home/u/Desktop/report.pdf to /home/u/Desktop/Sorted/Documents/report.pdf"]
    );
    assert!(result.errors.is_empty());
}

#[test]
fn a_taken_name_gets_the_next_counter() {
    let state = seeded();
    let mut fs = disk(&["/home/u/Desktop/Sorted/Images/photo.jpg"], &[], &[]);
    let engine = run(start(&state, vec![file("photo.jpg")]), &mut fs);
    assert_eq!(
        engine.report(),
        &vec![MoveOutcome::Moved {
            source: "/home/u/Desktop/photo.jpg".to_string(),
            destination: "/home/u/Desktop/Sorted/Images/photo_1.jpg".to_string(),
        }]
    );
    let engine = run(start(&state, vec![file("photo.jpg")]), &mut fs);
    assert_eq!(
        engine.report(),
        &vec![MoveOutcome::Moved {
            source: "/home/u/Desktop/photo.jpg".to_string(),
            destination: "/home/u/Desktop/Sorted/Images/photo_2.jpg".to_string(),
        }]
    );
    let engine = run(start(&state, vec![file("photo.jpg")]), &mut fs);
    assert_eq!(
        engine.finish().moved_files,
        vec!["Moved /home/u/Desktop/photo.jpg to /home/u/Desktop/Sorted/Images/photo_3.jpg"]
    );
}

#[test]
fn probes_go_through_the_counters_in_order() {
    let state = seeded();
    let mut fs = disk(
        &[
            "/home/u/Desktop/Sorted/Images/photo.jpg",
            "/home/u/Desktop/Sorted/Images/photo_1.jpg",
            "/home/u/Desktop/Sorted/Images/photo_3.jpg",
        ],
        &[],
        &[],
    );
    run(start(&state, vec![file("photo.jpg")]), &mut fs);
    assert_eq!(
        fs.actions,
        vec![
            Action::CreateDir { path: "/home/u/Desktop/Sorted/Images".to_string() },
            Action::Probe { path: "/home/u/Desktop/Sorted/Images/photo.jpg".to_string() },
            Action::Probe { path: "/home/u/Desktop/Sorted/Images/photo_1.jpg".to_string() },
            Action::Probe { path: "/home/u/Desktop/Sorted/Images/photo_2.jpg".to_string() },
            Action::Move {
                source: "/home/u/Desktop/photo.jpg".to_string(),
                destination: "/home/u/Desktop/Sorted/Images/photo_2.jpg".to_string(),
            },
        ]
    );
}

#[test]
fn the_counter_starts_anew_for_each_entry() {
    let state = seeded();
    let mut fs = disk(&["/home/u/Desktop/Sorted/Images/a.png"], &[], &[]);
    let engine = run(start(&state, vec![file("a.png"), file("b.png")]), &mut fs);
    assert_eq!(
        engine.finish().moved_files,
        vec![
            "Moved /home/u/Desktop/a.png to /home/u/Desktop/Sorted/Images/a_1.png",
            "Moved /home/u/Desktop/b.png to /home/u/Desktop/Sorted/Images/b.png",
        ]
    );
}

#[test]
fn unclassified_files_are_left_alone() {
    let state = seeded();
    let mut fs = disk(&[], &[], &[]);
    let engine = run(start(&state, vec![file("notes"), file("archive.xyz")]), &mut fs);
    assert!(fs.actions.is_empty());
    assert!(engine.report().is_empty());
    assert_eq!(engine.finish(), SortResult { moved_files: Vec::new(), errors: Vec::new() });
}

#[test]
fn a_directory_is_moved_as_one_unit() {
    let state = seeded();
    let mut fs = disk(&[], &[], &[]);
    let engine = run(start(&state, vec![dir("Photos2023")]), &mut fs);
    assert_eq!(
        fs.actions,
        vec![
            Action::CreateDir { path: "/home/u/Desktop/Sorted/Folders".to_string() },
            Action::Probe { path: "/home/u/Desktop/Sorted/Folders/Photos2023".to_string() },
            Action::Move {
                source: "/home/u/Desktop/Photos2023".to_string(),
                destination: "/home/u/Desktop/Sorted/Folders/Photos2023".to_string(),
            },
        ]
    );
    assert_eq!(
        engine.finish().moved_files,
        vec!["Moved /home/u/Desktop/Photos2023 to /home/u/Desktop/Sorted/Folders/Photos2023"]
    );
}

#[test]
fn a_directory_named_like_a_file_is_still_a_folder() {
    let state = seeded();
    let job = plan_entry(&state, &dir("holiday.jpg"));
    assert_eq!(
        job,
        Some(Job {
            source: "/home/u/Desktop/holiday.jpg".to_string(),
            dest_dir: "/home/u/Desktop/Sorted/Folders".to_string(),
            name: "holiday.jpg".to_string(),
        })
    );
}

#[test]
fn hidden_entries_are_never_touched() {
    let state = seeded();
    let mut fs = disk(&[], &[], &[]);
    let listing = vec![file(".DS_Store"), file(".gitignore"), dir(".cache"), file(".hidden.pdf")];
    let engine = run(start(&state, listing), &mut fs);
    assert!(fs.actions.is_empty());
    assert_eq!(engine.finish(), SortResult { moved_files: Vec::new(), errors: Vec::new() });
    assert_eq!(plan_entry(&state, &file(".DS_Store")), None);
    assert_eq!(plan_entry(&state, &file(".gitignore")), None);
}

#[test]
fn one_failure_does_not_stop_the_batch() {
    let state = seeded();
    let mut fs = disk(&[], &["/home/u/Desktop/Sorted/Documents"], &[]);
    let listing = vec![file("a.pdf"), file("b.jpg"), file("c.mp3")];
    let engine = run(start(&state, listing), &mut fs);
    assert_eq!(
        engine.report(),
        &vec![
            MoveOutcome::Failed {
                source: "/home/u/Desktop/a.pdf".to_string(),
                reason: Error::DirectoryCreateFailed {
                    path: "/home/u/Desktop/Sorted/Documents".to_string(),
                    reason: "permission denied".to_string(),
                },
            },
            MoveOutcome::Moved {
                source: "/home/u/Desktop/b.jpg".to_string(),
                destination: "/home/u/Desktop/Sorted/Images/b.jpg".to_string(),
            },
            MoveOutcome::Moved {
                source: "/home/u/Desktop/c.mp3".to_string(),
                destination: "/home/u/Desktop/Sorted/Audio/c.mp3".to_string(),
            },
        ]
    );
    assert!(fs.existing.contains(&"/home/u/Desktop/Sorted/Images/b.jpg".to_string()));
    assert!(fs.existing.contains(&"/home/u/Desktop/Sorted/Audio/c.mp3".to_string()));
    let result = engine.finish();
    assert_eq!(result.errors, vec!["Failed to create target directory: /home/u/Desktop/Sorted/Documents"]);
    assert_eq!(
        result.moved_files,
        vec![
            "Moved /home/u/Desktop/b.jpg to /home/u/Desktop/Sorted/Images/b.jpg",
            "Moved /home/u/Desktop/c.mp3 to /home/u/Desktop/Sorted/Audio/c.mp3",
        ]
    );
}

#[test]
fn a_failed_move_is_reported_with_its_reason() {
    let state = seeded();
    let mut fs = disk(&[], &[], &["/home/u/Desktop/b.jpg"]);
    let listing = vec![file("a.pdf"), file("b.jpg"), file("c.mp3")];
    let result = run(start(&state, listing), &mut fs).finish();
    assert_eq!(result.errors, vec!["Failed to move /home/u/Desktop/b.jpg: permission denied"]);
    assert_eq!(result.moved_files.len(), 2);
}

#[test]
fn every_entry_may_fail() {
    let state = seeded();
    let mut fs = disk(&[], &[], &["/home/u/Desktop/a.pdf", "/home/u/Desktop/b.jpg"]);
    let result = run(start(&state, vec![file("a.pdf"), file("b.jpg")]), &mut fs).finish();
    assert!(result.moved_files.is_empty());
    assert_eq!(
        result.errors,
        vec![
            "Failed to move /home/u/Desktop/a.pdf: permission denied",
            "Failed to move /home/u/Desktop/b.jpg: permission denied",
        ]
    );
}

#[test]
fn a_second_scan_of_what_is_left_moves_nothing() {
    let state = seeded();
    let mut fs = disk(&[], &[], &[]);
    let first = vec![file("a.pdf"), file("notes"), file(".DS_Store"), dir("Old"), file("b.xyz")];
    let result = run(start(&state, first), &mut fs).finish();
    assert_eq!(result.moved_files.len(), 2);
    let left = vec![file("notes"), file(".DS_Store"), file("b.xyz")];
    let result = run(start(&state, left), &mut fs).finish();
    assert_eq!(result, SortResult { moved_files: Vec::new(), errors: Vec::new() });
    let with_new = vec![file("notes"), file(".DS_Store"), file("b.xyz"), file("new.csv")];
    let result = run(start(&state, with_new), &mut fs).finish();
    assert_eq!(
        result.moved_files,
        vec!["Moved /home/u/Desktop/new.csv to /home/u/Desktop/Sorted/Spreadsheets/new.csv"]
    );
}

#[test]
fn the_plan_keeps_the_order_of_the_listing() {
    let state = seeded();
    let listing =
        vec![Ok(file("z.mp4")), Ok(file("skip")), Ok(dir("Dir")), Ok(file(".x")), Ok(file("a.RS"))];
    let jobs: Vec<Job> = plan_listing(&state, listing).into_iter().map(Result::unwrap).collect();
    let sources: Vec<&str> = jobs.iter().map(|job| job.source.as_str()).collect();
    assert_eq!(
        sources,
        vec!["/home/u/Desktop/z.mp4", "/home/u/Desktop/Dir", "/home/u/Desktop/a.RS"]
    );
    assert_eq!(jobs[2].dest_dir, "/home/u/Desktop/Sorted/Code");
    assert_eq!(jobs[2].name, "a.RS");
}

#[test]
fn a_key_with_capitals_is_matched() {
    let state = seeded();
    let mut fs = disk(&[], &[], &[]);
    let engine = run(start(&state, vec![file("tool.AppImage")]), &mut fs);
    assert_eq!(
        engine.report(),
        &vec![MoveOutcome::Moved {
            source: "/home/u/Desktop/tool.AppImage".to_string(),
            destination: "/home/u/Desktop/Sorted/Executables/tool.AppImage".to_string(),
        }]
    );
    assert!(fs.existing.contains(&"/home/u/Desktop/Sorted/Executables/tool.AppImage".to_string()));
}

#[test]
fn extensions_match_keys_whatever_the_case() {
    let state = seeded();
    let executables = "/home/u/Desktop/Sorted/Executables";
    for name in ["tool.AppImage", "tool.appimage", "tool.APPIMAGE", "tool.aPPiMAGE"] {
        let job = plan_entry(&state, &file(name));
        assert_eq!(job.map(|job| job.dest_dir), Some(executables.to_string()));
    }
    let documents = "/home/u/Desktop/Sorted/Documents";
    for name in ["REPORT.PDF", "report.pdf", "Report.Pdf"] {
        let job = plan_entry(&state, &file(name));
        assert_eq!(job.map(|job| job.dest_dir), Some(documents.to_string()));
    }
}

#[test]
fn the_key_spelt_as_the_name_comes_first() {
    let mut state = AppState::new();
    set_path_mapping(".jpg".to_string(), "/lower".to_string(), &mut state);
    set_path_mapping(".JPG".to_string(), "/upper".to_string(), &mut state);
    let dest = |name: &str| plan_entry(&state, &file(name)).map(|job| job.dest_dir);
    assert_eq!(dest("a.jpg"), Some("/lower".to_string()));
    assert_eq!(dest("a.JPG"), Some("/upper".to_string()));
    assert_eq!(dest("a.Jpg"), Some("/lower".to_string()));
    assert_eq!(dest("a.png"), None);
}

#[test]
fn a_directory_is_not_matched_by_an_extension_key() {
    let mut state = AppState::new();
    set_path_mapping(".jpg".to_string(), "/images".to_string(), &mut state);
    set_path_mapping("FOLDER".to_string(), "/wrong".to_string(), &mut state);
    assert_eq!(plan_entry(&state, &dir("holiday.jpg")), None);
    set_path_mapping("folder".to_string(), "/folders".to_string(), &mut state);
    assert_eq!(
        plan_entry(&state, &dir("holiday.jpg")).map(|job| job.dest_dir),
        Some("/folders".to_string())
    );
}

#[test]
fn an_unmapped_category_is_skipped() {
    let mut state = AppState::new();
    set_path_mapping(".pdf".to_string(), "/docs".to_string(), &mut state);
    let mut fs = disk(&[], &[], &[]);
    let listing = vec![file("a.pdf"), file("b.jpg"), dir("Folder")];
    let result = run(start(&state, listing), &mut fs).finish();
    assert_eq!(result.moved_files, vec!["Moved /home/u/Desktop/a.pdf to /docs/a.pdf"]);
    assert!(result.errors.is_empty());
}

#[test]
fn an_answer_that_does_not_fit_is_ignored() {
    let state = seeded();
    let engine = start(&state, vec![file("a.pdf")]);
    let create = Action::CreateDir { path: "/home/u/Desktop/Sorted/Documents".to_string() };
    assert_eq!(engine.action(), create);
    let (engine, action) = engine.step(Event::Moved);
    assert_eq!(action, create);
    let (engine, action) = engine.step(Event::PathFree);
    assert_eq!(action, create);
    let (engine, action) = engine.step(Event::DirectoryReady);
    let probe = Action::Probe { path: "/home/u/Desktop/Sorted/Documents/a.pdf".to_string() };
    assert_eq!(action, probe);
    let (engine, action) = engine.step(Event::DirectoryReady);
    assert_eq!(action, probe);
    let (engine, action) = engine.step(Event::MoveFailed("x".to_string()));
    assert_eq!(action, probe);
    assert!(engine.report().is_empty());
    let (engine, action) = engine.step(Event::PathFree);
    let (engine, action_after) = engine.step(Event::PathTaken);
    assert_eq!(action, action_after);
    let (engine, action) = engine.step(Event::Moved);
    assert_eq!(action, Action::Done);
    let (engine, action) = engine.step(Event::Moved);
    assert_eq!(action, Action::Done);
    assert_eq!(engine.report().len(), 1);
}

#[test]
fn summary_keeps_both_lists_in_order() {
    let report = vec![
        MoveOutcome::Moved { source: "/d/a".to_string(), destination: "/s/a".to_string() },
        MoveOutcome::Failed {
            source: "/d/b".to_string(),
            reason: Error::MoveFailed { source: "/d/b".to_string(), reason: "busy".to_string() },
        },
        MoveOutcome::Moved { source: "/d/c".to_string(), destination: "/s/c_1".to_string() },
        MoveOutcome::Failed {
            source: "/d/d".to_string(),
            reason: Error::DirectoryCreateFailed {
                path: "/s/x".to_string(),
                reason: "denied".to_string(),
            },
        },
    ];
    let result = summarize(&report);
    assert_eq!(result.moved_files, vec!["Moved /d/a to /s/a", "Moved /d/c to /s/c_1"]);
    assert_eq!(
        result.errors,
        vec!["Failed to move /d/b: busy", "Failed to create target directory: /s/x"]
    );
}

#[test]
fn the_plan_keeps_unreadable_entries_in_their_place() {
    let state = seeded();
    let listing = vec![
        Err("first".to_string()),
        Ok(file("a.pdf")),
        Ok(file("notes")),
        Err("second".to_string()),
    ];
    let tasks = plan_listing(&state, listing);
    assert_eq!(tasks.len(), 3);
    assert_eq!(tasks[0], Err("first".to_string()));
    assert_eq!(tasks[1].as_ref().map(|job| job.source.as_str()), Ok("/home/u/Desktop/a.pdf"));
    assert_eq!(tasks[2], Err("second".to_string()));
}

#[test]
fn an_unreadable_entry_is_reported_and_the_batch_goes_on() {
    let state = seeded();
    let mut fs = disk(&[], &[], &["/home/u/Desktop/c.mp3"]);
    let listing = vec![
        Err("permission denied".to_string()),
        Ok(file("a.pdf")),
        Err("input/output error".to_string()),
        Err("stale handle".to_string()),
        Ok(file("c.mp3")),
        Ok(file("d.png")),
        Err("gone".to_string()),
    ];
    let engine = run(start_listed(&state, listing), &mut fs);
    let unread = |reason: &str| MoveOutcome::Failed {
        source: String::new(),
        reason: Error::EntryUnreadable(reason.to_string()),
    };
    assert_eq!(
        engine.report(),
        &vec![
            unread("permission denied"),
            MoveOutcome::Moved {
                source: "/home/u/Desktop/a.pdf".to_string(),
                destination: "/home/u/Desktop/Sorted/Documents/a.pdf".to_string(),
            },
            unread("input/output error"),
            unread("stale handle"),
            MoveOutcome::Failed {
                source: "/home/u/Desktop/c.mp3".to_string(),
                reason: Error::MoveFailed {
                    source: "/home/u/Desktop/c.mp3".to_string(),
                    reason: "permission denied".to_string(),
                },
            },
            MoveOutcome::Moved {
                source: "/home/u/Desktop/d.png".to_string(),
                destination: "/home/u/Desktop/Sorted/Images/d.png".to_string(),
            },
            unread("gone"),
        ]
    );
    let result = engine.finish();
    assert_eq!(result.moved_files.len(), 2);
    assert_eq!(
        result.errors,
        vec![
            "Failed to read entry: permission denied",
            "Failed to read entry: input/output error",
            "Failed to read entry: stale handle",
            "Failed to move /home/u/Desktop/c.mp3: permission denied",
            "Failed to read entry: gone",
        ]
    );
}

#[test]
fn a_listing_of_unreadable_entries_needs_no_action() {
    let state = seeded();
    let engine = start_listed(&state, vec![Err("a".to_string()), Err("b".to_string())]);
    assert!(engine.is_done());
    assert_eq!(engine.action(), Action::Done);
    let result = engine.finish();
    assert!(result.moved_files.is_empty());
    assert_eq!(result.errors, vec!["Failed to read entry: a", "Failed to read entry: b"]);
}
