use oxide::listing::{comes_before, plan_directory, DirEntry, EntryKind};
use oxide::stats::{FileOutcome, RunStats};
use oxide::walk::{Task, Walk};

fn entry(id: usize, name: &str, kind: EntryKind) -> DirEntry {
    DirEntry { id, name: name.as_bytes().to_vec(), kind }
}

#[test]
fn names_are_compared_byte_by_byte() {
    for (first, second) in [("a", "b"), ("a", "aa"), ("", "a"), ("B", "a"), ("z", "\u{e9}")] {
        assert!(comes_before(&first.as_bytes().to_vec(), &second.as_bytes().to_vec()));
        assert!(!comes_before(&second.as_bytes().to_vec(), &first.as_bytes().to_vec()));
    }
    assert!(!comes_before(&b"a".to_vec(), &b"a".to_vec()));
}

#[test]
fn plan_sorts_audio_files_and_directories() {
    let entries = vec![
        entry(1, "b.mp3", EntryKind::File),
        entry(2, "zoo", EntryKind::Directory),
        entry(3, "notes.txt", EntryKind::File),
        entry(4, "B.mp3", EntryKind::File),
        entry(5, "link.mp3", EntryKind::Other),
        entry(6, "ant", EntryKind::Directory),
        entry(7, "a.FLAC", EntryKind::File),
        entry(8, "dir.mp3", EntryKind::Directory),
    ];
    let plan = plan_directory(&entries);
    assert_eq!(plan.files, vec![4, 7, 1]);
    assert_eq!(plan.subdirs, vec![6, 8, 2]);
}

#[test]
fn plan_keeps_equal_names_in_order() {
    let entries = vec![
        entry(9, "x.wav", EntryKind::File),
        entry(3, "x.wav", EntryKind::File),
        entry(7, "a.wav", EntryKind::File),
        entry(1, "x.wav", EntryKind::File),
    ];
    assert_eq!(plan_directory(&entries).files, vec![7, 9, 3, 1]);
    assert_eq!(plan_directory(&Vec::new()).files, Vec::<usize>::new());
}

#[test]
fn plan_orders_many_names_as_a_sort_does() {
    let mut state: u32 = 1;
    let mut names: Vec<(String, usize)> = Vec::new();
    for id in 0..200 {
        state = state.wrapping_mul(1_103_515_245).wrapping_add(12_345);
        names.push((format!("{:x}.ogg", state >> 20), id));
    }
    let entries: Vec<DirEntry> =
        names.iter().map(|(name, id)| entry(*id, name, EntryKind::File)).collect();
    names.sort();
    let expected: Vec<usize> = names.iter().map(|(_, id)| *id).collect();
    assert_eq!(plan_directory(&entries).files, expected);
}

#[test]
fn files_come_before_subdirectories() {
    let mut walk = Walk::start(0);
    let mut order = Vec::new();
    while let Some(task) = walk.next() {
        match task {
            Task::Directory(0) => walk.enter(&vec![
                entry(1, "sub_b", EntryKind::Directory),
                entry(2, "b.mp3", EntryKind::File),
                entry(3, "sub_a", EntryKind::Directory),
                entry(4, "a.mp3", EntryKind::File),
            ]),
            Task::Directory(1) => walk.enter(&vec![entry(5, "c.mp3", EntryKind::File)]),
            Task::Directory(3) => walk.enter(&vec![
                entry(6, "deep", EntryKind::Directory),
                entry(7, "d.mp3", EntryKind::File),
            ]),
            Task::Directory(_) => walk.enter(&Vec::new()),
            Task::File(id) => {
                order.push(id);
                assert!(walk.has_room());
                walk.file_done(if id == 7 { FileOutcome::Failed } else { FileOutcome::Tagged });
            }
        }
    }
    assert_eq!(order, vec![4, 2, 7, 5]);
    assert_eq!(
        walk.stats(),
        RunStats {
            audio_seen: 4,
            skipped_already_tagged: 0,
            attempted: 4,
            tagged_ok: 3,
            errors: 1,
        }
    );
    assert!(walk.next().is_none());
}

#[test]
fn order_of_the_listing_does_not_matter() {
    let names = ["c.mp3", "a", "b.mp3", "a.mp3", "c", "b"];
    let listed = |order: &[usize]| -> Vec<DirEntry> {
        order
            .iter()
            .map(|&id| {
                let kind = if names[id].ends_with(".mp3") {
                    EntryKind::File
                } else {
                    EntryKind::Directory
                };
                entry(id, names[id], kind)
            })
            .collect()
    };
    for order in [[0, 1, 2, 3, 4, 5], [5, 4, 3, 2, 1, 0], [2, 5, 0, 3, 1, 4]] {
        let plan = plan_directory(&listed(&order));
        assert_eq!(plan.files, vec![3, 2, 0]);
        assert_eq!(plan.subdirs, vec![1, 5, 4]);
    }
}

/// Walks through a small tree of four directories and returns the counts.
fn counts_below(root: usize) -> RunStats {
    let mut walk = Walk::start(root);
    while let Some(task) = walk.next() {
        match task {
            Task::Directory(0) => walk.enter(&vec![
                entry(1, "one", EntryKind::Directory),
                entry(2, "two", EntryKind::Directory),
                entry(10, "a.mp3", EntryKind::File),
                entry(11, "b.mp3", EntryKind::File),
            ]),
            Task::Directory(1) => walk.enter(&vec![
                entry(3, "three", EntryKind::Directory),
                entry(12, "c.mp3", EntryKind::File),
            ]),
            Task::Directory(2) => walk.enter(&vec![entry(13, "d.mp3", EntryKind::File)]),
            Task::Directory(_) => walk.enter(&vec![
                entry(14, "e.mp3", EntryKind::File),
                entry(15, "f.mp3", EntryKind::File),
            ]),
            Task::File(id) => walk.file_done(match id % 3 {
                0 => FileOutcome::Skipped,
                1 => FileOutcome::Tagged,
                _ => FileOutcome::Failed,
            }),
        }
    }
    walk.stats()
}

#[test]
fn directory_counts_its_files_and_its_subdirectories() {
    let own = RunStats::of(FileOutcome::Tagged).merge(RunStats::of(FileOutcome::Failed));
    let whole = counts_below(0);
    assert_eq!(whole, own.merge(counts_below(1)).merge(counts_below(2)));
    assert_eq!(
        whole,
        RunStats {
            audio_seen: 6,
            skipped_already_tagged: 2,
            attempted: 4,
            tagged_ok: 2,
            errors: 2,
        }
    );
}
