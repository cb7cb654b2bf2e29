use itfs::{
    create_extension_filter, read_dir_recursive, AllowExtensionsExt, ComponentFilter,
    ComponentFilterOperationType, DirEntry, DirEvent, EntryToPath, ErrorCollector,
    FindDirsWithComponent, FsPath, Item, ItemSource, ReadDirRecursive, ResultFilter, Step,
    TraversalError, TraversalErrorKind, VecSource,
};

/// What a simulated directory listing reports for one entry.
#[derive(Clone)]
enum Found {
    File(&'static str),
    Dir(&'static str),
    BadMeta(&'static str, &'static str),
    ReadError(&'static str),
}

/// A directory tree held in memory: each directory with its listing, or with
/// the message its opening fails with.
struct Tree {
    dirs: Vec<(FsPath, Result<Vec<Found>, &'static str>)>,
}

impl Tree {
    fn open(&self, dir: &FsPath) -> Result<Vec<(FsPath, Found)>, String> {
        for (p, listing) in &self.dirs {
            if p == dir {
                return match listing {
                    Ok(found) => Ok(found
                        .iter()
                        .map(|f| {
                            let name = match f {
                                Found::File(n) | Found::Dir(n) | Found::BadMeta(n, _) => *n,
                                Found::ReadError(_) => "",
                            };
                            (dir.join(&FsPath::new(name)), f.clone())
                        })
                        .collect()),
                    Err(m) => Err(m.to_string()),
                };
            }
        }
        Err("No such file or directory".to_string())
    }
}

fn event_of(path: FsPath, found: Found) -> DirEvent {
    match found {
        Found::File(_) => DirEvent::File(DirEntry::new(path)),
        Found::Dir(_) => DirEvent::Directory(DirEntry::new(path)),
        Found::BadMeta(_, m) => DirEvent::MetadataFailed(DirEntry::new(path), m.to_string()),
        Found::ReadError(m) => DirEvent::ReadFailed(m.to_string()),
    }
}

/// Pulls every item out of a traversal of `tree` from `root`.
fn traverse(tree: &Tree, root: &str) -> (Vec<Result<DirEntry, TraversalError>>, ReadDirRecursive) {
    let root = FsPath::new(root);
    let listing = tree.open(&root);
    let opened = listing.as_ref().map(|_| ()).map_err(|e| e.clone());
    let mut engine = read_dir_recursive(root, opened).unwrap();
    let mut handle: Vec<(FsPath, Found)> = listing.unwrap();
    handle.reverse();
    let mut out = Vec::new();
    let mut event = None;
    let mut clock: u64 = 100;
    loop {
        engine.begin_pull(clock);
        clock += 1;
        let mut finished = false;
        loop {
            let ev = match event.take() {
                Some(ev) => ev,
                None => match handle.pop() {
                    Some((p, f)) => event_of(p, f),
                    None => DirEvent::Exhausted,
                },
            };
            match engine.step(ev) {
                Step::ReadNext => {}
                Step::Open(p) => match tree.open(&p) {
                    Ok(mut l) => {
                        l.reverse();
                        handle = l;
                        event = Some(DirEvent::Opened);
                    }
                    Err(m) => {
                        handle = Vec::new();
                        event = Some(DirEvent::OpenFailed(m));
                    }
                },
                Step::Yield(r) => {
                    out.push(r);
                    break;
                }
                Step::Finished => {
                    finished = true;
                    break;
                }
            }
        }
        if finished {
            return (out, engine);
        }
    }
}

fn sample_tree() -> Tree {
    Tree {
        dirs: vec![
            (
                FsPath::new("/r"),
                Ok(vec![Found::File("a.txt"), Found::File("b.md"), Found::Dir("sub")]),
            ),
            (FsPath::new("/r/sub"), Ok(vec![Found::File("c.md")])),
        ],
    }
}

fn entry_items(results: Vec<Result<DirEntry, TraversalError>>) -> Vec<Item> {
    results.into_iter().map(Item::EntryResult).collect()
}

fn drain<I: ItemSource>(mut source: I) -> Vec<Item> {
    let mut out = Vec::new();
    while let Some(i) = source.next_item() {
        out.push(i);
    }
    out
}

fn ok_entry(p: &str) -> Item {
    Item::EntryResult(Ok(DirEntry::new(FsPath::new(p))))
}

#[test]
fn full_traversal_of_sample_tree() {
    let (out, engine) = traverse(&sample_tree(), "/r");
    let paths: Vec<FsPath> = out.into_iter().map(|r| r.unwrap().path).collect();
    assert_eq!(
        paths,
        vec![FsPath::new("/r/a.txt"), FsPath::new("/r/b.md"), FsPath::new("/r/sub/c.md")]
    );
    assert_eq!(engine.stats.total_files_consumed, 3);
    assert_eq!(engine.stats.total_dirs_consumed, 1);
    assert_eq!(engine.stats.max_pending, 1);
    assert_eq!(engine.stats.total_iterations, 4);
    assert_eq!(engine.stats.started_at, Some(100));
    assert!(engine.read_errors.entries.is_empty());
    assert!(engine.metadata_errors.entries.is_empty());
    assert!(engine.pending_dirs.is_empty());
}

#[test]
fn extension_filter_on_sample_tree() {
    let (out, _) = traverse(&sample_tree(), "/r");
    let filtered = drain(create_extension_filter(VecSource::new(entry_items(out)), &["md"]));
    assert_eq!(filtered, vec![ok_entry("/r/b.md"), ok_entry("/r/sub/c.md")]);
}

#[test]
fn component_filter_excluding_sub() {
    let (out, _) = traverse(&sample_tree(), "/r");
    let filtered = drain(ComponentFilter::new(
        VecSource::new(entry_items(out)),
        b"sub".to_vec(),
        ComponentFilterOperationType::Exclude,
    ));
    assert_eq!(filtered, vec![ok_entry("/r/a.txt"), ok_entry("/r/b.md")]);
}

#[test]
fn missing_root_fails_construction() {
    let tree = sample_tree();
    let root = FsPath::new("/nowhere");
    let opened = tree.open(&root).map(|_| ());
    let r = ReadDirRecursive::new(root, opened);
    let e = r.unwrap_err();
    assert_eq!(e.path, FsPath::new("/nowhere"));
    assert_eq!(e.message, "No such file or directory");
}

#[test]
fn deep_tree_is_walked_last_discovered_first() {
    let tree = Tree {
        dirs: vec![
            (FsPath::new("/t"), Ok(vec![Found::Dir("x"), Found::Dir("y"), Found::File("f")])),
            (FsPath::new("/t/x"), Ok(vec![Found::File("xf"), Found::Dir("z")])),
            (FsPath::new("/t/x/z"), Ok(vec![Found::File("zf")])),
            (FsPath::new("/t/y"), Ok(vec![Found::File("yf")])),
        ],
    };
    let (out, engine) = traverse(&tree, "/t");
    let paths: Vec<FsPath> = out.into_iter().map(|r| r.unwrap().path).collect();
    assert_eq!(
        paths,
        vec![
            FsPath::new("/t/f"),
            FsPath::new("/t/y/yf"),
            FsPath::new("/t/x/xf"),
            FsPath::new("/t/x/z/zf"),
        ]
    );
    assert_eq!(engine.stats.total_dirs_consumed, 3);
    assert_eq!(engine.stats.max_pending, 2);
    assert_eq!(engine.stats.total_files_consumed, 4);
}

#[test]
fn failures_are_yielded_and_logged() {
    let tree = Tree {
        dirs: vec![
            (
                FsPath::new("/e"),
                Ok(vec![
                    Found::BadMeta("m1", "stale handle"),
                    Found::ReadError("io glitch"),
                    Found::Dir("locked"),
                    Found::File("ok.txt"),
                    Found::BadMeta("m2", "stale handle"),
                ]),
            ),
            (FsPath::new("/e/locked"), Err("Permission denied")),
        ],
    };
    let (out, engine) = traverse(&tree, "/e");
    assert_eq!(out.len(), 5);
    assert_eq!(
        out[0],
        Err(TraversalError {
            kind: TraversalErrorKind::MetadataQuery,
            message: "stale handle".to_string(),
            path: FsPath::new("/e/m1"),
        })
    );
    assert_eq!(
        out[1],
        Err(TraversalError {
            kind: TraversalErrorKind::EntryRead,
            message: "io glitch".to_string(),
            path: FsPath::new("/e"),
        })
    );
    assert_eq!(out[2], Ok(DirEntry::new(FsPath::new("/e/ok.txt"))));
    assert!(matches!(&out[3], Err(e) if e.kind == TraversalErrorKind::MetadataQuery));
    assert_eq!(
        out[4],
        Err(TraversalError {
            kind: TraversalErrorKind::SubdirectoryOpen,
            message: "Permission denied".to_string(),
            path: FsPath::new("/e/locked"),
        })
    );
    assert_eq!(engine.stats.total_files_consumed, 1);
    assert_eq!(engine.stats.total_dirs_consumed, 1);
    assert_eq!(engine.metadata_errors.entries.len(), 1);
    assert_eq!(engine.metadata_errors.entries[0].message, "stale handle");
    assert_eq!(
        engine.metadata_errors.entries[0].paths,
        vec![FsPath::new("/e/m1"), FsPath::new("/e/m2")]
    );
    assert_eq!(engine.read_errors.entries.len(), 2);
    assert_eq!(engine.read_errors.entries[0].paths, vec![FsPath::new("/e")]);
    assert_eq!(engine.read_errors.entries[1].message, "Permission denied");
    assert_eq!(engine.read_errors.entries[1].paths, vec![FsPath::new("/e/locked")]);
}

#[test]
fn yielded_files_match_counter() {
    let (out, engine) = traverse(&sample_tree(), "/r");
    let oks = out.iter().filter(|r| r.is_ok()).count() as u64;
    assert_eq!(oks, engine.stats.total_files_consumed);
    assert!(engine.stats.max_pending as u64 <= engine.stats.total_dirs_consumed);
}

#[test]
fn begin_pull_keeps_first_start_time() {
    let mut engine = ReadDirRecursive::new(FsPath::new("/r"), Ok(())).unwrap();
    engine.begin_pull(7);
    engine.begin_pull(9);
    assert_eq!(engine.stats.total_iterations, 2);
    assert_eq!(engine.stats.started_at, Some(7));
}

#[test]
fn find_dirs_prunes_matching_directories() {
    let tree = Tree {
        dirs: vec![
            (FsPath::new("/p"), Ok(vec![Found::Dir("a"), Found::File("f"), Found::Dir("target")])),
            (FsPath::new("/p/a"), Ok(vec![Found::Dir("target"), Found::Dir("b")])),
            (FsPath::new("/p/a/b"), Ok(vec![Found::File("g")])),
            (FsPath::new("/p/target"), Ok(vec![Found::Dir("target")])),
        ],
    };
    let root = FsPath::new("/p");
    let mut finder = FindDirsWithComponent::new(root.clone(), b"target".to_vec(), Ok(())).unwrap();
    let mut handle = tree.open(&root).unwrap();
    handle.reverse();
    let mut found = Vec::new();
    let mut event = None;
    loop {
        let ev = match event.take() {
            Some(ev) => ev,
            None => match handle.pop() {
                Some((p, f)) => event_of(p, f),
                None => DirEvent::Exhausted,
            },
        };
        match finder.step(ev) {
            Step::ReadNext => {}
            Step::Open(p) => {
                handle = tree.open(&p).unwrap();
                handle.reverse();
                event = Some(DirEvent::Opened);
            }
            Step::Yield(r) => found.push(r.unwrap().path),
            Step::Finished => break,
        }
    }
    assert_eq!(found, vec![FsPath::new("/p/target"), FsPath::new("/p/a/target")]);
}

#[test]
fn find_dirs_missing_root_fails() {
    let r = FindDirsWithComponent::new(FsPath::new("/none"), b"x".to_vec(), Err("gone".to_string()));
    assert_eq!(r.unwrap_err().message, "gone");
}

fn mixed_items() -> Vec<Item> {
    vec![
        ok_entry("/r/a.txt"),
        Item::EntryResult(Err(TraversalError {
            kind: TraversalErrorKind::EntryRead,
            message: "boom".to_string(),
            path: FsPath::new("/r"),
        })),
        ok_entry("/r/sub/c.md"),
        ok_entry("/r/b.md"),
        ok_entry("/r/sub/d.txt"),
    ]
}

#[test]
fn include_and_exclude_partition_successes() {
    let inc = drain(ComponentFilter::new(
        VecSource::new(mixed_items()),
        b"sub".to_vec(),
        ComponentFilterOperationType::Include,
    ));
    let exc = drain(ComponentFilter::new(
        VecSource::new(mixed_items()),
        b"sub".to_vec(),
        ComponentFilterOperationType::Exclude,
    ));
    let err = mixed_items().remove(1);
    assert_eq!(inc, vec![err, ok_entry("/r/sub/c.md"), ok_entry("/r/sub/d.txt")]);
    let err = mixed_items().remove(1);
    assert_eq!(exc, vec![ok_entry("/r/a.txt"), err, ok_entry("/r/b.md")]);
}

#[test]
fn extension_filter_is_idempotent() {
    let once = drain(create_extension_filter(VecSource::new(mixed_items()), &["md", "txt"]));
    let twice = drain(create_extension_filter(
        create_extension_filter(VecSource::new(mixed_items()), &["md", "txt"]),
        &["md", "txt"],
    ));
    assert_eq!(once, twice);
    assert_eq!(once.len(), 5);
    let md = drain(VecSource::new(mixed_items()).only_extensions(vec![b"md".to_vec()]));
    let md_twice = drain(
        VecSource::new(mixed_items())
            .only_extensions(vec![b"md".to_vec()])
            .only_extensions(vec![b"md".to_vec()]),
    );
    assert_eq!(md, md_twice);
    assert_eq!(md.len(), 3);
}

#[test]
fn extension_filter_is_case_sensitive_and_drops_extensionless() {
    let items = vec![
        Item::Path(FsPath::new("/x/A.MD")),
        Item::Path(FsPath::new("/x/README")),
        Item::Path(FsPath::new("/x/.md")),
        Item::Path(FsPath::new("/x/n.md")),
    ];
    let out = drain(itfs::ExtensionFilter::new(VecSource::new(items), &["md"]));
    assert_eq!(out, vec![Item::Path(FsPath::new("/x/n.md"))]);
    let empty = drain(itfs::ExtensionFilter::new(VecSource::new(Vec::new()), &["md"]));
    assert!(empty.is_empty());
}

#[test]
fn result_filter_drops_failures_and_unwraps() {
    let out = drain(ResultFilter::new(VecSource::new(mixed_items())));
    assert_eq!(out.len(), 4);
    assert_eq!(out[0], Item::Entry(DirEntry::new(FsPath::new("/r/a.txt"))));
    let paths = drain(ResultFilter::new(EntryToPath::new(VecSource::new(mixed_items()))));
    assert_eq!(paths[1], Item::Path(FsPath::new("/r/sub/c.md")));
}

#[test]
fn error_collector_keeps_dropped_errors() {
    let mut collector = ErrorCollector::new(VecSource::new(mixed_items()), Vec::new());
    let first = collector.next_item();
    assert_eq!(first, Some(Item::Entry(DirEntry::new(FsPath::new("/r/a.txt")))));
    assert!(collector.errors.is_empty());
    let second = collector.next_item();
    assert_eq!(second, Some(Item::Entry(DirEntry::new(FsPath::new("/r/sub/c.md")))));
    assert_eq!(collector.errors.len(), 1);
    assert_eq!(collector.errors[0].message, "boom");
    while collector.next_item().is_some() {}
    assert_eq!(collector.errors.len(), 1);
}

#[test]
fn entry_to_path_keeps_failures() {
    let out = drain(EntryToPath::new(VecSource::new(mixed_items())));
    assert_eq!(out[0], Item::PathResult(Ok(FsPath::new("/r/a.txt"))));
    assert!(matches!(&out[1], Item::PathResult(Err(e)) if e.message == "boom"));
    let bare = drain(EntryToPath::new(VecSource::new(vec![Item::Entry(DirEntry::new(
        FsPath::new("/q"),
    ))])));
    assert_eq!(bare, vec![Item::Path(FsPath::new("/q"))]);
}

fn err_item(m: &str) -> Item {
    Item::EntryResult(Err(TraversalError {
        kind: TraversalErrorKind::EntryRead,
        message: m.to_string(),
        path: FsPath::new("/r"),
    }))
}

#[test]
fn filters_pull_no_further_than_the_returned_item() {
    let items = vec![ok_entry("/r/sub/x"), ok_entry("/r/a.txt"), ok_entry("/r/sub/y"), ok_entry("/r/b")];
    let mut f = ComponentFilter::new(
        VecSource::new(items),
        b"sub".to_vec(),
        ComponentFilterOperationType::Exclude,
    );
    assert_eq!(f.pull(), Some(ok_entry("/r/a.txt")));
    assert_eq!(f.inner.reversed.len(), 2);
    assert_eq!(f.pull(), Some(ok_entry("/r/b")));
    assert_eq!(f.inner.reversed.len(), 0);
    assert_eq!(f.pull(), None);

    let mut e = create_extension_filter(
        VecSource::new(vec![ok_entry("/r/a.txt"), err_item("x"), ok_entry("/r/b.md")]),
        &["md"],
    );
    assert_eq!(e.pull(), Some(err_item("x")));
    assert_eq!(e.inner.reversed.len(), 1);
}

#[test]
fn error_collector_collects_trailing_failures() {
    let mut c = ErrorCollector::new(
        VecSource::new(vec![ok_entry("/r/a"), err_item("one"), err_item("two")]),
        Vec::new(),
    );
    assert!(c.next_collecting().is_some());
    assert!(c.errors.is_empty());
    assert_eq!(c.next_collecting(), None);
    assert_eq!(c.inner.reversed.len(), 0);
    let msgs: Vec<&str> = c.errors.iter().map(|e| e.message.as_str()).collect();
    assert_eq!(msgs, vec!["one", "two"]);

    let mut r = ResultFilter::new(VecSource::new(vec![err_item("z")]));
    assert_eq!(r.pull(), None);
    assert_eq!(r.inner.reversed.len(), 0);
}

#[test]
fn entry_to_path_pulls_one_item() {
    let mut p = EntryToPath::new(VecSource::new(vec![ok_entry("/a"), ok_entry("/b")]));
    assert_eq!(p.pull(), Some(Item::PathResult(Ok(FsPath::new("/a")))));
    assert_eq!(p.inner.reversed.len(), 1);
}
