use itfs::{path_re_root, FsPath, PathComponent, PathReRoot, Item, VecSource, DirEntry};
use itfs::{TraversalError, TraversalErrorKind};

struct Subject {
    path: &'static str,
    strip_prefix: &'static str,
    replace_prefix: &'static str,
    expect: Option<FsPath>,
}

fn re_root(path: &str, strip: &str, replace: &str) -> Result<FsPath, itfs::StripPrefixError> {
    path_re_root(&FsPath::new(path), &FsPath::new(strip), &FsPath::new(replace))
}

#[test]
fn re_root_fn() {
    let subjects = [
        Subject {
            path: "/a/b/c/d",
            strip_prefix: "/a/b",
            replace_prefix: "/x/y",
            expect: Some(FsPath::new("/x/y/c/d")),
        },
        // prefix can be erased from the target
        Subject {
            path: "/a/b/c/d",
            strip_prefix: "/a/b",
            replace_prefix: "",
            expect: Some(FsPath::new("c/d")),
        },
        // not a valid prefix
        Subject {
            path: "/a/b/c/d",
            strip_prefix: "/c/d",
            replace_prefix: "",
            expect: None,
        },
        // mismatch: target path is relative, given prefix is absolute
        Subject {
            path: "./c/d",
            strip_prefix: "/c/d",
            replace_prefix: "",
            expect: None,
        },
        // mismatch: target path is absolute, given prefix is relative
        Subject {
            path: "/c/d",
            strip_prefix: ".c/d",
            replace_prefix: "",
            expect: None,
        },
    ];

    for subject in subjects {
        let res = re_root(subject.path, subject.strip_prefix, subject.replace_prefix);

        match subject.expect.is_some() {
            true => assert_eq!(res, Result::Ok(subject.expect.unwrap())),
            false => assert!(res.is_err()),
        }
    }
}

#[test]
fn parse_splits_components() {
    let p = FsPath::new("/a//b/./c/");
    assert_eq!(
        p.components,
        vec![
            PathComponent::RootDir,
            PathComponent::Normal(b"a".to_vec()),
            PathComponent::Normal(b"b".to_vec()),
            PathComponent::Normal(b"c".to_vec()),
        ]
    );
    let q = FsPath::new("./x/../y");
    assert_eq!(
        q.components,
        vec![
            PathComponent::CurDir,
            PathComponent::Normal(b"x".to_vec()),
            PathComponent::ParentDir,
            PathComponent::Normal(b"y".to_vec()),
        ]
    );
}

#[test]
fn re_root_round_trip_returns_original() {
    let once = re_root("/a/b/c/d", "/a/b", "/x/y").unwrap();
    assert_eq!(once, FsPath::new("/x/y/c/d"));
    let back = path_re_root(&once, &FsPath::new("/x/y"), &FsPath::new("/a/b")).unwrap();
    assert_eq!(back, FsPath::new("/a/b/c/d"));

    let erased = re_root("/a/b/c/d", "/a/b", "").unwrap();
    let restored = path_re_root(&erased, &FsPath::new(""), &FsPath::new("/a/b")).unwrap();
    assert_eq!(restored, FsPath::new("/a/b/c/d"));
}

#[test]
fn re_root_fails_exactly_without_prefix() {
    assert!(re_root("/a/b/c/d", "/c/d", "/z").is_err());
    assert!(re_root("/a/bc", "/a/b", "/z").is_err());
    assert!(re_root("/a", "/a/b", "/z").is_err());
    assert_eq!(re_root("/a/b/c/d", "/a/b", "/z").unwrap(), FsPath::new("/z/c/d"));
    assert_eq!(re_root("/a/b", "/a/b", "/z").unwrap(), FsPath::new("/z"));
    assert_eq!(re_root("/a/b", "", "/z").unwrap(), FsPath::new("/a/b"));
}

#[test]
fn join_drops_leading_current_dir() {
    let base = FsPath::new("x");
    assert_eq!(base.join(&FsPath::new("./c")), FsPath::new("x/c"));
    assert_eq!(FsPath::new("").join(&FsPath::new("./c")), FsPath::new("./c"));
    assert_eq!(base.join(&FsPath::new("/c")), FsPath::new("/c"));
}

#[test]
fn re_root_adapter_pairs_items_with_outcomes() {
    let items = vec![
        Item::Path(FsPath::new("/a/b/c")),
        Item::Path(FsPath::new("/q/r")),
        Item::PathResult(Err(TraversalError {
            kind: TraversalErrorKind::EntryRead,
            message: "denied".to_string(),
            path: FsPath::new("/a"),
        })),
        Item::Entry(DirEntry::new(FsPath::new("/a/b/e.md"))),
    ];
    let mut rr = PathReRoot::new(VecSource::new(items), FsPath::new("/a/b"), FsPath::new("/n"));
    let (i0, o0) = rr.next().unwrap();
    assert_eq!(i0, Item::Path(FsPath::new("/a/b/c")));
    assert_eq!(o0, Some(Ok(FsPath::new("/n/c"))));
    let (_, o1) = rr.next().unwrap();
    assert!(matches!(o1, Some(Err(_))));
    let (i2, o2) = rr.next().unwrap();
    assert!(matches!(i2, Item::PathResult(Err(_))));
    assert_eq!(o2, None);
    let (_, o3) = rr.next().unwrap();
    assert_eq!(o3, Some(Ok(FsPath::new("/n/e.md"))));
    assert!(rr.next().is_none());
}

#[test]
fn extension_of_paths() {
    assert_eq!(FsPath::new("/a/b.md").extension(), Some(b"md".to_vec()));
    assert_eq!(FsPath::new("/a/archive.tar.gz").extension(), Some(b"gz".to_vec()));
    assert_eq!(FsPath::new("/a/.bashrc").extension(), None);
    assert_eq!(FsPath::new("/a/noext").extension(), None);
    assert_eq!(FsPath::new("/a/trail.").extension(), Some(Vec::new()));
    assert_eq!(FsPath::new("/a/..").extension(), None);
    assert_eq!(FsPath::new("/").extension(), None);
}

#[test]
fn has_component_matches_whole_names() {
    let p = FsPath::new("/home/sub/file.txt");
    assert!(p.has_component(&b"sub".to_vec()));
    assert!(p.has_component(&b"/".to_vec()));
    assert!(!p.has_component(&b"su".to_vec()));
    assert!(!p.has_component(&b"home/sub".to_vec()));
}
