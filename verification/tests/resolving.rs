use luabundler::resolve::{
    join_path, parent_dir, ResolveError, ResolveEvent, ResolveStep, Resolver,
};

#[test]
fn parent_dir_of_nested_path() {
    assert_eq!(parent_dir(b"a/b/c.lua"), b"a/b".to_vec());
}

#[test]
fn parent_dir_of_bare_name_is_empty() {
    assert_eq!(parent_dir(b"c.lua"), Vec::<u8>::new());
}

#[test]
fn join_path_inserts_separator() {
    assert_eq!(join_path(b"a", b"b/c.lua"), b"a/b/c.lua".to_vec());
}

#[test]
fn join_path_with_empty_dir() {
    assert_eq!(join_path(b"", b"x.lua"), b"x.lua".to_vec());
}

#[test]
fn join_path_absolute_file_wins() {
    assert_eq!(join_path(b"a", b"/abs.lua"), b"/abs.lua".to_vec());
}

fn expect_read(r: Result<ResolveStep, ResolveError>, want: &[u8]) {
    match r {
        Ok(ResolveStep::Read { path }) => assert_eq!(path, want.to_vec()),
        _ => panic!("expected a read request"),
    }
}

fn expect_done(r: Result<ResolveStep, ResolveError>) {
    assert!(matches!(r, Ok(ResolveStep::Done)));
}

#[test]
fn chain_of_three_is_walked_in_preorder() {
    let mut rv = Resolver::begin(b"proj/a.lua".to_vec());
    let r = rv.step(ResolveEvent::Loaded {
        text: b"require(\"b.lua\")".to_vec(),
    });
    expect_read(r, b"proj/b.lua");
    let r = rv.step(ResolveEvent::Loaded {
        text: b"require(\"c.lua\")".to_vec(),
    });
    expect_read(r, b"proj/c.lua");
    let r = rv.step(ResolveEvent::Loaded {
        text: b"return 3".to_vec(),
    });
    expect_done(r);
    let sites = rv.into_sites();
    assert_eq!(sites.len(), 2);
    assert_eq!(sites[0].required_path, b"b.lua".to_vec());
    assert_eq!(sites[1].required_path, b"c.lua".to_vec());
}

#[test]
fn missing_module_is_recorded_but_not_entered() {
    let mut rv = Resolver::begin(b"a.lua".to_vec());
    let r = rv.step(ResolveEvent::Loaded {
        text: b"require(\"lib\")\nrequire(\"b.lua\")".to_vec(),
    });
    expect_read(r, b"lib");
    // No file exists at `lib`: its site stays recorded, nothing is entered,
    // and the scan moves on to the next sibling.
    let r = rv.step(ResolveEvent::Missing);
    expect_read(r, b"b.lua");
    let r = rv.step(ResolveEvent::Loaded {
        text: b"return 2".to_vec(),
    });
    expect_done(r);
    let sites = rv.into_sites();
    assert_eq!(sites.len(), 2);
    assert_eq!(sites[0].required_path, b"lib".to_vec());
    assert_eq!(sites[1].required_path, b"b.lua".to_vec());
}

#[test]
fn missing_entry_is_an_error() {
    let mut rv = Resolver::begin(b"gone.lua".to_vec());
    let r = rv.step(ResolveEvent::Missing);
    assert!(matches!(r, Err(ResolveError::EntryMissing)));
}

#[test]
fn self_require_is_a_cycle_error() {
    let mut rv = Resolver::begin(b"a.lua".to_vec());
    let r = rv.step(ResolveEvent::Loaded {
        text: b"require(\"a.lua\")".to_vec(),
    });
    match r {
        Err(ResolveError::Cycle { path }) => assert_eq!(path, b"a.lua".to_vec()),
        _ => panic!("expected a cycle error"),
    }
}

#[test]
fn mutual_requires_are_a_cycle_error() {
    let mut rv = Resolver::begin(b"a.lua".to_vec());
    let r = rv.step(ResolveEvent::Loaded {
        text: b"require(\"b.lua\")".to_vec(),
    });
    expect_read(r, b"b.lua");
    let r = rv.step(ResolveEvent::Loaded {
        text: b"require(\"a.lua\")".to_vec(),
    });
    assert!(matches!(r, Err(ResolveError::Cycle { .. })));
}

#[test]
fn entry_without_statements_finishes_at_once() {
    let mut rv = Resolver::begin(b"a.lua".to_vec());
    let r = rv.step(ResolveEvent::Loaded {
        text: b"print(1)".to_vec(),
    });
    expect_done(r);
    assert_eq!(rv.into_sites().len(), 0);
}

#[test]
fn module_paths_resolve_against_the_requiring_file() {
    // `sub/b.lua` requires `c.lua`, which resolves inside `sub`, not at the
    // entry file's directory.
    let mut rv = Resolver::begin(b"a.lua".to_vec());
    let r = rv.step(ResolveEvent::Loaded {
        text: b"require(\"sub/b.lua\")".to_vec(),
    });
    expect_read(r, b"sub/b.lua");
    let r = rv.step(ResolveEvent::Loaded {
        text: b"require(\"c.lua\")".to_vec(),
    });
    expect_read(r, b"sub/c.lua");
    let r = rv.step(ResolveEvent::Loaded {
        text: b"return 1".to_vec(),
    });
    expect_done(r);
}
