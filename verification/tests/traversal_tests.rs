use cljscan::fs_model::{collect_leaves, plan_units, FsTree, LeafInfo, PlannedUnit};
use cljscan::names::PathKind;
use cljscan::parse::FatalError;
use cljscan::run::{plan_inputs, InputProbe};

fn b(s: &str) -> Vec<u8> {
    s.as_bytes().to_vec()
}

fn leaf(path: &str, is_file: bool) -> FsTree {
    FsTree::Leaf { path: b(path), is_file }
}

fn dir(path: &str, children: Vec<FsTree>) -> FsTree {
    FsTree::Dir { path: b(path), children }
}

#[test]
fn collect_visits_every_leaf_once() {
    // Nested tree: every non-directory descendant appears exactly once,
    // in depth-first order; directories themselves are never listed.
    let t = dir(
        "root",
        vec![
            leaf("root/a.clj", true),
            dir(
                "root/sub",
                vec![leaf("root/sub/b.txt", true), dir("root/sub/empty", vec![]), leaf(
                    "root/sub/c.cljs",
                    true,
                )],
            ),
            leaf("root/link", false),
        ],
    );
    let mut out: Vec<LeafInfo> = Vec::new();
    collect_leaves(&t, &mut out);
    let expected = vec![
        LeafInfo { path: b("root/a.clj"), is_file: true },
        LeafInfo { path: b("root/sub/b.txt"), is_file: true },
        LeafInfo { path: b("root/sub/c.cljs"), is_file: true },
        LeafInfo { path: b("root/link"), is_file: false },
    ];
    assert_eq!(out, expected);
}

#[test]
fn collect_single_file_input() {
    let t = leaf("only.clj", true);
    let mut out: Vec<LeafInfo> = Vec::new();
    collect_leaves(&t, &mut out);
    assert_eq!(out, vec![LeafInfo { path: b("only.clj"), is_file: true }]);
}

#[test]
fn collect_empty_dir() {
    let t = dir("nothing", vec![]);
    let mut out: Vec<LeafInfo> = Vec::new();
    collect_leaves(&t, &mut out);
    assert!(out.is_empty());
}

#[test]
fn plan_keeps_sources_and_archives() {
    let leaves = vec![
        LeafInfo { path: b("a.clj"), is_file: true },
        LeafInfo { path: b("b.txt"), is_file: true },
        LeafInfo { path: b("lib.jar"), is_file: true },
        LeafInfo { path: b("oddity.clj"), is_file: false },
        LeafInfo { path: b("c.cljc"), is_file: true },
    ];
    let plan = plan_units(leaves);
    let expected = vec![
        PlannedUnit { path: b("a.clj"), kind: PathKind::SourceFile },
        PlannedUnit { path: b("lib.jar"), kind: PathKind::Archive },
        PlannedUnit { path: b("c.cljc"), kind: PathKind::SourceFile },
    ];
    assert_eq!(plan, expected);
}

#[test]
fn plan_inputs_flattens_in_order() {
    let probes = vec![
        InputProbe { path: b("one.clj"), exists: true, tree: leaf("one.clj", true) },
        InputProbe {
            path: b("d"),
            exists: true,
            tree: dir("d", vec![leaf("d/two.cljs", true), leaf("d/skip.md", true)]),
        },
    ];
    let plan = plan_inputs(&probes).expect("all inputs exist");
    let expected = vec![
        PlannedUnit { path: b("one.clj"), kind: PathKind::SourceFile },
        PlannedUnit { path: b("d/two.cljs"), kind: PathKind::SourceFile },
    ];
    assert_eq!(plan, expected);
}

#[test]
fn missing_input_is_fatal() {
    // An input path that does not exist aborts the run before any work.
    let probes = vec![
        InputProbe { path: b("good.clj"), exists: true, tree: leaf("good.clj", true) },
        InputProbe { path: b("no/such/path"), exists: false, tree: leaf("no/such/path", false) },
    ];
    match plan_inputs(&probes) {
        Err(FatalError::MissingInput { path }) => assert_eq!(path, b("no/such/path")),
        other => panic!("expected a missing-input fatal error, got {:?}", other),
    }
}
