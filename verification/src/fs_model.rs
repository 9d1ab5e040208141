//! The traversal engine's model of a filesystem snapshot: a tree of
//! directories and non-directory entries, each carrying its full path, and
//! the recursive descent that lists every non-directory descendant.

use vstd::prelude::*;
use crate::names::{classify_spec, classify, PathKind};

verus! {

/// A non-directory descendant discovered by the traversal: its full path
/// and whether it is a regular file.
#[derive(Clone, Debug, PartialEq, Eq)]
pub struct LeafInfo {
    pub path: Vec<u8>,
    pub is_file: bool,
}

/// The mathematical value of a `LeafInfo`.
pub struct LeafV {
    pub path: Seq<u8>,
    pub is_file: bool,
}

impl View for LeafInfo {
    type V = LeafV;

    open spec fn view(&self) -> LeafV {
        LeafV { path: self.path@, is_file: self.is_file }
    }
}

/// The values of a sequence of discovered leaves.
pub open spec fn leaf_views(s: Seq<LeafInfo>) -> Seq<LeafV> {
    s.map_values(|l: LeafInfo| l@)
}

/// A snapshot of one filesystem subtree. Directories hold their immediate
/// children; every node carries its own full path.
#[derive(Debug, PartialEq, Eq)]
pub enum FsTree {
    Dir { path: Vec<u8>, children: Vec<FsTree> },
    Leaf { path: Vec<u8>, is_file: bool },
}

/// Every non-directory descendant of `t`, in depth-first order.
pub open spec fn leaves_of(t: FsTree) -> Seq<LeafV>
    decreases t,
{
    match t {
        FsTree::Leaf { path, is_file } => seq![LeafV { path: path@, is_file }],
        FsTree::Dir { path, children } => leaves_of_children(children@),
    }
}

/// The concatenated leaves of a sequence of sibling subtrees.
pub open spec fn leaves_of_children(s: Seq<FsTree>) -> Seq<LeafV>
    decreases s,
{
    if s.len() == 0 {
        seq![]
    } else {
        leaves_of(s[0]) + leaves_of_children(s.drop_first())
    }
}

/// Full recursive descent: appends to `out` every non-directory descendant
/// of `t`, each exactly once, in depth-first order. Directories themselves
/// are structural and are never emitted.
pub fn collect_leaves(t: &FsTree, out: &mut Vec<LeafInfo>)
    ensures
        leaf_views(final(out)@) == leaf_views(old(out)@) + leaves_of(*t),
    decreases *t,
{
    match t {
        FsTree::Leaf { path, is_file } => {
            let l = LeafInfo { path: path.clone(), is_file: *is_file };
            assert(l@ == LeafV { path: path@, is_file: *is_file });
            out.push(l);
            assert(leaf_views(out@) =~= leaf_views(old(out)@) + leaves_of(*t));
        },
        FsTree::Dir { path, children } => {
            let ghost cs = children@;
            let mut i: usize = 0;
            assert(cs.skip(0) =~= cs);
            while i < children.len()
                invariant
                    i <= children.len(),
                    children@ == cs,
                    *t is Dir,
                    t->Dir_children == *children,
                    leaf_views(out@) + leaves_of_children(cs.skip(i as int)) == leaf_views(
                        old(out)@,
                    ) + leaves_of_children(cs),
                decreases children.len() - i,
            {
                proof {
                    assert(*children == t->Dir_children);
                    assert(decreases_to!(*t => t->Dir_children));
                    assert(decreases_to!(*children => cs));
                    assert(decreases_to!(cs => cs[i as int]));
                }
                let ghost prev = out@;
                collect_leaves(&children[i], out);
                proof {
                    let rest = cs.skip(i as int);
                    assert(rest.drop_first() =~= cs.skip(i + 1));
                    assert(rest[0] == cs[i as int]);
                    assert(leaves_of_children(rest) == leaves_of(cs[i as int])
                        + leaves_of_children(cs.skip(i + 1)));
                    assert(leaf_views(out@) + leaves_of_children(cs.skip(i + 1)) =~= (leaf_views(
                        prev,
                    ) + leaves_of(cs[i as int])) + leaves_of_children(cs.skip(i + 1)));
                    assert((leaf_views(prev) + leaves_of(cs[i as int])) + leaves_of_children(
                        cs.skip(i + 1),
                    ) =~= leaf_views(prev) + leaves_of_children(rest));
                }
                i += 1;
            }
            proof {
                assert(cs.skip(children@.len() as int) =~= Seq::<FsTree>::empty());
                assert(leaf_views(out@) + leaves_of_children(cs.skip(children@.len() as int))
                    =~= leaf_views(out@));
                assert(leaves_of(*t) == leaves_of_children(cs));
            }
        },
    }
}

/// A unit of parse work chosen by the classifier: a source file to read
/// and parse, or an archive container to expand.
#[derive(Clone, Debug, PartialEq, Eq)]
pub struct PlannedUnit {
    pub path: Vec<u8>,
    pub kind: PathKind,
}

/// The mathematical value of a `PlannedUnit`.
pub struct PlannedV {
    pub path: Seq<u8>,
    pub kind: PathKind,
}

impl View for PlannedUnit {
    type V = PlannedV;

    open spec fn view(&self) -> PlannedV {
        PlannedV { path: self.path@, kind: self.kind }
    }
}

/// The values of a sequence of planned units.
pub open spec fn plan_views(s: Seq<PlannedUnit>) -> Seq<PlannedV> {
    s.map_values(|u: PlannedUnit| u@)
}

/// How a discovered leaf is routed (a leaf is never a directory).
pub open spec fn leaf_route(l: LeafV) -> PathKind {
    classify_spec(false, l.is_file, l.path)
}

/// The actionable units among a sequence of leaves: source files and
/// archives keep their classification; ignored leaves are dropped.
pub open spec fn plan_of_leaves(s: Seq<LeafV>) -> Seq<PlannedV>
    decreases s,
{
    if s.len() == 0 {
        seq![]
    } else {
        let rest = plan_of_leaves(s.drop_first());
        let k = leaf_route(s[0]);
        if k == PathKind::SourceFile || k == PathKind::Archive {
            seq![PlannedV { path: s[0].path, kind: k }] + rest
        } else {
            rest
        }
    }
}

/// Routes every discovered leaf through the classifier, keeping exactly
/// the source files and archives, in order.
pub fn plan_units(leaves: Vec<LeafInfo>) -> (r: Vec<PlannedUnit>)
    ensures
        plan_views(r@) == plan_of_leaves(leaf_views(leaves@)),
{
    let ghost lv = leaf_views(leaves@);
    let mut r: Vec<PlannedUnit> = Vec::new();
    let mut i: usize = 0;
    assert(lv.skip(0) =~= lv);
    assert(plan_views(r@) =~= Seq::<PlannedV>::empty());
    while i < leaves.len()
        invariant
            i <= leaves.len(),
            lv == leaf_views(leaves@),
            lv.len() == leaves@.len(),
            plan_views(r@) + plan_of_leaves(lv.skip(i as int)) == plan_of_leaves(lv),
        decreases leaves.len() - i,
    {
        let ghost prev = r@;
        let ghost rest = lv.skip(i as int);
        proof {
            assert(rest.drop_first() =~= lv.skip(i + 1));
            assert(rest[0] == lv[i as int]);
            assert(lv[i as int] == leaves@[i as int]@);
        }
        let leaf = &leaves[i];
        let k = classify(false, leaf.is_file, &leaf.path);
        match k {
            PathKind::SourceFile | PathKind::Archive => {
                r.push(PlannedUnit { path: leaf.path.clone(), kind: k });
                proof {
                    assert(plan_views(r@) =~= plan_views(prev) + seq![
                        PlannedV { path: lv[i as int].path, kind: leaf_route(lv[i as int]) },
                    ]);
                    assert(plan_views(r@) + plan_of_leaves(lv.skip(i + 1)) =~= plan_views(prev)
                        + plan_of_leaves(rest));
                }
            },
            _ => {
                proof {
                    assert(plan_of_leaves(rest) == plan_of_leaves(lv.skip(i + 1)));
                }
            },
        }
        i += 1;
    }
    proof {
        assert(lv.skip(leaves@.len() as int) =~= Seq::<LeafV>::empty());
        assert(plan_views(r@) + plan_of_leaves(lv.skip(leaves@.len() as int)) =~= plan_views(r@));
    }
    r
}

} // verus!
