//! Directory resolver: turn the listings of the configured root paths into
//! the ordered set of child directories that are git working directories.
//!
//! Listing a directory and probing for a valid `.git` entry are outside,
//! on-disk concerns; this module receives each root's listing as plain
//! `ChildEntry` values — already marked with the two qualification facts —
//! and does the resolution itself: a root that could not be listed is fatal,
//! a child that fails either check is silently excluded, and order is kept
//! root by root, children in listing order.

use vstd::prelude::*;
use vstd::string::*;

verus! {

/// One immediate child of a configured root: its path, whether it is a
/// directory, and whether a `.git` entry directly beneath it is a valid git
/// metadata directory.
pub struct ChildEntry {
    pub path: String,
    pub is_dir: bool,
    pub has_git_dir: bool,
}

/// One configured root and its immediate children, in the order the
/// filesystem yielded them; `None` when the root could not be listed.
pub struct RootListing {
    pub root: String,
    pub children: Option<Vec<ChildEntry>>,
}

/// A configured root could not be listed. This is a setup error the user
/// must fix, so it fails the whole resolution; the offending root is carried.
#[derive(Debug)]
pub struct DirectoryUnreadable(pub String);

/// A child qualifies when it is a directory holding a valid git metadata
/// directory.
pub open spec fn child_qualifies(c: ChildEntry) -> bool {
    c.is_dir && c.has_git_dir
}

/// The qualifying children of one root, in listing order.
pub open spec fn qualified_children(cs: Seq<ChildEntry>) -> Seq<ChildEntry>
    decreases cs.len(),
{
    if cs.len() == 0 {
        Seq::<ChildEntry>::empty()
    } else {
        let rest = qualified_children(cs.drop_last());
        if child_qualifies(cs.last()) {
            rest.push(cs.last())
        } else {
            rest
        }
    }
}

pub open spec fn root_children(r: RootListing) -> Seq<ChildEntry> {
    match r.children {
        Some(v) => v@,
        None => Seq::<ChildEntry>::empty(),
    }
}

/// Every configured root could be listed.
pub open spec fn all_readable(roots: Seq<RootListing>) -> bool {
    forall|i: int| 0 <= i < roots.len() ==> (#[trigger] roots[i]).children is Some
}

/// The qualifying children of all roots, root by root, in order.
pub open spec fn resolved_children(roots: Seq<RootListing>) -> Seq<ChildEntry>
    decreases roots.len(),
{
    if roots.len() == 0 {
        Seq::<ChildEntry>::empty()
    } else {
        resolved_children(roots.drop_last()) + qualified_children(root_children(roots.last()))
    }
}

pub open spec fn paths_match(ps: Seq<String>, cs: Seq<ChildEntry>) -> bool {
    &&& ps.len() == cs.len()
    &&& forall|i: int| 0 <= i < cs.len() ==> (#[trigger] ps[i])@ == cs[i].path@
}

proof fn lemma_resolved_take_step(roots: Seq<RootListing>, i: int)
    requires
        0 <= i < roots.len(),
    ensures
        resolved_children(roots.take(i + 1)) == resolved_children(roots.take(i))
            + qualified_children(root_children(roots[i])),
{
    assert(roots.take(i + 1).drop_last() =~= roots.take(i));
    assert(roots.take(i + 1).last() == roots[i]);
}

proof fn lemma_qualified_take_step(cs: Seq<ChildEntry>, k: int)
    requires
        0 <= k < cs.len(),
    ensures
        qualified_children(cs.take(k + 1)) == (if child_qualifies(cs[k]) {
            qualified_children(cs.take(k)).push(cs[k])
        } else {
            qualified_children(cs.take(k))
        }),
{
    assert(cs.take(k + 1).drop_last() =~= cs.take(k));
    assert(cs.take(k + 1).last() == cs[k]);
}

/// Resolve the configured roots into the paths of their qualifying children,
/// root by root, children in listing order. A root that could not be listed
/// fails the whole resolution with the first such root; a child that fails a
/// qualification check is silently excluded.
pub fn get_directories(roots: &Vec<RootListing>) -> (r: Result<Vec<String>, DirectoryUnreadable>)
    ensures
        r is Ok <==> all_readable(roots@),
        r is Ok ==> paths_match(r->Ok_0@, resolved_children(roots@)),
        r is Err ==> exists|i: int|
            0 <= i < roots@.len() && (#[trigger] roots@[i]).children is None && (forall|j: int|
                0 <= j < i ==> (#[trigger] roots@[j]).children is Some) && r->Err_0.0@
                == roots@[i].root@,
{
    let mut out: Vec<String> = Vec::new();
    let mut i: usize = 0;
    while i < roots.len()
        invariant
            i <= roots@.len(),
            forall|j: int| 0 <= j < i ==> (#[trigger] roots@[j]).children is Some,
            paths_match(out@, resolved_children(roots@.take(i as int))),
        decreases roots@.len() - i,
    {
        let listing = &roots[i];
        match &listing.children {
            None => {
                return Err(DirectoryUnreadable(String::from_str(listing.root.as_str())));
            },
            Some(children) => {
                let ghost base = resolved_children(roots@.take(i as int));
                let mut k: usize = 0;
                while k < children.len()
                    invariant
                        k <= children@.len(),
                        base == resolved_children(roots@.take(i as int)),
                        paths_match(
                            out@,
                            base + qualified_children(children@.take(k as int)),
                        ),
                    decreases children@.len() - k,
                {
                    let c = &children[k];
                    if c.is_dir && c.has_git_dir {
                        out.push(String::from_str(c.path.as_str()));
                        proof {
                            assert((base + qualified_children(children@.take(k as int))).push(
                                children@[k as int],
                            ) =~= base + qualified_children(children@.take(k as int)).push(
                                children@[k as int],
                            ));
                        }
                    }
                    proof {
                        lemma_qualified_take_step(children@, k as int);
                    }
                    k += 1;
                }
                proof {
                    assert(children@.take(children@.len() as int) =~= children@);
                    lemma_resolved_take_step(roots@, i as int);
                }
            },
        }
        i += 1;
    }
    proof {
        assert(roots@.take(roots@.len() as int) =~= roots@);
    }
    Ok(out)
}

} // verus!
