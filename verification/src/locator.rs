//! Installed-binary location.  Two read-only strategies: the known-layout
//! strategy reads the single expected subdirectory of an installation root
//! and appends a fixed relative path; the recursive-search strategy walks the
//! tree for a file with the expected name.

use vstd::prelude::*;

use crate::fstree::{FsNodeModel, FsState};
use crate::pathname::{path_concat, path_push, spec_under, PathBuf};

verus! {

/// `c` is the only name bound immediately under `root`.
pub open spec fn spec_sole_child(
    m: Map<Seq<Seq<u8>>, FsNodeModel>,
    root: Seq<Seq<u8>>,
    c: Seq<u8>,
) -> bool {
    &&& m.contains_key(root.push(c))
    &&& forall|c2: Seq<u8>| m.contains_key(#[trigger] root.push(c2)) ==> c2 == c
}

/// Known-layout strategy: take the first entry of `root`; when it is a
/// directory holding `rel`, that is the binary.  No fallback search: any
/// other shape reports not-found.
pub fn locate_known_layout(fs: &FsState, root: &PathBuf, rel: &PathBuf) -> (r: Option<PathBuf>)
    requires
        fs.wf(),
    ensures
        r matches Some(q) ==> exists|c: Seq<u8>|
            {
                &&& #[trigger] fs@.contains_key(root.deep_view().push(c))
                &&& fs@[root.deep_view().push(c)] is Dir
                &&& q.deep_view() == root.deep_view().push(c) + rel.deep_view()
                &&& fs@.contains_key(q.deep_view())
            },
        (forall|c: Seq<u8>| !fs@.contains_key(#[trigger] root.deep_view().push(c))) ==> r is None,
        forall|c: Seq<u8>|
            (#[trigger] spec_sole_child(fs@, root.deep_view(), c) && fs@[root.deep_view().push(c)]
                is Dir && fs@.contains_key(root.deep_view().push(c) + rel.deep_view())) ==> (r
                matches Some(q) && q.deep_view() == root.deep_view().push(c) + rel.deep_view()),
{
    let found = fs.first_child(root);
    match found {
        None => {
            proof {
                assert forall|c: Seq<u8>| !spec_sole_child(fs@, root.deep_view(), c) by {
                    assert(!fs@.contains_key(root.deep_view().push(c)));
                }
            }
            None
        },
        Some((name, is_dir)) => {
            if !is_dir {
                proof {
                    assert forall|c: Seq<u8>| #[trigger]
                        spec_sole_child(fs@, root.deep_view(), c) implies !(fs@[root.deep_view()
                        .push(c)] is Dir) by {
                        assert(fs@.contains_key(root.deep_view().push(name@)));
                        assert(c == name@);
                    }
                }
                return None;
            }
            let sub = path_push(root, &name);
            let q = path_concat(&sub, rel);
            if fs.exists_path(&q) {
                proof {
                    assert(fs@.contains_key(root.deep_view().push(name@)));
                }
                Some(q)
            } else {
                proof {
                    assert forall|c: Seq<u8>| #[trigger]
                        spec_sole_child(fs@, root.deep_view(), c) implies !fs@.contains_key(
                        root.deep_view().push(c) + rel.deep_view(),
                    ) by {
                        assert(fs@.contains_key(root.deep_view().push(name@)));
                        assert(c == name@);
                        assert(q.deep_view() == root.deep_view().push(c) + rel.deep_view());
                    }
                }
                None
            }
        },
    }
}

/// Recursive-search strategy: some file under `dir` whose name is exactly
/// `filename`; absence is not-found, never an error.
pub fn find_file(fs: &FsState, dir: &PathBuf, filename: &Vec<u8>) -> (r: Option<PathBuf>)
    requires
        fs.wf(),
    ensures
        match r {
            Some(q) => {
                &&& fs@.contains_key(q.deep_view())
                &&& fs@[q.deep_view()] is File
                &&& spec_under(q.deep_view(), dir.deep_view())
                &&& q.deep_view().last() == filename@
            },
            None => forall|q: Seq<Seq<u8>>|
                #[trigger] fs@.contains_key(q) && fs@[q] is File && spec_under(
                    q,
                    dir.deep_view(),
                ) ==> q.last() != filename@,
        },
{
    fs.find_file_named(dir, filename)
}

} // verus!
