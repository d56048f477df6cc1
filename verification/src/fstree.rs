//! An explicit directory-tree value.  The provisioning engine performs all of
//! its filesystem effects against this model, so each step carries an exact
//! contract; a thin unverified shim mirrors the resulting tree onto a real
//! disk.  The view of a tree is a map from component paths to nodes.

use vstd::prelude::*;

use crate::pathname::{
    bytes_eq, clone_bytes, clone_path, path_eq, path_starts_with, spec_starts_with, spec_under,
    PathBuf,
};

verus! {

/// One node of the tree: a directory, or a file with contents and an
/// executable-permission bit.
pub enum FsNode {
    Dir,
    File { data: Vec<u8>, executable: bool },
}

/// Mathematical image of one node.
pub enum FsNodeModel {
    Dir,
    File { data: Seq<u8>, executable: bool },
}

impl View for FsNode {
    type V = FsNodeModel;

    open spec fn view(&self) -> FsNodeModel {
        match self {
            FsNode::Dir => FsNodeModel::Dir,
            FsNode::File { data, executable } => FsNodeModel::File {
                data: data@,
                executable: *executable,
            },
        }
    }
}

/// One (path, node) binding.
struct FsEntry {
    path: PathBuf,
    node: FsNode,
}

/// A directory tree: a finite map from non-empty component paths to nodes.
/// The root itself is implicit and always a directory.
pub struct FsState {
    entries: Vec<FsEntry>,
}

impl View for FsState {
    type V = Map<Seq<Seq<u8>>, FsNodeModel>;

    closed spec fn view(&self) -> Map<Seq<Seq<u8>>, FsNodeModel> {
        map_of(self.entries@)
    }
}

/// Map denoted by a sequence of bindings; a later binding wins.
spec fn map_of(s: Seq<FsEntry>) -> Map<Seq<Seq<u8>>, FsNodeModel>
    decreases s.len(),
{
    if s.len() == 0 {
        Map::empty()
    } else {
        map_of(s.drop_last()).insert(s.last().path.deep_view(), s.last().node@)
    }
}

/// No two bindings share a path.
spec fn unique_paths(s: Seq<FsEntry>) -> bool {
    forall|i: int, j: int|
        0 <= i < j < s.len() ==> s[i].path.deep_view() != s[j].path.deep_view()
}

proof fn lemma_map_of_props(s: Seq<FsEntry>)
    requires
        unique_paths(s),
    ensures
        forall|q: Seq<Seq<u8>>|
            #[trigger] map_of(s).contains_key(q) <==> (exists|i: int|
                0 <= i < s.len() && s[i].path.deep_view() == q),
        forall|i: int|
            0 <= i < s.len() ==> map_of(s)[#[trigger] s[i].path.deep_view()] == s[i].node@,
    decreases s.len(),
{
    if s.len() > 0 {
        let pre = s.drop_last();
        assert(unique_paths(pre));
        lemma_map_of_props(pre);
        assert forall|q: Seq<Seq<u8>>| #[trigger] map_of(s).contains_key(q) implies (exists|i: int|
            0 <= i < s.len() && s[i].path.deep_view() == q) by {
            if q == s.last().path.deep_view() {
                assert(s[s.len() - 1].path.deep_view() == q);
            } else {
                assert(map_of(pre).contains_key(q));
                let i = choose|i: int| 0 <= i < pre.len() && pre[i].path.deep_view() == q;
                assert(s[i].path.deep_view() == q);
            }
        }
        assert forall|q: Seq<Seq<u8>>|
            (exists|i: int| 0 <= i < s.len() && s[i].path.deep_view() == q) implies #[trigger]
        map_of(s).contains_key(q) by {
            let i = choose|i: int| 0 <= i < s.len() && s[i].path.deep_view() == q;
            if i < s.len() - 1 {
                assert(pre[i].path.deep_view() == q);
            }
        }
        assert forall|i: int| 0 <= i < s.len() implies map_of(s)[#[trigger] s[i]
            .path
            .deep_view()] == s[i].node@ by {
            if i < s.len() - 1 {
                assert(s[i].path.deep_view() != s[s.len() - 1].path.deep_view());
                assert(pre[i].path.deep_view() == s[i].path.deep_view());
            }
        }
    }
}

proof fn lemma_map_of_push(s: Seq<FsEntry>, e: FsEntry)
    ensures
        map_of(s.push(e)) == map_of(s).insert(e.path.deep_view(), e.node@),
{
    assert(s.push(e).drop_last() =~= s);
    assert(s.push(e).last() == e);
}

proof fn lemma_map_of_update(s: Seq<FsEntry>, i: int, e: FsEntry)
    requires
        unique_paths(s),
        0 <= i < s.len(),
        e.path.deep_view() == s[i].path.deep_view(),
    ensures
        map_of(s.update(i, e)) == map_of(s).insert(e.path.deep_view(), e.node@),
        unique_paths(s.update(i, e)),
    decreases s.len(),
{
    let t = s.update(i, e);
    assert(unique_paths(t));
    if i == s.len() - 1 {
        assert(t.drop_last() =~= s.drop_last());
        assert(t.last() == e);
        assert(map_of(t) == map_of(s.drop_last()).insert(e.path.deep_view(), e.node@));
        assert(map_of(s) == map_of(s.drop_last()).insert(
            s.last().path.deep_view(),
            s.last().node@,
        ));
        assert(map_of(s).insert(e.path.deep_view(), e.node@) =~= map_of(s.drop_last()).insert(
            e.path.deep_view(),
            e.node@,
        ));
    } else {
        let pre = s.drop_last();
        assert(unique_paths(pre));
        assert(t.drop_last() =~= pre.update(i, e));
        assert(t.last() == s.last());
        lemma_map_of_update(pre, i, e);
        assert(map_of(t) == map_of(pre).insert(e.path.deep_view(), e.node@).insert(
            s.last().path.deep_view(),
            s.last().node@,
        ));
        assert(s.last().path.deep_view() != e.path.deep_view()) by {
            assert(s[i].path.deep_view() != s[s.len() - 1].path.deep_view());
        }
        assert(map_of(pre).insert(e.path.deep_view(), e.node@).insert(
            s.last().path.deep_view(),
            s.last().node@,
        ) =~= map_of(pre).insert(s.last().path.deep_view(), s.last().node@).insert(
            e.path.deep_view(),
            e.node@,
        ));
    }
}

/// A non-empty prefix of `p`.
pub open spec fn spec_is_nonempty_prefix(q: Seq<Seq<u8>>, p: Seq<Seq<u8>>) -> bool {
    1 <= q.len() <= p.len() && q == p.take(q.len() as int)
}

proof fn lemma_nonempty_prefix_step(pv: Seq<Seq<u8>>, k: int)
    requires
        0 <= k < pv.len(),
    ensures
        forall|q: Seq<Seq<u8>>|
            #[trigger] spec_is_nonempty_prefix(q, pv.take(k + 1)) <==> (spec_is_nonempty_prefix(
                q,
                pv.take(k),
            ) || q == pv.take(k + 1)),
{
    assert forall|q: Seq<Seq<u8>>| #[trigger]
        spec_is_nonempty_prefix(q, pv.take(k + 1)) implies (spec_is_nonempty_prefix(q, pv.take(k))
        || q == pv.take(k + 1)) by {
        if q.len() <= k {
            assert(pv.take(k + 1).take(q.len() as int) =~= pv.take(k).take(q.len() as int));
        } else {
            assert(pv.take(k + 1).take(q.len() as int) =~= pv.take(k + 1));
        }
    }
    assert forall|q: Seq<Seq<u8>>|
        (spec_is_nonempty_prefix(q, pv.take(k)) || q == pv.take(k + 1)) implies #[trigger]
    spec_is_nonempty_prefix(q, pv.take(k + 1)) by {
        if spec_is_nonempty_prefix(q, pv.take(k)) {
            assert(pv.take(k + 1).take(q.len() as int) =~= pv.take(k).take(q.len() as int));
        } else {
            assert(pv.take(k + 1).take(pv.take(k + 1).len() as int) =~= pv.take(k + 1));
        }
    }
}

/// Every non-empty prefix of `p` that is bound in `m` is bound to a
/// directory: the condition under which directories can be created along `p`.
pub open spec fn spec_dirs_ok(m: Map<Seq<Seq<u8>>, FsNodeModel>, p: Seq<Seq<u8>>) -> bool {
    forall|k: int|
        1 <= k <= p.len() && #[trigger] m.contains_key(p.take(k)) ==> m[p.take(k)] is Dir
}

/// `m` with a directory bound at every non-empty prefix of `p` that was
/// unbound.
pub open spec fn spec_with_dirs(
    m: Map<Seq<Seq<u8>>, FsNodeModel>,
    p: Seq<Seq<u8>>,
) -> Map<Seq<Seq<u8>>, FsNodeModel> {
    Map::new(
        |q: Seq<Seq<u8>>| m.contains_key(q) || spec_is_nonempty_prefix(q, p),
        |q: Seq<Seq<u8>>|
            if m.contains_key(q) {
                m[q]
            } else {
                FsNodeModel::Dir
            },
    )
}

/// Whether a file can be written at `p` in `m`: the path is non-empty, its
/// parent (when not the root) is a directory, and `p` itself is not a
/// directory.
pub open spec fn spec_can_write(m: Map<Seq<Seq<u8>>, FsNodeModel>, p: Seq<Seq<u8>>) -> bool {
    &&& p.len() >= 1
    &&& (p.len() == 1 || (m.contains_key(p.drop_last()) && m[p.drop_last()] is Dir))
    &&& !(m.contains_key(p) && m[p] is Dir)
}

/// The node written by a file write: fresh contents; the executable bit of an
/// overwritten file is kept, a new file starts non-executable.
pub open spec fn spec_written_node(
    m: Map<Seq<Seq<u8>>, FsNodeModel>,
    p: Seq<Seq<u8>>,
    data: Seq<u8>,
) -> FsNodeModel {
    FsNodeModel::File {
        data,
        executable: m.contains_key(p) && match m[p] {
            FsNodeModel::File { executable, .. } => executable,
            FsNodeModel::Dir => false,
        },
    }
}

/// A node with its executable bit set.
pub open spec fn spec_set_exec(n: FsNodeModel) -> FsNodeModel {
    match n {
        FsNodeModel::File { data, .. } => FsNodeModel::File { data, executable: true },
        FsNodeModel::Dir => FsNodeModel::Dir,
    }
}

/// The two trees agree everywhere outside `root`: every path that neither
/// starts with `root` nor is a non-empty prefix of it (a parent directory
/// `root` creation may bind) carries the same binding in both.
pub open spec fn spec_agrees_outside(
    m0: Map<Seq<Seq<u8>>, FsNodeModel>,
    m1: Map<Seq<Seq<u8>>, FsNodeModel>,
    root: Seq<Seq<u8>>,
) -> bool {
    forall|q: Seq<Seq<u8>>|
        #![trigger m0.contains_key(q)]
        #![trigger m1.contains_key(q)]
        !spec_starts_with(q, root) && !spec_is_nonempty_prefix(q, root) ==> (m1.contains_key(q)
            == m0.contains_key(q) && (m0.contains_key(q) ==> m1[q] == m0[q]))
}

pub proof fn lemma_agrees_outside_refl(m: Map<Seq<Seq<u8>>, FsNodeModel>, root: Seq<Seq<u8>>)
    ensures
        spec_agrees_outside(m, m, root),
{
}

pub proof fn lemma_agrees_outside_trans(
    a: Map<Seq<Seq<u8>>, FsNodeModel>,
    b: Map<Seq<Seq<u8>>, FsNodeModel>,
    c: Map<Seq<Seq<u8>>, FsNodeModel>,
    root: Seq<Seq<u8>>,
)
    requires
        spec_agrees_outside(a, b, root),
        spec_agrees_outside(b, c, root),
    ensures
        spec_agrees_outside(a, c, root),
{
}

/// Creating directories along a path under `root` binds nothing outside it.
pub proof fn lemma_with_dirs_agrees(
    m: Map<Seq<Seq<u8>>, FsNodeModel>,
    p: Seq<Seq<u8>>,
    root: Seq<Seq<u8>>,
)
    requires
        spec_starts_with(p, root),
    ensures
        spec_agrees_outside(m, spec_with_dirs(m, p), root),
{
    assert forall|q: Seq<Seq<u8>>|
        !spec_starts_with(q, root) && !spec_is_nonempty_prefix(q, root) implies !(
    #[trigger] spec_is_nonempty_prefix(q, p)) by {
        if spec_is_nonempty_prefix(q, p) {
            if q.len() < root.len() {
                assert(p.take(q.len() as int) =~= root.take(q.len() as int));
            } else {
                assert(q.subrange(0, root.len() as int) =~= p.subrange(0, root.len() as int));
            }
        }
    }
}

/// A binding inserted under `root` changes nothing outside it.
pub proof fn lemma_insert_agrees(
    m: Map<Seq<Seq<u8>>, FsNodeModel>,
    k: Seq<Seq<u8>>,
    n: FsNodeModel,
    root: Seq<Seq<u8>>,
)
    requires
        spec_starts_with(k, root),
    ensures
        spec_agrees_outside(m, m.insert(k, n), root),
{
}

/// A binding removed under `root` changes nothing outside it.
pub proof fn lemma_remove_agrees(
    m: Map<Seq<Seq<u8>>, FsNodeModel>,
    k: Seq<Seq<u8>>,
    root: Seq<Seq<u8>>,
)
    requires
        spec_starts_with(k, root),
    ensures
        spec_agrees_outside(m, m.remove(k), root),
{
}

/// Removing everything under `root` changes nothing outside it.
pub proof fn lemma_remove_keys_agrees(m: Map<Seq<Seq<u8>>, FsNodeModel>, root: Seq<Seq<u8>>)
    ensures
        spec_agrees_outside(
            m,
            m.remove_keys(Set::new(|q: Seq<Seq<u8>>| spec_starts_with(q, root))),
            root,
        ),
{
}

impl FsState {
    /// The bindings are internally consistent.
    pub closed spec fn wf(self) -> bool {
        &&& unique_paths(self.entries@)
        &&& forall|i: int| 0 <= i < self.entries@.len() ==> self.entries@[i].path@.len() >= 1
    }

    /// A tree with no bindings.
    pub fn empty() -> (r: FsState)
        ensures
            r.wf(),
            r@ == Map::<Seq<Seq<u8>>, FsNodeModel>::empty(),
    {
        FsState { entries: Vec::new() }
    }

    /// Index of the binding for `p`, if any.
    fn index_of(&self, p: &PathBuf) -> (r: Option<usize>)
        requires
            self.wf(),
        ensures
            match r {
                Some(i) => i < self.entries@.len() && self.entries@[i as int].path.deep_view()
                    == p.deep_view() && self@.contains_key(p.deep_view())
                    && self@[p.deep_view()] == self.entries@[i as int].node@,
                None => !self@.contains_key(p.deep_view()),
            },
    {
        proof {
            lemma_map_of_props(self.entries@);
        }
        let mut i: usize = 0;
        while i < self.entries.len()
            invariant
                i <= self.entries@.len(),
                self.wf(),
                forall|j: int| 0 <= j < i ==> self.entries@[j].path.deep_view() != p.deep_view(),
            decreases self.entries@.len() - i,
        {
            if path_eq(&self.entries[i].path, p) {
                proof {
                    lemma_map_of_props(self.entries@);
                }
                return Some(i);
            }
            i += 1;
        }
        proof {
            if self@.contains_key(p.deep_view()) {
                lemma_map_of_props(self.entries@);
            }
        }
        None
    }

    /// The node bound at `p`, if any.
    pub fn lookup(&self, p: &PathBuf) -> (r: Option<&FsNode>)
        requires
            self.wf(),
        ensures
            match r {
                Some(n) => self@.contains_key(p.deep_view()) && n@ == self@[p.deep_view()],
                None => !self@.contains_key(p.deep_view()),
            },
    {
        match self.index_of(p) {
            Some(i) => Some(&self.entries[i].node),
            None => None,
        }
    }

    /// Whether a file is bound at `p`.
    pub fn is_file(&self, p: &PathBuf) -> (r: bool)
        requires
            self.wf(),
        ensures
            r == (self@.contains_key(p.deep_view()) && self@[p.deep_view()] is File),
    {
        match self.lookup(p) {
            Some(n) => matches!(n, FsNode::File { .. }),
            None => false,
        }
    }

    /// Whether a directory is bound at `p`.
    pub fn is_dir(&self, p: &PathBuf) -> (r: bool)
        requires
            self.wf(),
        ensures
            r == (self@.contains_key(p.deep_view()) && self@[p.deep_view()] is Dir),
    {
        match self.lookup(p) {
            Some(n) => matches!(n, FsNode::Dir),
            None => false,
        }
    }

    /// Whether anything is bound at `p`.
    pub fn exists_path(&self, p: &PathBuf) -> (r: bool)
        requires
            self.wf(),
        ensures
            r == self@.contains_key(p.deep_view()),
    {
        self.lookup(p).is_some()
    }

    /// Whether an executable file is bound at `p`.
    pub fn is_executable_file(&self, p: &PathBuf) -> (r: bool)
        requires
            self.wf(),
        ensures
            r == (self@.contains_key(p.deep_view()) && self@[p.deep_view()] matches
                FsNodeModel::File { executable: true, .. }),
    {
        match self.lookup(p) {
            Some(FsNode::File { executable, .. }) => *executable,
            _ => false,
        }
    }

    /// The contents of the file bound at `p`, if a file is bound there.
    pub fn read_file(&self, p: &PathBuf) -> (r: Option<&Vec<u8>>)
        requires
            self.wf(),
        ensures
            match r {
                Some(d) => self@.contains_key(p.deep_view()) && (self@[p.deep_view()] matches
                    FsNodeModel::File { data, .. } && d@ == data),
                None => !(self@.contains_key(p.deep_view()) && self@[p.deep_view()] is File),
            },
    {
        match self.lookup(p) {
            Some(FsNode::File { data, .. }) => Some(data),
            _ => None,
        }
    }

    /// Bind `n` at `p`, replacing any previous binding.
    fn insert_node(&mut self, p: &PathBuf, n: FsNode)
        requires
            old(self).wf(),
            p@.len() >= 1,
        ensures
            final(self).wf(),
            final(self)@ == old(self)@.insert(p.deep_view(), n@),
    {
        proof {
            lemma_map_of_props(self.entries@);
        }
        let np = clone_path(p);
        proof {
            crate::pathname::lemma_deep_view_elems(np);
            crate::pathname::lemma_deep_view_elems(*p);
            assert(np@.len() == p@.len());
        }
        match self.index_of(p) {
            Some(i) => {
                let ghost s0 = self.entries@;
                let e = FsEntry { path: np, node: n };
                let ghost e0 = e;
                proof {
                    lemma_map_of_update(s0, i as int, e0);
                }
                self.entries[i] = e;
                proof {
                    assert(self.entries@ == s0.update(i as int, e0));
                    assert(forall|ix: int|
                        0 <= ix < self.entries@.len() ==> self.entries@[ix].path@.len() >= 1);
                }
            },
            None => {
                let ghost s0 = self.entries@;
                let e = FsEntry { path: np, node: n };
                let ghost e0 = e;
                proof {
                    lemma_map_of_push(s0, e0);
                    assert forall|a: int, b: int|
                        0 <= a < b < s0.push(e0).len() implies s0.push(e0)[a].path.deep_view()
                        != s0.push(e0)[b].path.deep_view() by {
                        if b == s0.len() {
                            lemma_map_of_props(s0);
                        }
                    }
                }
                self.entries.push(e);
                proof {
                    assert(self.entries@ == s0.push(e0));
                    assert(forall|ix: int|
                        0 <= ix < self.entries@.len() ==> self.entries@[ix].path@.len() >= 1);
                }
            },
        }
    }

    /// Create a directory at every non-empty prefix of `p` that is not yet
    /// bound; fails, changing nothing, when some prefix is already bound to a
    /// file.
    pub fn create_dir_all(&mut self, p: &PathBuf) -> (r: Result<(), ()>)
        requires
            old(self).wf(),
        ensures
            final(self).wf(),
            r is Ok <==> spec_dirs_ok(old(self)@, p.deep_view()),
            r is Ok ==> final(self)@ == spec_with_dirs(old(self)@, p.deep_view()),
            r is Err ==> final(self)@ == old(self)@,
    {
        let ghost m0 = self@;
        let ghost pv = p.deep_view();
        proof {
            crate::pathname::lemma_deep_view_elems(*p);
        }
        let mut k: usize = 0;
        let mut prefix: PathBuf = Vec::new();
        proof {
            assert(prefix.deep_view() =~= pv.take(0));
        }
        while k < p.len()
            invariant
                pv == p.deep_view(),
                m0 == old(self)@,
                m0 == self@,
                self.wf(),
                k <= p@.len(),
                p@.len() == pv.len(),
                forall|j: int| 0 <= j < p@.len() ==> pv[j] == p@[j]@,
                prefix@.len() == k,
                prefix.deep_view() == pv.take(k as int),
                forall|j: int|
                    1 <= j <= k && #[trigger] m0.contains_key(pv.take(j)) ==> m0[pv.take(j)] is Dir,
            decreases p@.len() - k,
        {
            let c = clone_bytes(&p[k]);
            let ghost pref0 = prefix.deep_view();
            let ghost pvec0 = prefix@;
            proof {
                crate::pathname::lemma_deep_view_elems(prefix);
            }
            prefix.push(c);
            proof {
                assert forall|j: int| 0 <= j < pvec0.len() implies prefix@[j]@ == pref0.push(
                    pv[k as int],
                )[j] by {
                    assert(prefix@[j] == pvec0[j]);
                }
                assert(prefix@[pvec0.len() as int]@ == pv[k as int]);
                crate::pathname::lemma_deep_view_is(prefix, pref0.push(pv[k as int]));
                assert(prefix.deep_view() =~= pv.take(k + 1 as int));
            }
            let is_plain_file = match self.lookup(&prefix) {
                Some(FsNode::File { .. }) => true,
                _ => false,
            };
            if is_plain_file {
                proof {
                    assert(m0.contains_key(pv.take(k + 1)) && m0[pv.take(k + 1)] is File);
                    assert(!spec_dirs_ok(m0, pv)) by {
                        assert(1 <= k + 1 <= pv.len() && m0.contains_key(pv.take(k + 1)));
                    }
                }
                return Err(());
            }
            proof {
                assert(m0.contains_key(pv.take(k + 1)) ==> m0[pv.take(k + 1)] is Dir);
            }
            k += 1;
        }
        proof {
            assert(pv.take(pv.len() as int) =~= pv);
            assert(spec_dirs_ok(m0, pv));
        }
        let mut k2: usize = 0;
        let mut prefix2: PathBuf = Vec::new();
        proof {
            assert(prefix2.deep_view() =~= pv.take(0));
            assert(self@ =~= spec_with_dirs(m0, pv.take(0))) by {
                assert forall|q: Seq<Seq<u8>>| !spec_is_nonempty_prefix(q, pv.take(0)) by {}
            }
        }
        while k2 < p.len()
            invariant
                pv == p.deep_view(),
                m0 == old(self)@,
                spec_dirs_ok(m0, pv),
                self.wf(),
                k2 <= p@.len(),
                p@.len() == pv.len(),
                forall|j: int| 0 <= j < p@.len() ==> pv[j] == p@[j]@,
                prefix2@.len() == k2,
                prefix2.deep_view() == pv.take(k2 as int),
                self@ == spec_with_dirs(m0, pv.take(k2 as int)),
            decreases p@.len() - k2,
        {
            let c = clone_bytes(&p[k2]);
            let ghost pref0 = prefix2.deep_view();
            let ghost pvec0 = prefix2@;
            proof {
                crate::pathname::lemma_deep_view_elems(prefix2);
            }
            prefix2.push(c);
            proof {
                assert forall|j: int| 0 <= j < pvec0.len() implies prefix2@[j]@ == pref0.push(
                    pv[k2 as int],
                )[j] by {
                    assert(prefix2@[j] == pvec0[j]);
                }
                assert(prefix2@[pvec0.len() as int]@ == pv[k2 as int]);
                crate::pathname::lemma_deep_view_is(prefix2, pref0.push(pv[k2 as int]));
                assert(prefix2.deep_view() =~= pv.take(k2 + 1 as int));
                lemma_nonempty_prefix_step(pv, k2 as int);
            }
            let ghost mcur = self@;
            let ghost step = pv.take(k2 + 1 as int);
            if !self.exists_path(&prefix2) {
                proof {
                    assert(!m0.contains_key(step)) by {
                        if m0.contains_key(step) {
                            assert(mcur.contains_key(step));
                        }
                    }
                }
                self.insert_node(&prefix2, FsNode::Dir);
                proof {
                    assert(self@ == mcur.insert(step, FsNodeModel::Dir));
                    assert(self@ =~= spec_with_dirs(m0, step));
                }
            } else {
                proof {
                    assert(mcur.contains_key(step));
                    assert(self@ =~= spec_with_dirs(m0, step));
                }
            }
            k2 += 1;
        }
        proof {
            assert(pv.take(pv.len() as int) =~= pv);
        }
        Ok(())
    }

    /// Write a file at `p`; parents must already be directories.  Overwriting
    /// keeps the executable bit of the file that was there.
    pub fn write_file(&mut self, p: &PathBuf, data: Vec<u8>) -> (r: Result<(), ()>)
        requires
            old(self).wf(),
        ensures
            final(self).wf(),
            r is Ok <==> spec_can_write(old(self)@, p.deep_view()),
            r is Ok ==> final(self)@ == old(self)@.insert(
                p.deep_view(),
                spec_written_node(old(self)@, p.deep_view(), data@),
            ),
            r is Err ==> final(self)@ == old(self)@,
    {
        if p.len() == 0 {
            return Err(());
        }
        if p.len() > 1 {
            let parent = crate::pathname::path_parent(p);
            proof {
                assert(crate::pathname::spec_parent(p.deep_view()) == p.deep_view().drop_last());
            }
            if !self.is_dir(&parent) {
                return Err(());
            }
        }
        let executable = match self.lookup(p) {
            Some(FsNode::Dir) => {
                return Err(());
            },
            Some(FsNode::File { executable, .. }) => *executable,
            None => false,
        };
        self.insert_node(p, FsNode::File { data, executable });
        Ok(())
    }

    /// Set the executable bit of the file at `p`.  On a directory the bits
    /// are left alone; an unbound path is the one failure.
    pub fn set_executable(&mut self, p: &PathBuf) -> (r: Result<(), ()>)
        requires
            old(self).wf(),
        ensures
            final(self).wf(),
            r is Ok <==> old(self)@.contains_key(p.deep_view()),
            r is Ok ==> final(self)@ == old(self)@.insert(
                p.deep_view(),
                spec_set_exec(old(self)@[p.deep_view()]),
            ),
            r is Err ==> final(self)@ == old(self)@,
    {
        match self.index_of(p) {
            Some(i) => {
                if p.len() == 0 {
                    proof {
                        assert(self.entries@[i as int].path@.len() >= 1);
                        assert(self.entries@[i as int].path.deep_view().len()
                            == self.entries@[i as int].path@.len()) by {
                            crate::pathname::lemma_deep_view_elems(self.entries@[i as int].path);
                        }
                        assert(p.deep_view().len() == 0) by {
                            crate::pathname::lemma_deep_view_elems(*p);
                        }
                        assert(false);
                    }
                }
                match &self.entries[i].node {
                    FsNode::File { data, .. } => {
                        let d = clone_bytes(data);
                        self.insert_node(p, FsNode::File { data: d, executable: true });
                        Ok(())
                    },
                    FsNode::Dir => {
                        proof {
                            assert(self@ =~= self@.insert(
                                p.deep_view(),
                                spec_set_exec(self@[p.deep_view()]),
                            ));
                        }
                        Ok(())
                    },
                }
            },
            None => Err(()),
        }
    }

    /// Remove the file at `p` if one is there; absence or a directory is left
    /// as it stands.  Returns whether a file was removed.
    pub fn remove_file(&mut self, p: &PathBuf) -> (r: bool)
        requires
            old(self).wf(),
        ensures
            final(self).wf(),
            r == (old(self)@.contains_key(p.deep_view()) && old(self)@[p.deep_view()] is File),
            r ==> final(self)@ == old(self)@.remove(p.deep_view()),
            !r ==> final(self)@ == old(self)@,
    {
        proof {
            lemma_map_of_props(self.entries@);
        }
        match self.index_of(p) {
            Some(i) => {
                match &self.entries[i].node {
                    FsNode::File { .. } => {
                        let ghost s0 = self.entries@;
                        self.entries.remove(i);
                        proof {
                            lemma_map_of_remove_at(s0, i as int);
                        }
                        true
                    },
                    FsNode::Dir => false,
                }
            },
            None => false,
        }
    }

    /// Remove everything at or under `p`: the binding at `p` itself and every
    /// binding whose path starts with `p`.  Absence is success.
    pub fn remove_tree(&mut self, p: &PathBuf)
        requires
            old(self).wf(),
        ensures
            final(self).wf(),
            final(self)@ == old(self)@.remove_keys(
                Set::new(|q: Seq<Seq<u8>>| spec_starts_with(q, p.deep_view())),
            ),
    {
        let ghost pv = p.deep_view();
        let ghost s0 = self.entries@;
        proof {
            lemma_map_of_props(s0);
        }
        let mut kept: Vec<FsEntry> = Vec::new();
        let mut i: usize = 0;
        proof {
            assert(s0.take(0) =~= Seq::<FsEntry>::empty());
            assert(map_of(kept@) =~= map_of(s0.take(0)).remove_keys(
                Set::new(|q: Seq<Seq<u8>>| spec_starts_with(q, pv)),
            ));
        }
        while i < self.entries.len()
            invariant
                pv == p.deep_view(),
                i <= s0.len(),
                self.entries@ == s0,
                self.wf(),
                unique_paths(kept@),
                forall|j: int| 0 <= j < kept@.len() ==> kept@[j].path@.len() >= 1,
                forall|j: int|
                    0 <= j < kept@.len() ==> exists|k: int|
                        0 <= k < s0.len() && #[trigger] kept@[j].path.deep_view() == s0[k]
                            .path
                            .deep_view(),
                map_of(kept@) == map_of(s0.take(i as int)).remove_keys(
                    Set::new(|q: Seq<Seq<u8>>| spec_starts_with(q, pv)),
                ),
            decreases s0.len() - i,
        {
            let e = &self.entries[i];
            let ghost kept0 = kept@;
            proof {
                assert(s0.take(i + 1 as int).drop_last() =~= s0.take(i as int));
                assert(s0.take(i + 1 as int).last() == s0[i as int]);
            }
            if !path_starts_with(&e.path, p) {
                let ne = FsEntry { path: clone_path(&e.path), node: clone_node(&e.node) };
                proof {
                    lemma_map_of_push(kept0, ne);
                    assert forall|a: int, b: int|
                        0 <= a < b < kept0.push(ne).len() implies kept0.push(ne)[a]
                        .path
                        .deep_view() != kept0.push(ne)[b].path.deep_view() by {
                        if b == kept0.len() {
                            lemma_map_of_props(kept0);
                            if kept0[a].path.deep_view() == ne.path.deep_view() {
                                assert(map_of(kept0).contains_key(kept0[a].path.deep_view()));
                                assert(map_of(s0.take(i as int)).contains_key(
                                    ne.path.deep_view(),
                                ));
                                lemma_map_of_props(s0.take(i as int));
                                let k = choose|k: int|
                                    0 <= k < i && s0.take(i as int)[k].path.deep_view() == ne
                                        .path
                                        .deep_view();
                                assert(s0[k].path.deep_view() == s0[i as int].path.deep_view());
                            }
                        }
                    }
                }
                let ghost ne0 = ne;
                kept.push(ne);
                proof {
                    assert(kept@ == kept0.push(ne0));
                    assert(map_of(kept@) == map_of(kept0).insert(ne0.path.deep_view(), ne0.node@));
                    assert(map_of(s0.take(i + 1 as int)) == map_of(s0.take(i as int)).insert(
                        s0[i as int].path.deep_view(),
                        s0[i as int].node@,
                    ));
                    assert(ne0.path.deep_view() == s0[i as int].path.deep_view());
                    assert(ne0.node@ == s0[i as int].node@);
                    assert(!spec_starts_with(ne0.path.deep_view(), pv));
                    assert(map_of(kept@) =~= map_of(s0.take(i + 1 as int)).remove_keys(
                        Set::new(|q: Seq<Seq<u8>>| spec_starts_with(q, pv)),
                    ));
                }
            } else {
                proof {
                    assert(map_of(s0.take(i + 1 as int)) == map_of(s0.take(i as int)).insert(
                        s0[i as int].path.deep_view(),
                        s0[i as int].node@,
                    ));
                    assert(spec_starts_with(s0[i as int].path.deep_view(), pv));
                    assert(map_of(kept@) =~= map_of(s0.take(i + 1 as int)).remove_keys(
                        Set::new(|q: Seq<Seq<u8>>| spec_starts_with(q, pv)),
                    ));
                }
            }
            i += 1;
        }
        proof {
            assert(s0.take(s0.len() as int) =~= s0);
        }
        self.entries = kept;
    }

    /// Some immediate child of `p`, with whether it is a directory: the first
    /// binding, in an order the tree does not expose, one component below
    /// `p`.  `None` exactly when `p` has no bound child.
    pub fn first_child(&self, p: &PathBuf) -> (r: Option<(Vec<u8>, bool)>)
        requires
            self.wf(),
        ensures
            match r {
                Some((name, d)) => self@.contains_key(p.deep_view().push(name@)) && (d <==> self@[
                    p.deep_view().push(name@)] is Dir),
                None => forall|c: Seq<u8>| !self@.contains_key(#[trigger] p.deep_view().push(c)),
            },
    {
        proof {
            lemma_map_of_props(self.entries@);
        }
        let mut i: usize = 0;
        while i < self.entries.len()
            invariant
                i <= self.entries@.len(),
                self.wf(),
                forall|j: int|
                    0 <= j < i ==> !(#[trigger] self.entries@[j].path.deep_view().len()
                        == p.deep_view().len() + 1 && spec_starts_with(
                        self.entries@[j].path.deep_view(),
                        p.deep_view(),
                    )),
            decreases self.entries@.len() - i,
        {
            let e = &self.entries[i];
            if e.path.len() > p.len() && e.path.len() - p.len() == 1 && path_starts_with(
                &e.path,
                p,
            ) {
                proof {
                    crate::pathname::lemma_deep_view_elems(e.path);
                    crate::pathname::lemma_deep_view_elems(*p);
                }
                let name = clone_bytes(&e.path[p.len()]);
                let d = matches!(&e.node, FsNode::Dir);
                proof {
                    assert(e.path.deep_view() =~= p.deep_view().push(name@));
                    lemma_map_of_props(self.entries@);
                }
                return Some((name, d));
            }
            i += 1;
        }
        proof {
            assert forall|c: Seq<u8>| !self@.contains_key(#[trigger] p.deep_view().push(c)) by {
                if self@.contains_key(p.deep_view().push(c)) {
                    lemma_map_of_props(self.entries@);
                    let j = choose|j: int|
                        0 <= j < self.entries@.len() && self.entries@[j].path.deep_view() == p
                            .deep_view()
                            .push(c);
                    assert(self.entries@[j].path.deep_view().len() == p.deep_view().len() + 1);
                    assert(self.entries@[j].path.deep_view().subrange(
                        0,
                        p.deep_view().len() as int,
                    ) =~= p.deep_view());
                }
            }
        }
        None
    }

    /// Some file strictly under `root` whose last component is `name`;
    /// `None` exactly when no such file is bound.
    pub fn find_file_named(&self, root: &PathBuf, name: &Vec<u8>) -> (r: Option<PathBuf>)
        requires
            self.wf(),
        ensures
            match r {
                Some(q) => {
                    &&& self@.contains_key(q.deep_view())
                    &&& self@[q.deep_view()] is File
                    &&& spec_under(q.deep_view(), root.deep_view())
                    &&& q.deep_view().last() == name@
                },
                None => forall|q: Seq<Seq<u8>>|
                    #[trigger] self@.contains_key(q) && self@[q] is File && spec_under(
                        q,
                        root.deep_view(),
                    ) ==> q.last() != name@,
            },
    {
        proof {
            lemma_map_of_props(self.entries@);
        }
        let mut i: usize = 0;
        while i < self.entries.len()
            invariant
                i <= self.entries@.len(),
                self.wf(),
                forall|j: int|
                    0 <= j < i ==> !(#[trigger] self.entries@[j].node@ is File && spec_under(
                        self.entries@[j].path.deep_view(),
                        root.deep_view(),
                    ) && self.entries@[j].path.deep_view().last() == name@),
            decreases self.entries@.len() - i,
        {
            let e = &self.entries[i];
            let is_file = matches!(&e.node, FsNode::File { .. });
            if is_file && e.path.len() > root.len() && path_starts_with(&e.path, root) {
                proof {
                    crate::pathname::lemma_deep_view_elems(e.path);
                }
                if bytes_eq(&e.path[e.path.len() - 1], name) {
                    let q = clone_path(&e.path);
                    proof {
                        lemma_map_of_props(self.entries@);
                        assert(e.path.deep_view().last() == e.path@[e.path@.len() - 1]@);
                    }
                    return Some(q);
                }
            }
            proof {
                crate::pathname::lemma_deep_view_elems(e.path);
            }
            i += 1;
        }
        proof {
            assert forall|q: Seq<Seq<u8>>|
                #[trigger] self@.contains_key(q) && self@[q] is File && spec_under(
                    q,
                    root.deep_view(),
                ) implies q.last() != name@ by {
                lemma_map_of_props(self.entries@);
                let j = choose|j: int|
                    0 <= j < self.entries@.len() && self.entries@[j].path.deep_view() == q;
            }
        }
        None
    }
}

impl FsState {
    /// Every binding of the tree, as plain values: what a shell walks to
    /// mirror the tree onto a real filesystem.
    pub fn export(&self) -> (r: Vec<(PathBuf, FsNode)>)
        requires
            self.wf(),
        ensures
            forall|i: int|
                0 <= i < r@.len() ==> self@.contains_key(#[trigger] r@[i].0.deep_view())
                    && self@[r@[i].0.deep_view()] == r@[i].1@,
            forall|q: Seq<Seq<u8>>|
                #[trigger] self@.contains_key(q) ==> exists|i: int|
                    0 <= i < r@.len() && (#[trigger] r@[i]).0.deep_view() == q,
    {
        proof {
            lemma_map_of_props(self.entries@);
        }
        let mut r: Vec<(PathBuf, FsNode)> = Vec::new();
        let mut i: usize = 0;
        while i < self.entries.len()
            invariant
                self.wf(),
                i <= self.entries@.len(),
                r@.len() == i,
                forall|j: int|
                    0 <= j < i ==> (#[trigger] r@[j]).0.deep_view() == self.entries@[j]
                        .path
                        .deep_view() && r@[j].1@ == self.entries@[j].node@,
            decreases self.entries@.len() - i,
        {
            let e = &self.entries[i];
            let pair = (clone_path(&e.path), clone_node(&e.node));
            r.push(pair);
            i += 1;
        }
        proof {
            lemma_map_of_props(self.entries@);
            assert forall|q: Seq<Seq<u8>>| #[trigger] self@.contains_key(q) implies exists|j: int|
                0 <= j < r@.len() && (#[trigger] r@[j]).0.deep_view() == q by {
                let j = choose|j: int|
                    0 <= j < self.entries@.len() && self.entries@[j].path.deep_view() == q;
                assert(r@[j].0.deep_view() == q);
            }
        }
        r
    }
}

/// `m2` is `m1` with some executable bits raised and nothing else changed.
pub open spec fn spec_exec_upgrade(
    m1: Map<Seq<Seq<u8>>, FsNodeModel>,
    m2: Map<Seq<Seq<u8>>, FsNodeModel>,
) -> bool {
    &&& m2.dom() == m1.dom()
    &&& forall|q: Seq<Seq<u8>>|
        #[trigger] m1.contains_key(q) ==> (match (m1[q], m2[q]) {
            (
                FsNodeModel::File { data: d1, executable: e1 },
                FsNodeModel::File { data: d2, executable: e2 },
            ) => d1 == d2 && (e1 ==> e2),
            (FsNodeModel::Dir, FsNodeModel::Dir) => true,
            _ => false,
        })
}

pub proof fn lemma_exec_upgrade_refl(m: Map<Seq<Seq<u8>>, FsNodeModel>)
    ensures
        spec_exec_upgrade(m, m),
{
}

pub proof fn lemma_exec_upgrade_chmod(m: Map<Seq<Seq<u8>>, FsNodeModel>, p: Seq<Seq<u8>>)
    requires
        m.contains_key(p),
    ensures
        spec_exec_upgrade(m, m.insert(p, spec_set_exec(m[p]))),
{
    assert(m.insert(p, spec_set_exec(m[p])).dom() =~= m.dom());
}

pub proof fn lemma_exec_upgrade_trans(
    a: Map<Seq<Seq<u8>>, FsNodeModel>,
    b: Map<Seq<Seq<u8>>, FsNodeModel>,
    c: Map<Seq<Seq<u8>>, FsNodeModel>,
)
    requires
        spec_exec_upgrade(a, b),
        spec_exec_upgrade(b, c),
    ensures
        spec_exec_upgrade(a, c),
{
    assert forall|q: Seq<Seq<u8>>| #[trigger] a.contains_key(q) implies match (a[q], c[q]) {
        (
            FsNodeModel::File { data: d1, executable: e1 },
            FsNodeModel::File { data: d2, executable: e2 },
        ) => d1 == d2 && (e1 ==> e2),
        (FsNodeModel::Dir, FsNodeModel::Dir) => true,
        _ => false,
    } by {
        assert(b.contains_key(q));
    }
}

/// A copy of a node with the same view.
fn clone_node(n: &FsNode) -> (r: FsNode)
    ensures
        r@ == n@,
{
    match n {
        FsNode::Dir => FsNode::Dir,
        FsNode::File { data, executable } => FsNode::File {
            data: clone_bytes(data),
            executable: *executable,
        },
    }
}

proof fn lemma_map_of_remove_at(s: Seq<FsEntry>, i: int)
    requires
        unique_paths(s),
        0 <= i < s.len(),
    ensures
        map_of(s.remove(i)) == map_of(s).remove(s[i].path.deep_view()),
        unique_paths(s.remove(i)),
    decreases s.len(),
{
    let t = s.remove(i);
    assert(unique_paths(t)) by {
        assert forall|a: int, b: int| 0 <= a < b < t.len() implies t[a].path.deep_view() != t[b]
            .path
            .deep_view() by {
            let a0 = if a < i {
                a
            } else {
                a + 1
            };
            let b0 = if b < i {
                b
            } else {
                b + 1
            };
            assert(t[a] == s[a0] && t[b] == s[b0]);
        }
    }
    if i == s.len() - 1 {
        assert(t =~= s.drop_last());
        lemma_map_of_props(s.drop_last());
        assert(map_of(s) == map_of(s.drop_last()).insert(
            s.last().path.deep_view(),
            s.last().node@,
        ));
        assert(!map_of(s.drop_last()).contains_key(s.last().path.deep_view())) by {
            if map_of(s.drop_last()).contains_key(s.last().path.deep_view()) {
                let j = choose|j: int|
                    0 <= j < s.len() - 1 && s.drop_last()[j].path.deep_view() == s.last()
                        .path
                        .deep_view();
                assert(s[j].path.deep_view() == s[s.len() - 1].path.deep_view());
            }
        }
        assert(map_of(t) =~= map_of(s).remove(s[i].path.deep_view()));
    } else {
        let pre = s.drop_last();
        assert(unique_paths(pre));
        assert(t.drop_last() =~= pre.remove(i));
        assert(t.last() == s.last());
        lemma_map_of_remove_at(pre, i);
        assert(map_of(t) == map_of(pre).remove(s[i].path.deep_view()).insert(
            s.last().path.deep_view(),
            s.last().node@,
        ));
        assert(s.last().path.deep_view() != s[i].path.deep_view()) by {
            assert(s[i].path.deep_view() != s[s.len() - 1].path.deep_view());
        }
        assert(map_of(pre).remove(s[i].path.deep_view()).insert(
            s.last().path.deep_view(),
            s.last().node@,
        ) =~= map_of(pre).insert(s.last().path.deep_view(), s.last().node@).remove(
            s[i].path.deep_view(),
        ));
    }
}

} // verus!
