//! Byte-string path values.  A path is a sequence of components, each
//! component a byte string; the empty sequence denotes the root.  Archive
//! entry names arrive as single byte strings with `/` separators and are
//! split into components here.

use vstd::prelude::*;
use vstd::string::StringSliceAdditionalSpecFns;

verus! {

/// A path as a list of components.
pub type PathBuf = Vec<Vec<u8>>;

/// The deep view of a component vector is determined by the views of its
/// components.
pub proof fn lemma_deep_view_is(v: Vec<Vec<u8>>, s: Seq<Seq<u8>>)
    requires
        v@.len() == s.len(),
        forall|j: int| 0 <= j < s.len() ==> v@[j]@ == s[j],
    ensures
        v.deep_view() == s,
{
    assert forall|j: int| 0 <= j < s.len() implies v.deep_view()[j] == s[j] by {
        assert(v.deep_view()[j] == v@[j].deep_view());
        assert(v@[j].deep_view() =~= v@[j]@);
    }
    assert(v.deep_view() =~= s);
}

/// Each element of the deep view is the view of the component at that index.
pub proof fn lemma_deep_view_elems(v: Vec<Vec<u8>>)
    ensures
        v.deep_view().len() == v@.len(),
        forall|j: int| 0 <= j < v@.len() ==> v.deep_view()[j] == v@[j]@,
{
    assert forall|j: int| 0 <= j < v@.len() implies v.deep_view()[j] == v@[j]@ by {
        assert(v.deep_view()[j] == v@[j].deep_view());
        assert(v@[j].deep_view() =~= v@[j]@);
    }
}

/// Byte-wise equality of two byte strings.
pub fn bytes_eq(a: &Vec<u8>, b: &Vec<u8>) -> (r: bool)
    ensures
        r == (a@ == b@),
{
    if a.len() != b.len() {
        proof {
            assert(a@.len() != b@.len());
        }
        return false;
    }
    let mut i: usize = 0;
    while i < a.len()
        invariant
            i <= a.len(),
            a.len() == b.len(),
            forall|j: int| 0 <= j < i ==> a@[j] == b@[j],
        decreases a.len() - i,
    {
        if a[i] != b[i] {
            return false;
        }
        i += 1;
    }
    proof {
        assert(a@ =~= b@);
    }
    true
}

/// Component-wise equality of two paths.
pub fn path_eq(a: &PathBuf, b: &PathBuf) -> (r: bool)
    ensures
        r == (a.deep_view() == b.deep_view()),
{
    proof {
        lemma_deep_view_elems(*a);
        lemma_deep_view_elems(*b);
    }
    if a.len() != b.len() {
        return false;
    }
    let mut i: usize = 0;
    while i < a.len()
        invariant
            i <= a.len(),
            a.len() == b.len(),
            a.deep_view().len() == a@.len(),
            b.deep_view().len() == b@.len(),
            forall|j: int| 0 <= j < a@.len() ==> a.deep_view()[j] == a@[j]@,
            forall|j: int| 0 <= j < b@.len() ==> b.deep_view()[j] == b@[j]@,
            forall|j: int| 0 <= j < i ==> a@[j]@ == b@[j]@,
        decreases a.len() - i,
    {
        if !bytes_eq(&a[i], &b[i]) {
            proof {
                if a.deep_view() == b.deep_view() {
                    assert(a.deep_view()[i as int] == b.deep_view()[i as int]);
                }
            }
            return false;
        }
        i += 1;
    }
    proof {
        assert(a.deep_view() =~= b.deep_view());
    }
    true
}

/// Whether `p` starts with the components of `root`.
pub open spec fn spec_starts_with(p: Seq<Seq<u8>>, root: Seq<Seq<u8>>) -> bool {
    root.len() <= p.len() && p.subrange(0, root.len() as int) == root
}

/// Whether `p` lies strictly below `root`.
pub open spec fn spec_under(p: Seq<Seq<u8>>, root: Seq<Seq<u8>>) -> bool {
    root.len() < p.len() && p.subrange(0, root.len() as int) == root
}

/// Every path starts with itself.
pub proof fn lemma_starts_with_refl(p: Seq<Seq<u8>>)
    ensures
        spec_starts_with(p, p),
{
    assert(p.subrange(0, p.len() as int) =~= p);
}

/// Starting-with is transitive.
pub proof fn lemma_starts_with_trans(p: Seq<Seq<u8>>, mid: Seq<Seq<u8>>, root: Seq<Seq<u8>>)
    requires
        spec_starts_with(p, mid),
        spec_starts_with(mid, root),
    ensures
        spec_starts_with(p, root),
{
    assert(p.subrange(0, root.len() as int) =~= root) by {
        assert forall|j: int| 0 <= j < root.len() implies p[j] == root[j] by {
            assert(p.subrange(0, mid.len() as int)[j] == p[j]);
            assert(mid.subrange(0, root.len() as int)[j] == mid[j]);
        }
    }
}

/// Executable test of [`spec_starts_with`].
pub fn path_starts_with(p: &PathBuf, root: &PathBuf) -> (r: bool)
    ensures
        r == spec_starts_with(p.deep_view(), root.deep_view()),
{
    proof {
        lemma_deep_view_elems(*p);
        lemma_deep_view_elems(*root);
    }
    if p.len() < root.len() {
        return false;
    }
    let mut i: usize = 0;
    while i < root.len()
        invariant
            i <= root.len(),
            root.len() <= p.len(),
            p.deep_view().len() == p@.len(),
            root.deep_view().len() == root@.len(),
            forall|j: int| 0 <= j < p@.len() ==> p.deep_view()[j] == p@[j]@,
            forall|j: int| 0 <= j < root@.len() ==> root.deep_view()[j] == root@[j]@,
            forall|j: int| 0 <= j < i ==> p@[j]@ == root@[j]@,
        decreases root.len() - i,
    {
        if !bytes_eq(&p[i], &root[i]) {
            proof {
                assert(!spec_starts_with(p.deep_view(), root.deep_view())) by {
                    if spec_starts_with(p.deep_view(), root.deep_view()) {
                        assert(p.deep_view().subrange(0, root.deep_view().len() as int)[i as int]
                            == p.deep_view()[i as int]);
                    }
                }
            }
            return false;
        }
        i += 1;
    }
    proof {
        assert(p.deep_view().subrange(0, root.deep_view().len() as int) =~= root.deep_view());
    }
    true
}

/// A copy of a byte string with the same contents.
pub fn clone_bytes(b: &Vec<u8>) -> (r: Vec<u8>)
    ensures
        r@ == b@,
{
    let mut r: Vec<u8> = Vec::new();
    let mut i: usize = 0;
    while i < b.len()
        invariant
            i <= b.len(),
            r@ =~= b@.subrange(0, i as int),
        decreases b.len() - i,
    {
        r.push(b[i]);
        proof {
            assert(r@ =~= b@.subrange(0, i + 1 as int));
        }
        i += 1;
    }
    proof {
        assert(b@.subrange(0, b@.len() as int) =~= b@);
    }
    r
}

/// A copy of a path with the same components.
pub fn clone_path(p: &PathBuf) -> (r: PathBuf)
    ensures
        r.deep_view() == p.deep_view(),
{
    proof {
        lemma_deep_view_elems(*p);
    }
    let mut r: PathBuf = Vec::new();
    let mut i: usize = 0;
    while i < p.len()
        invariant
            i <= p.len(),
            r@.len() == i,
            forall|j: int| 0 <= j < i ==> r@[j]@ == p@[j]@,
        decreases p.len() - i,
    {
        let c = clone_bytes(&p[i]);
        r.push(c);
        i += 1;
    }
    proof {
        lemma_deep_view_is(r, p.deep_view());
    }
    r
}

/// Append one component to a path, functionally.
pub fn path_push(p: &PathBuf, c: &Vec<u8>) -> (r: PathBuf)
    ensures
        r.deep_view() == p.deep_view().push(c@),
{
    proof {
        lemma_deep_view_elems(*p);
    }
    let mut r = clone_path(p);
    let c2 = clone_bytes(c);
    proof {
        lemma_deep_view_elems(r);
    }
    r.push(c2);
    proof {
        lemma_deep_view_is(r, p.deep_view().push(c@));
    }
    r
}

/// Concatenate two paths.
pub fn path_concat(a: &PathBuf, b: &PathBuf) -> (r: PathBuf)
    ensures
        r.deep_view() == a.deep_view() + b.deep_view(),
{
    proof {
        lemma_deep_view_elems(*a);
        lemma_deep_view_elems(*b);
    }
    let mut r = clone_path(a);
    proof {
        lemma_deep_view_elems(r);
    }
    let mut i: usize = 0;
    while i < b.len()
        invariant
            i <= b.len(),
            a@.len() == a.deep_view().len(),
            r@.len() == a@.len() + i,
            forall|j: int| 0 <= j < a@.len() ==> r@[j]@ == a.deep_view()[j],
            forall|j: int| 0 <= j < i ==> r@[a@.len() + j]@ == b@[j]@,
        decreases b.len() - i,
    {
        let c = clone_bytes(&b[i]);
        r.push(c);
        i += 1;
    }
    proof {
        lemma_deep_view_is(r, a.deep_view() + b.deep_view());
    }
    r
}

/// The path without its last component.  The root is its own parent.
pub open spec fn spec_parent(p: Seq<Seq<u8>>) -> Seq<Seq<u8>> {
    if p.len() == 0 {
        p
    } else {
        p.drop_last()
    }
}

pub fn path_parent(p: &PathBuf) -> (r: PathBuf)
    ensures
        r.deep_view() == spec_parent(p.deep_view()),
{
    proof {
        lemma_deep_view_elems(*p);
    }
    let mut r = clone_path(p);
    if r.len() > 0 {
        proof {
            lemma_deep_view_elems(r);
        }
        r.pop();
        proof {
            lemma_deep_view_is(r, p.deep_view().drop_last());
        }
    }
    r
}

/// The path with its first component removed.
pub fn path_strip_first(p: &PathBuf) -> (r: PathBuf)
    requires
        p.len() >= 1,
    ensures
        r.deep_view() == p.deep_view().subrange(1, p.deep_view().len() as int),
{
    proof {
        lemma_deep_view_elems(*p);
    }
    let mut r: PathBuf = Vec::new();
    let mut i: usize = 1;
    while i < p.len()
        invariant
            1 <= i <= p.len(),
            r@.len() == i - 1,
            forall|j: int| 0 <= j < i - 1 ==> r@[j]@ == p@[j + 1]@,
        decreases p.len() - i,
    {
        let c = clone_bytes(&p[i]);
        r.push(c);
        i += 1;
    }
    proof {
        lemma_deep_view_is(r, p.deep_view().subrange(1, p.deep_view().len() as int));
    }
    r
}

/// Raw split of a byte string at every separator byte; adjacent separators
/// and a leading or trailing separator give empty segments.
pub open spec fn spec_split_raw(s: Seq<u8>, sep: u8) -> Seq<Seq<u8>>
    decreases s.len(),
{
    if s.len() == 0 {
        seq![Seq::<u8>::empty()]
    } else {
        let rest = spec_split_raw(s.drop_last(), sep);
        if s.last() == sep {
            rest.push(Seq::<u8>::empty())
        } else {
            rest.update(rest.len() - 1, rest.last().push(s.last()))
        }
    }
}

proof fn lemma_split_raw_nonempty(s: Seq<u8>, sep: u8)
    ensures
        spec_split_raw(s, sep).len() >= 1,
    decreases s.len(),
{
    if s.len() > 0 {
        lemma_split_raw_nonempty(s.drop_last(), sep);
    }
}

/// Whether a component may appear in an extracted path: non-empty and not a
/// relative-reference component.
pub open spec fn spec_keeps_component(c: Seq<u8>) -> bool {
    c.len() > 0 && c != seq![46u8]
}

/// The meaningful components of a separator-joined byte string: raw segments
/// with empty and `.` segments dropped.
pub open spec fn spec_components(s: Seq<u8>) -> Seq<Seq<u8>> {
    spec_split_raw(s, 47u8).filter(|c: Seq<u8>| spec_keeps_component(c))
}

/// Split a byte string into its meaningful path components.
pub fn split_components(s: &Vec<u8>) -> (r: PathBuf)
    ensures
        r.deep_view() == spec_components(s@),
{
    let mut raw: PathBuf = Vec::new();
    let mut cur: Vec<u8> = Vec::new();
    let mut i: usize = 0;
    let ghost sepg = 47u8;
    while i < s.len()
        invariant
            i <= s.len(),
            raw.deep_view().push(cur@) =~= spec_split_raw(s@.subrange(0, i as int), 47u8),
        decreases s.len() - i,
    {
        let ghost pre = s@.subrange(0, i as int);
        let ghost post = s@.subrange(0, i + 1 as int);
        proof {
            assert(post.drop_last() =~= pre);
            assert(post.last() == s@[i as int]);
            lemma_split_raw_nonempty(pre, 47u8);
            lemma_deep_view_elems(raw);
        }
        if s[i] == 47u8 {
            let ghost raw0 = raw.deep_view();
            let ghost cur0 = cur@;
            raw.push(cur);
            cur = Vec::new();
            proof {
                lemma_deep_view_is(raw, raw0.push(cur0));
                assert(raw.deep_view().push(cur@) =~= spec_split_raw(post, 47u8));
            }
        } else {
            let byte = s[i];
            cur.push(byte);
            proof {
                let rest = spec_split_raw(pre, 47u8);
                assert(spec_split_raw(post, 47u8) =~= rest.update(
                    rest.len() - 1,
                    rest.last().push(byte),
                ));
                assert(raw.deep_view().push(cur@) =~= spec_split_raw(post, 47u8));
            }
        }
        i += 1;
    }
    proof {
        assert(s@.subrange(0, s@.len() as int) =~= s@);
        lemma_deep_view_elems(raw);
    }
    let ghost raw0 = raw.deep_view();
    let ghost cur0 = cur@;
    raw.push(cur);
    proof {
        lemma_deep_view_is(raw, raw0.push(cur0));
        assert(raw.deep_view() == spec_split_raw(s@, 47u8));
    }
    filter_components(&raw)
}

/// Keep only the components that [`spec_keeps_component`] accepts.
fn filter_components(raw: &PathBuf) -> (r: PathBuf)
    ensures
        r.deep_view() == raw.deep_view().filter(|c: Seq<u8>| spec_keeps_component(c)),
{
    proof {
        lemma_deep_view_elems(*raw);
    }
    let mut r: PathBuf = Vec::new();
    let mut i: usize = 0;
    proof {
        assert(raw.deep_view().subrange(0, 0).filter(|c: Seq<u8>| spec_keeps_component(c))
            =~= Seq::<Seq<u8>>::empty());
    }
    while i < raw.len()
        invariant
            i <= raw.len(),
            raw.len() == raw.deep_view().len(),
            forall|j: int| 0 <= j < raw@.len() ==> raw.deep_view()[j] == raw@[j]@,
            r.deep_view() =~= raw.deep_view().subrange(0, i as int).filter(
                |c: Seq<u8>| spec_keeps_component(c),
            ),
        decreases raw.len() - i,
    {
        let keep = is_kept_component(&raw[i]);
        proof {
            let pre = raw.deep_view().subrange(0, i as int);
            let post = raw.deep_view().subrange(0, i + 1 as int);
            assert(post.drop_last() =~= pre);
            assert(post.last() == raw.deep_view()[i as int]);
            reveal_with_fuel(Seq::filter, 2);
        }
        if keep {
            let c = clone_bytes(&raw[i]);
            let ghost r0 = r.deep_view();
            proof {
                lemma_deep_view_elems(r);
            }
            r.push(c);
            proof {
                lemma_deep_view_is(r, r0.push(raw.deep_view()[i as int]));
                assert(r.deep_view() =~= raw.deep_view().subrange(0, i + 1 as int).filter(
                    |c: Seq<u8>| spec_keeps_component(c),
                ));
            }
        } else {
            proof {
                assert(r.deep_view() =~= raw.deep_view().subrange(0, i + 1 as int).filter(
                    |c: Seq<u8>| spec_keeps_component(c),
                ));
            }
        }
        i += 1;
    }
    proof {
        assert(raw.deep_view().subrange(0, raw.deep_view().len() as int) =~= raw.deep_view());
    }
    r
}

/// Executable test of [`spec_keeps_component`].
fn is_kept_component(c: &Vec<u8>) -> (r: bool)
    ensures
        r == spec_keeps_component(c@),
{
    if c.len() == 0 {
        return false;
    }
    if c.len() == 1 && c[0] == 46u8 {
        proof {
            assert(c@ =~= seq![46u8]);
        }
        return false;
    }
    proof {
        if c@ == seq![46u8] {
            assert(c@.len() == 1 && c@[0] == 46u8);
        }
    }
    true
}

/// Whether some component equals `..`, which extraction refuses.
pub open spec fn spec_has_parent_ref(p: Seq<Seq<u8>>) -> bool {
    exists|i: int| 0 <= i < p.len() && p[i] == seq![46u8, 46u8]
}

/// Executable test of [`spec_has_parent_ref`].
pub fn has_parent_ref(p: &PathBuf) -> (r: bool)
    ensures
        r == spec_has_parent_ref(p.deep_view()),
{
    proof {
        lemma_deep_view_elems(*p);
    }
    let mut i: usize = 0;
    while i < p.len()
        invariant
            i <= p.len(),
            p.len() == p.deep_view().len(),
            forall|j: int| 0 <= j < p@.len() ==> p.deep_view()[j] == p@[j]@,
            forall|j: int| 0 <= j < i ==> p.deep_view()[j] != seq![46u8, 46u8],
        decreases p.len() - i,
    {
        let c = &p[i];
        if c.len() == 2 && c[0] == 46u8 && c[1] == 46u8 {
            proof {
                assert(c@ =~= seq![46u8, 46u8]);
                assert(p.deep_view()[i as int] == seq![46u8, 46u8]);
            }
            return true;
        }
        proof {
            if p.deep_view()[i as int] == seq![46u8, 46u8] {
                assert(c@.len() == 2 && c@[0] == 46u8 && c@[1] == 46u8);
            }
        }
        i += 1;
    }
    false
}

/// Bytes of a string, as a fresh vector.
pub fn str_to_bytes(s: &str) -> (r: Vec<u8>)
    ensures
        r@ == s.spec_bytes(),
{
    vstd::slice::slice_to_vec(s.as_bytes())
}

/// Character-wise equality of two strings, decided on their bytes.
pub fn str_eq(a: &str, b: &str) -> (r: bool)
    ensures
        r == (a@ == b@),
{
    let ab = a.as_bytes();
    let bb = b.as_bytes();
    proof {
        vstd::utf8::encode_utf8_decode_utf8(a@);
        vstd::utf8::encode_utf8_decode_utf8(b@);
    }
    if ab.len() != bb.len() {
        proof {
            if a@ == b@ {
                assert(ab@ == bb@);
            }
        }
        return false;
    }
    let mut i: usize = 0;
    while i < ab.len()
        invariant
            a@ == vstd::utf8::decode_utf8(vstd::utf8::encode_utf8(a@)),
            b@ == vstd::utf8::decode_utf8(vstd::utf8::encode_utf8(b@)),
            ab@ == a.spec_bytes(),
            bb@ == b.spec_bytes(),
            i <= ab@.len(),
            ab@.len() == bb@.len(),
            forall|j: int| 0 <= j < i ==> ab@[j] == bb@[j],
        decreases ab@.len() - i,
    {
        if ab[i] != bb[i] {
            proof {
                if a@ == b@ {
                    assert(ab@ == bb@);
                }
            }
            return false;
        }
        i += 1;
    }
    proof {
        assert(ab@ =~= bb@);
        assert(a@ == b@);
    }
    true
}


/// Concatenation of two byte strings.
pub fn bytes_concat(a: &Vec<u8>, b: &Vec<u8>) -> (r: Vec<u8>)
    ensures
        r@ == a@ + b@,
{
    let mut r = clone_bytes(a);
    let mut i: usize = 0;
    while i < b.len()
        invariant
            i <= b@.len(),
            r@ =~= a@ + b@.subrange(0, i as int),
        decreases b@.len() - i,
    {
        r.push(b[i]);
        proof {
            assert(r@ =~= a@ + b@.subrange(0, i + 1 as int));
        }
        i += 1;
    }
    proof {
        assert(a@ + b@.subrange(0, b@.len() as int) =~= a@ + b@);
    }
    r
}

/// Whether `suf` is a suffix of `a`.
pub open spec fn spec_ends_with(a: Seq<u8>, suf: Seq<u8>) -> bool {
    suf.len() <= a.len() && a.subrange(a.len() - suf.len(), a.len() as int) == suf
}

/// Executable test of [`spec_ends_with`].
pub fn bytes_ends_with(a: &Vec<u8>, suf: &Vec<u8>) -> (r: bool)
    ensures
        r == spec_ends_with(a@, suf@),
{
    if suf.len() > a.len() {
        return false;
    }
    let off = a.len() - suf.len();
    let mut i: usize = 0;
    while i < suf.len()
        invariant
            i <= suf@.len(),
            suf@.len() <= a@.len(),
            a@.len() <= usize::MAX,
            off == a@.len() - suf@.len(),
            forall|j: int| 0 <= j < i ==> a@[off + j] == suf@[j],
        decreases suf@.len() - i,
    {
        if a[off + i] != suf[i] {
            proof {
                if spec_ends_with(a@, suf@) {
                    assert(a@.subrange(a@.len() - suf@.len(), a@.len() as int)[i as int]
                        == a@[off + i]);
                }
            }
            return false;
        }
        i += 1;
    }
    proof {
        assert(a@.subrange(a@.len() - suf@.len(), a@.len() as int) =~= suf@);
    }
    true
}

} // verus!
