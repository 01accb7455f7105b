//! Destination-relative paths and the ignore rules.
//!
//! A relative path is handled as its list of components (byte vectors,
//! separator-free); joining inserts `/` between components. A file is
//! skipped by substitution when its full relative path is an ignored entry,
//! or when the base name of any ancestor directory is an ignored entry
//! (name-only matching for directories, by design).

use vstd::prelude::*;

verus! {

/// ASCII code of `/`, the separator used in joined relative paths.
pub const SEP: u8 = 47;

/// The views of a list of byte vectors.
pub open spec fn list_view(l: Seq<Vec<u8>>) -> Seq<Seq<u8>> {
    l.map_values(|v: Vec<u8>| v@)
}

/// Join path components with `/` separators; no leading or trailing
/// separator is added.
pub open spec fn join_components(cs: Seq<Seq<u8>>) -> Seq<u8>
    decreases cs.len(),
{
    if cs.len() == 0 {
        Seq::<u8>::empty()
    } else if cs.len() == 1 {
        cs[0]
    } else {
        join_components(cs.drop_last()) + seq![SEP] + cs.last()
    }
}

/// Compare two byte vectors for equality.
pub fn bytes_eq(a: &Vec<u8>, b: &Vec<u8>) -> (r: bool)
    ensures
        r == (a@ == b@),
{
    if a.len() != b.len() {
        return false;
    }
    let mut i: usize = 0;
    while i < a.len()
        invariant
            a@.len() == b@.len(),
            i <= a@.len(),
            forall|k: int| 0 <= k < i ==> a@[k] == b@[k],
        decreases a@.len() - i,
    {
        if a[i] != b[i] {
            return false;
        }
        i = i + 1;
    }
    proof {
        assert(a@ =~= b@);
    }
    true
}

/// A list of byte vectors contains the given bytes.
pub fn list_contains(l: &Vec<Vec<u8>>, x: &Vec<u8>) -> (r: bool)
    ensures
        r == list_view(l@).contains(x@),
{
    let mut i: usize = 0;
    while i < l.len()
        invariant
            i <= l@.len(),
            forall|k: int| 0 <= k < i ==> l@[k]@ != x@,
        decreases l@.len() - i,
    {
        if bytes_eq(&l[i], x) {
            proof {
                assert(list_view(l@)[i as int] == x@);
            }
            return true;
        }
        i = i + 1;
    }
    proof {
        assert(forall|k: int| 0 <= k < list_view(l@).len() ==> list_view(l@)[k] != x@);
    }
    false
}

/// Join path components into one relative path with `/` separators.
pub fn join_path(cs: &Vec<Vec<u8>>) -> (out: Vec<u8>)
    ensures
        out@ == join_components(list_view(cs@)),
{
    let mut out: Vec<u8> = Vec::new();
    let mut i: usize = 0;
    while i < cs.len()
        invariant
            i <= cs@.len(),
            out@ == join_components(list_view(cs@).subrange(0, i as int)),
        decreases cs@.len() - i,
    {
        if i > 0 {
            out.push(SEP);
        }
        crate::subst::append_bytes(&mut out, &cs[i]);
        proof {
            let pre = list_view(cs@).subrange(0, i as int);
            let pre1 = list_view(cs@).subrange(0, i + 1 as int);
            assert(pre1.drop_last() =~= pre);
            assert(pre1.last() == cs@[i as int]@);
            if i == 0 {
                assert(pre1.len() == 1);
                assert(join_components(pre1) == pre1[0]);
                assert(out@ =~= pre1[0]);
            } else {
                assert(join_components(pre1) == join_components(pre) + seq![SEP] + cs@[i as int]@);
                assert(out@ =~= join_components(pre) + seq![SEP] + cs@[i as int]@);
            }
        }
        i = i + 1;
    }
    proof {
        assert(list_view(cs@).subrange(0, cs@.len() as int) =~= list_view(cs@));
    }
    out
}

/// Substitution must skip the file at this destination-relative path: its
/// joined relative path is an ignored entry, or the base name of one of its
/// ancestor directories is an ignored entry.
pub open spec fn skip_spec(components: Seq<Seq<u8>>, ignored: Seq<Seq<u8>>) -> bool {
    ||| ignored.contains(join_components(components))
    ||| exists|i: int| 0 <= i < components.len() - 1 && ignored.contains(components[i])
}

/// Decide whether substitution must skip the file at the relative path
/// given by `components`.
pub fn should_skip(components: &Vec<Vec<u8>>, ignored: &Vec<Vec<u8>>) -> (r: bool)
    ensures
        r == skip_spec(list_view(components@), list_view(ignored@)),
{
    let joined = join_path(components);
    if list_contains(ignored, &joined) {
        return true;
    }
    if components.len() == 0 {
        return false;
    }
    let mut i: usize = 0;
    while i < components.len() - 1
        invariant
            components@.len() > 0,
            i <= components@.len() - 1,
            forall|k: int| 0 <= k < i ==> !list_view(ignored@).contains(components@[k]@),
        decreases components@.len() - i,
    {
        if list_contains(ignored, &components[i]) {
            proof {
                assert(list_view(components@)[i as int] == components@[i as int]@);
            }
            return true;
        }
        i = i + 1;
    }
    proof {
        assert(forall|k: int|
            0 <= k < list_view(components@).len() - 1 ==> !list_view(ignored@).contains(
                list_view(components@)[k],
            ));
    }
    false
}

} // verus!
