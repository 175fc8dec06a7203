use vstd::prelude::*;
use vstd::slice::slice_to_vec;
use vstd::string::StringSliceAdditionalSpecFns;

verus! {

/// The bytes of a string slice, as an owned vector.
///
/// Pattern text in this crate is handled as UTF-8 bytes so that spans are
/// plain byte offsets; this is the bridge from literal text to that form.
pub fn str_bytes(s: &str) -> (r: Vec<u8>)
    ensures
        r@ == s.spec_bytes(),
{
    slice_to_vec(s.as_bytes())
}

/// Copy of the byte range `[from, to)` of `v`.
pub fn subvec(v: &Vec<u8>, from: usize, to: usize) -> (r: Vec<u8>)
    requires
        from <= to <= v@.len(),
    ensures
        r@ == v@.subrange(from as int, to as int),
{
    let mut r: Vec<u8> = Vec::new();
    let mut i: usize = from;
    while i < to
        invariant
            from <= i <= to <= v@.len(),
            r@ == v@.subrange(from as int, i as int),
        decreases to - i,
    {
        r.push(v[i]);
        i = i + 1;
        proof {
            assert(r@ =~= v@.subrange(from as int, i as int));
        }
    }
    r
}

/// Append all of `w` to `v`.
pub fn extend_bytes(v: &mut Vec<u8>, w: &Vec<u8>)
    ensures
        final(v)@ == old(v)@ + w@,
{
    let mut i: usize = 0;
    while i < w.len()
        invariant
            i <= w.len(),
            v@ == old(v)@ + w@.subrange(0, i as int),
        decreases w.len() - i,
    {
        v.push(w[i]);
        i = i + 1;
        proof {
            assert(v@ =~= old(v)@ + w@.subrange(0, i as int));
        }
    }
    proof {
        assert(v@ =~= old(v)@ + w@);
    }
}

/// Whether the bytes of `w` occur in `v` starting at offset `at`.
pub open spec fn occurs_at(v: Seq<u8>, w: Seq<u8>, at: int) -> bool {
    0 <= at && at + w.len() <= v.len() && v.subrange(at, at + w.len() as int) == w
}

/// Decide `occurs_at` for concrete byte strings.
pub fn starts_with_at(v: &Vec<u8>, w: &Vec<u8>, at: usize) -> (r: bool)
    requires
        at <= v@.len(),
    ensures
        r == occurs_at(v@, w@, at as int),
{
    if v.len() - at < w.len() {
        return false;
    }
    let n = v.len();
    let mut i: usize = 0;
    while i < w.len()
        invariant
            i <= w.len(),
            at + w@.len() <= v@.len(),
            n == v@.len(),
            forall|j: int| 0 <= j < i ==> v@[at + j] == w@[j],
        decreases w.len() - i,
    {
        if v[at + i] != w[i] {
            proof {
                assert(v@.subrange(at as int, at + w@.len() as int)[i as int] != w@[i as int]);
            }
            return false;
        }
        i = i + 1;
    }
    proof {
        assert(v@.subrange(at as int, at + w@.len() as int) =~= w@);
    }
    true
}

/// Whether `w` occurs anywhere in `v`.
pub open spec fn contains_bytes(v: Seq<u8>, w: Seq<u8>) -> bool {
    exists|at: int| occurs_at(v, w, at)
}

/// Decide `contains_bytes` for concrete byte strings.
pub fn bytes_contain(v: &Vec<u8>, w: &Vec<u8>) -> (r: bool)
    ensures
        r == contains_bytes(v@, w@),
{
    if w.len() > v.len() {
        proof {
            assert(forall|at: int| !occurs_at(v@, w@, at));
        }
        return false;
    }
    if w.len() == 0 {
        proof {
            assert(occurs_at(v@, w@, 0)) by {
                assert(v@.subrange(0, 0) =~= w@);
            }
        }
        return true;
    }
    let mut at: usize = 0;
    let n = v.len();
    let last = v.len() - w.len();
    while at <= last
        invariant
            1 <= w@.len() <= v@.len(),
            n == v@.len(),
            last == v@.len() - w@.len(),
            at <= last + 1,
            forall|j: int| 0 <= j < at ==> !occurs_at(v@, w@, j),
        decreases last + 1 - at,
    {
        if starts_with_at(v, w, at) {
            return true;
        }
        at = at + 1;
    }
    proof {
        assert(forall|j: int| occurs_at(v@, w@, j) ==> 0 <= j <= v@.len() - w@.len());
    }
    false
}

/// Whether `w` occurs in the list of byte strings `list`.
pub fn list_contains_bytes(list: &Vec<Vec<u8>>, w: &Vec<u8>) -> (r: bool)
    ensures
        r == list.deep_view().contains(w@),
{
    let mut i: usize = 0;
    while i < list.len()
        invariant
            i <= list@.len(),
            forall|j: int| 0 <= j < i ==> list.deep_view()[j] != w@,
        decreases list.len() - i,
    {
        if bytes_equal(&list[i], w) {
            proof {
                assert(list.deep_view()[i as int] =~= w@);
            }
            return true;
        }
        proof {
            assert(list.deep_view()[i as int] =~= list@[i as int]@);
        }
        i = i + 1;
    }
    false
}

/// Whether two byte strings hold the same bytes.
pub fn bytes_equal(a: &Vec<u8>, b: &Vec<u8>) -> (r: bool)
    ensures
        r == (a@ == b@),
{
    if a.len() != b.len() {
        return false;
    }
    let mut i: usize = 0;
    while i < a.len()
        invariant
            a@.len() == b@.len(),
            i <= a@.len(),
            forall|j: int| 0 <= j < i ==> a@[j] == b@[j],
        decreases a.len() - i,
    {
        if a[i] != b[i] {
            return false;
        }
        i = i + 1;
    }
    proof {
        assert(a@ =~= b@);
    }
    true
}

} // verus!
