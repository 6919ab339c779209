//! Small verified helpers on byte strings, the plain form in which the core
//! holds path segments, parameter names, header names and bodies.

use vstd::prelude::*;

verus! {

/// Byte-wise equality of two byte strings.
pub fn bytes_eq(a: &Vec<u8>, b: &Vec<u8>) -> (r: bool)
    ensures
        r == (a@ == b@),
{
    if a.len() != b.len() {
        return false;
    }
    let n: usize = a.len();
    let mut i: usize = 0;
    while i < n
        invariant
            n == a@.len(),
            n == b@.len(),
            0 <= i <= n,
            forall|j: int| 0 <= j < i ==> a@[j] == b@[j],
        decreases n - i,
    {
        if a[i] != b[i] {
            return false;
        }
        i += 1;
    }
    proof {
        assert(a@ =~= b@);
    }
    true
}

/// The views of a sequence of (name, value) byte-string pairs.
pub open spec fn pair_views(v: Seq<(Vec<u8>, Vec<u8>)>) -> Seq<(Seq<u8>, Seq<u8>)> {
    v.map_values(|p: (Vec<u8>, Vec<u8>)| (p.0@, p.1@))
}

/// The value of the first pair named `name` at or after index `k`.
pub open spec fn lookup_from(ps: Seq<(Seq<u8>, Seq<u8>)>, name: Seq<u8>, k: int) -> Option<Seq<u8>>
    decreases ps.len() - k,
{
    if k < 0 || k >= ps.len() {
        None
    } else if ps[k].0 == name {
        Some(ps[k].1)
    } else {
        lookup_from(ps, name, k + 1)
    }
}

/// The value of the first pair named `name`, if any.
pub open spec fn lookup(ps: Seq<(Seq<u8>, Seq<u8>)>, name: Seq<u8>) -> Option<Seq<u8>> {
    lookup_from(ps, name, 0)
}

/// Find the value of the first pair named `name`, if any.
pub fn find_value<'a>(ps: &'a Vec<(Vec<u8>, Vec<u8>)>, name: &Vec<u8>) -> (r: Option<&'a Vec<u8>>)
    ensures
        (match lookup(pair_views(ps@), name@) {
            Some(v) => r matches Some(rv) && rv@ == v,
            None => r is None,
        }),
{
    let n: usize = ps.len();
    let mut i: usize = 0;
    while i < n
        invariant
            n == ps@.len(),
            0 <= i <= n,
            lookup(pair_views(ps@), name@) == lookup_from(pair_views(ps@), name@, i as int),
        decreases n - i,
    {
        if bytes_eq(&ps[i].0, name) {
            proof {
                assert(pair_views(ps@)[i as int].0 == name@);
            }
            return Some(&ps[i].1);
        }
        proof {
            assert(pair_views(ps@)[i as int].0 != name@);
        }
        i += 1;
    }
    None
}

/// A fresh copy of a byte string.
pub fn copy_bytes(a: &Vec<u8>) -> (r: Vec<u8>)
    ensures
        r@ == a@,
{
    let mut r: Vec<u8> = Vec::new();
    let n: usize = a.len();
    let mut i: usize = 0;
    while i < n
        invariant
            n == a@.len(),
            0 <= i <= n,
            r@ == a@.subrange(0, i as int),
        decreases n - i,
    {
        r.push(a[i]);
        proof {
            assert(r@ =~= a@.subrange(0, i as int + 1));
        }
        i += 1;
    }
    proof {
        assert(a@.subrange(0, n as int) =~= a@);
    }
    r
}

} // verus!
