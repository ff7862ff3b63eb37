use vstd::prelude::*;

verus! {

/// `pat` occurs in `s` ending just before position `p`.
pub open spec fn ends_at(s: Seq<u8>, pat: Seq<u8>, p: int) -> bool {
    &&& pat.len() <= p <= s.len()
    &&& s.subrange(p - pat.len(), p) == pat
}

/// `p` is the end of the first occurrence of `pat` in `s`.
pub open spec fn first_end(s: Seq<u8>, pat: Seq<u8>, p: int) -> bool {
    &&& ends_at(s, pat, p)
    &&& forall|q: int| 0 <= q < p ==> !ends_at(s, pat, q)
}

pub open spec fn occurs(s: Seq<u8>, pat: Seq<u8>) -> bool {
    exists|p: int| first_end(s, pat, p)
}

/// The end of the first occurrence of `pat` in `s`, where there is one.
pub open spec fn first_end_pos(s: Seq<u8>, pat: Seq<u8>) -> int {
    choose|p: int| first_end(s, pat, p)
}

pub proof fn lemma_first_end_unique(s: Seq<u8>, pat: Seq<u8>, p: int)
    requires
        first_end(s, pat, p),
    ensures
        occurs(s, pat),
        first_end_pos(s, pat) == p,
{
    let c = first_end_pos(s, pat);
    assert(first_end(s, pat, c));
    if c < p {
        assert(!ends_at(s, pat, c));
    }
    if p < c {
        assert(!ends_at(s, pat, p));
    }
}

/// An occurrence that ends within `s` is kept when `s` is extended.
pub proof fn lemma_ends_at_extend(s: Seq<u8>, t: Seq<u8>, pat: Seq<u8>, p: int)
    requires
        p <= s.len(),
    ensures
        ends_at(s, pat, p) == ends_at(s + t, pat, p),
{
    if pat.len() <= p && p >= 0 {
        assert((s + t).subrange(p - pat.len(), p) =~= s.subrange(p - pat.len(), p));
    }
}

pub proof fn lemma_first_end_extend(s: Seq<u8>, t: Seq<u8>, pat: Seq<u8>, p: int)
    requires
        first_end(s, pat, p),
    ensures
        first_end(s + t, pat, p),
{
    lemma_ends_at_extend(s, t, pat, p);
    assert forall|q: int| 0 <= q < p implies !ends_at(s + t, pat, q) by {
        lemma_ends_at_extend(s, t, pat, q);
    }
}

/// Whether `pat` occurs in `s` ending at `p`.
pub fn ends_at_exec(s: &[u8], pat: &[u8], p: usize) -> (r: bool)
    ensures
        r == ends_at(s@, pat@, p as int),
{
    if p < pat.len() || p > s.len() {
        return false;
    }
    let start = p - pat.len();
    let mut i: usize = 0;
    while i < pat.len()
        invariant
            start + pat@.len() == p,
            p <= s@.len(),
            i <= pat@.len(),
            forall|j: int| 0 <= j < i ==> s@[start + j] == pat@[j],
        decreases pat@.len() - i,
    {
        if s[start + i] != pat[i] {
            assert(s@.subrange(start as int, p as int)[i as int] != pat@[i as int]);
            return false;
        }
        i = i + 1;
    }
    assert(s@.subrange(start as int, p as int) =~= pat@);
    true
}

/// The end of the first occurrence of `pat` in `s`.
pub fn find_end(s: &[u8], pat: &[u8]) -> (r: Option<usize>)
    ensures
        r is Some ==> first_end(s@, pat@, r->Some_0 as int),
        r is None ==> forall|q: int| 0 <= q <= s@.len() ==> !ends_at(s@, pat@, q),
        r is None <==> !occurs(s@, pat@),
{
    let mut p: usize = 0;
    loop
        invariant
            p <= s@.len(),
            forall|q: int| 0 <= q < p ==> !ends_at(s@, pat@, q),
        ensures
            forall|q: int| 0 <= q <= s@.len() ==> !ends_at(s@, pat@, q),
        decreases s@.len() - p,
    {
        if ends_at_exec(s, pat, p) {
            proof {
                lemma_first_end_unique(s@, pat@, p as int);
            }
            return Some(p);
        }
        if p == s.len() {
            break;
        }
        p = p + 1;
    }
    proof {
        if occurs(s@, pat@) {
            let c = first_end_pos(s@, pat@);
            assert(first_end(s@, pat@, c));
        }
    }
    None
}

/// The bytes of `s` from `lo` up to `hi`.
pub fn copy_range(s: &[u8], lo: usize, hi: usize) -> (r: Vec<u8>)
    requires
        lo <= hi <= s@.len(),
    ensures
        r@ == s@.subrange(lo as int, hi as int),
{
    let mut r: Vec<u8> = Vec::new();
    let mut i: usize = lo;
    while i < hi
        invariant
            lo <= i <= hi,
            hi <= s@.len(),
            r@ == s@.subrange(lo as int, i as int),
        decreases hi - i,
    {
        r.push(s[i]);
        i = i + 1;
        assert(r@ =~= s@.subrange(lo as int, i as int));
    }
    r
}

} // verus!
