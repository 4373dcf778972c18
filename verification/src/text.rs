//! Character-level helpers shared by the parsers and lookups.
use vstd::prelude::*;

verus! {

/// The views of a slice of string slices.
pub open spec fn str_views(xs: Seq<&str>) -> Seq<Seq<char>> {
    xs.map_values(|x: &str| x@)
}

/// The views of a slice of strings.
pub open spec fn string_views(xs: Seq<String>) -> Seq<Seq<char>> {
    xs.map_values(|x: String| x@)
}


broadcast use vstd::string::group_string_axioms;

/// The characters of `s`, in order.
pub fn chars_of(s: &str) -> (r: Vec<char>)
    ensures
        r@ == s@,
{
    let mut v: Vec<char> = Vec::new();
    for c in it: s.chars()
        invariant
            v@ == it.seq().take(it.index() as int),
    {
        v.push(c);
    }
    v
}

/// Whether `chars[from..to]` spells exactly `pat`.
pub fn same_chars_at(chars: &Vec<char>, from: usize, to: usize, pat: &str) -> (r: bool)
    requires
        from <= to <= chars@.len(),
    ensures
        r == (chars@.subrange(from as int, to as int) == pat@),
{
    let p = chars_of(pat);
    if p.len() != to - from {
        return false;
    }
    let mut k: usize = 0;
    while k < p.len()
        invariant
            p@ == pat@,
            p@.len() == to - from,
            from <= to <= chars@.len(),
            0 <= k <= p@.len(),
            forall|m: int| 0 <= m < k ==> p@[m] == chars@[from + m],
        decreases p@.len() - k,
    {
        if p[k] != chars[from + k] {
            return false;
        }
        k = k + 1;
    }
    assert(chars@.subrange(from as int, to as int) =~= pat@);
    true
}

/// Whether `a` and `b` hold the same characters.
pub fn str_eq(a: &str, b: &str) -> (r: bool)
    ensures
        r == (a@ == b@),
{
    let ca = chars_of(a);
    proof {
        assert(ca@.subrange(0, ca@.len() as int) =~= a@);
    }
    same_chars_at(&ca, 0, ca.len(), b)
}

} // verus!
