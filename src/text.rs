use vstd::prelude::*;

verus! {

/// Relies on `str::chars` collected into a `Vec`: the characters of `s`, in order.
#[verifier::external_body]
pub(crate) fn chars_of(s: &str) -> (r: Vec<char>)
    ensures
        r@ == s@,
{
    s.chars().collect()
}

/// Relies on `String: FromIterator<&char>`: the string made of the characters of `v`, in order.
#[verifier::external_body]
pub(crate) fn string_of(v: &[char]) -> (r: String)
    ensures
        r@ == v@,
{
    v.iter().collect()
}

/// The characters `s[lo..hi]` as a new vector.
pub(crate) fn char_range(s: &Vec<char>, lo: usize, hi: usize) -> (r: Vec<char>)
    requires
        lo <= hi <= s.len(),
    ensures
        r@ == s@.subrange(lo as int, hi as int),
{
    let mut r: Vec<char> = Vec::new();
    let mut i: usize = lo;
    while i < hi
        invariant
            lo <= i <= hi <= s.len(),
            r@ == s@.subrange(lo as int, i as int),
        decreases hi - i,
    {
        r.push(s[i]);
        i = i + 1;
    }
    r
}

/// Whether `s` ends with `sfx`.
pub open spec fn has_suffix(s: Seq<char>, sfx: Seq<char>) -> bool {
    sfx.len() <= s.len() && s.subrange(s.len() - sfx.len(), s.len() as int) == sfx
}

/// `s` with its last `sfx.len()` characters removed.
pub open spec fn without_suffix(s: Seq<char>, sfx: Seq<char>) -> Seq<char> {
    s.subrange(0, s.len() - sfx.len())
}

/// Whether `s` ends with `sfx`, comparing from the end.
pub(crate) fn ends_with(s: &Vec<char>, sfx: &Vec<char>) -> (r: bool)
    ensures
        r == has_suffix(s@, sfx@),
{
    if sfx.len() > s.len() {
        return false;
    }
    let off: usize = s.len() - sfx.len();
    let mut i: usize = 0;
    while i < sfx.len()
        invariant
            off + sfx.len() == s.len(),
            i <= sfx.len(),
            forall|k: int| 0 <= k < i ==> s@[off + k] == sfx@[k],
        decreases sfx.len() - i,
    {
        if s[off + i] != sfx[i] {
            assert(s@.subrange(off as int, s.len() as int)[i as int] != sfx@[i as int]);
            return false;
        }
        i = i + 1;
    }
    assert(s@.subrange(off as int, s.len() as int) =~= sfx@);
    true
}

} // verus!
