use vstd::prelude::*;

use crate::text::{char_range, chars_of, string_of};

verus! {

/// Why a selection could not be read.
#[derive(Clone, Copy, Debug, PartialEq, Eq, Structural)]
pub enum SelectionError {
    /// The start of a range `a-b` is not a number.
    InvalidRangeStart,
    /// The end of a range `a-b` is not a number.
    InvalidRangeEnd,
    /// A single entry is not a number.
    InvalidNumber,
}

/// Whether `c` has the Unicode `White_Space` property.
pub open spec fn is_space(c: char) -> bool {
    let u = c as u32;
    (9 <= u <= 13) || u == 32 || u == 0x85 || u == 0xA0 || u == 0x1680 || (0x2000 <= u <= 0x200A)
        || u == 0x2028 || u == 0x2029 || u == 0x202F || u == 0x205F || u == 0x3000
}

/// `s` without its leading white space.
pub open spec fn trim_start(s: Seq<char>) -> Seq<char>
    decreases s.len(),
{
    if s.len() > 0 && is_space(s[0]) {
        trim_start(s.drop_first())
    } else {
        s
    }
}

/// `s` without its trailing white space.
pub open spec fn trim_end(s: Seq<char>) -> Seq<char>
    decreases s.len(),
{
    if s.len() > 0 && is_space(s.last()) {
        trim_end(s.drop_last())
    } else {
        s
    }
}

/// `s` without leading and trailing white space.
pub open spec fn trim(s: Seq<char>) -> Seq<char> {
    trim_end(trim_start(s))
}

/// The pieces of `s` between occurrences of `c`; there is always at least one.
pub open spec fn split_on(s: Seq<char>, c: char) -> Seq<Seq<char>>
    decreases s.len(),
{
    if s.len() == 0 {
        seq![Seq::empty()]
    } else if s.last() == c {
        split_on(s.drop_last(), c).push(Seq::empty())
    } else {
        let p = split_on(s.drop_last(), c);
        p.update(p.len() - 1, p.last().push(s.last()))
    }
}

/// Whether `c` is an ASCII digit.
pub open spec fn is_digit(c: char) -> bool {
    '0' <= c <= '9'
}

/// The value of a string of decimal digits.
pub open spec fn digits_value(s: Seq<char>) -> nat
    decreases s.len(),
{
    if s.len() == 0 {
        0
    } else {
        digits_value(s.drop_last()) * 10 + ((s.last() as u32) - ('0' as u32)) as nat
    }
}

/// The digits of an unsigned number: `s` without one leading `+`.
pub open spec fn unsigned_digits(s: Seq<char>) -> Seq<char> {
    if s.len() > 0 && s[0] == '+' {
        s.drop_first()
    } else {
        s
    }
}

/// The `usize` that `s` spells: an optional `+` and at least one decimal
/// digit, with a value that fits.
pub open spec fn parse_usize(s: Seq<char>) -> Option<nat> {
    let d = unsigned_digits(s);
    if d.len() > 0 && (forall|i: int| 0 <= i < d.len() ==> is_digit(#[trigger] d[i]))
        && digits_value(d) <= usize::MAX {
        Some(digits_value(d))
    } else {
        None
    }
}

/// The error that one comma-separated entry of a selection gives, if any.
pub open spec fn part_error(part: Seq<char>) -> Option<SelectionError> {
    let t = trim(part);
    if t.contains('-') {
        let r = split_on(t, '-');
        if r.len() != 2 {
            None
        } else if parse_usize(r[0]) is None {
            Some(SelectionError::InvalidRangeStart)
        } else if parse_usize(r[1]) is None {
            Some(SelectionError::InvalidRangeEnd)
        } else {
            None
        }
    } else if parse_usize(t) is None {
        Some(SelectionError::InvalidNumber)
    } else {
        None
    }
}

/// Whether one entry of a selection names the 1-based number `n`: a number
/// names itself, a range `a-b` names `a` to `b` inclusive, and anything with a
/// `-` that is not one range names nothing.
pub open spec fn part_selects(part: Seq<char>, n: int) -> bool {
    let t = trim(part);
    if t.contains('-') {
        let r = split_on(t, '-');
        &&& r.len() == 2
        &&& parse_usize(r[0]) matches Some(a)
        &&& parse_usize(r[1]) matches Some(b)
        &&& a <= n <= b
    } else {
        parse_usize(t) == Some(n as nat)
    }
}

/// The entries of a selection.
pub open spec fn selection_parts(input: Seq<char>) -> Seq<Seq<char>> {
    split_on(input, ',')
}

/// The selection fails with `e`: the first entry that is malformed gives `e`.
pub open spec fn selection_fails_with(input: Seq<char>, e: SelectionError) -> bool {
    let parts = selection_parts(input);
    exists|j: int|
        0 <= j < parts.len() && #[trigger] part_error(parts[j]) == Some(e) && forall|i: int|
            0 <= i < j ==> part_error(#[trigger] parts[i]) is None
}

/// Whether the selection names the 0-based index `k` of a pool of `max`:
/// some entry names `k + 1`, and `k` is in the pool.
pub open spec fn selects(input: Seq<char>, max: int, k: int) -> bool {
    let parts = selection_parts(input);
    0 <= k < max && exists|j: int| 0 <= j < parts.len() && part_selects(#[trigger] parts[j], k + 1)
}

/// Every entry of the selection is well formed.
pub open spec fn selection_is_valid(input: Seq<char>) -> bool {
    let parts = selection_parts(input);
    forall|j: int| 0 <= j < parts.len() ==> part_error(#[trigger] parts[j]) is None
}

/// `v` lists, in strictly ascending order and once each, the indices of a
/// pool of `max` that the selection names.
pub open spec fn lists_selection(v: Seq<usize>, input: Seq<char>, max: int) -> bool {
    &&& forall|i: int, j: int| 0 <= i < j < v.len() ==> v[i] < v[j]
    &&& forall|i: int| 0 <= i < v.len() ==> selects(input, max, #[trigger] v[i] as int)
    &&& forall|k: int| #[trigger] selects(input, max, k) ==> v.contains(k as usize)
}

/// `v` is every index of a pool of `max`, in order.
pub open spec fn lists_all(v: Seq<usize>, max: int) -> bool {
    v.len() == max && forall|i: int| 0 <= i < v.len() ==> v[i] == i
}

/// Whether `s` is the word `all` in any mix of ASCII case.
pub open spec fn is_all_word(s: Seq<char>) -> bool {
    &&& s.len() == 3
    &&& s[0] == 'a' || s[0] == 'A'
    &&& s[1] == 'l' || s[1] == 'L'
    &&& s[2] == 'l' || s[2] == 'L'
}

proof fn lemma_trim_start_at(s: Seq<char>, lo: int)
    requires
        0 <= lo <= s.len(),
        forall|k: int| 0 <= k < lo ==> is_space(#[trigger] s[k]),
        lo == s.len() || !is_space(s[lo]),
    ensures
        trim_start(s) == s.subrange(lo, s.len() as int),
    decreases lo,
{
    if lo == 0 {
        assert(s.subrange(0, s.len() as int) =~= s);
    } else {
        assert(is_space(s[0]));
        let t = s.drop_first();
        assert forall|k: int| 0 <= k < lo - 1 implies is_space(#[trigger] t[k]) by {
            assert(t[k] == s[k + 1]);
        }
        lemma_trim_start_at(t, lo - 1);
        assert(t.subrange(lo - 1, t.len() as int) =~= s.subrange(lo, s.len() as int));
    }
}

proof fn lemma_trim_end_at(s: Seq<char>, hi: int)
    requires
        0 <= hi <= s.len(),
        forall|k: int| hi <= k < s.len() ==> is_space(#[trigger] s[k]),
        hi == 0 || !is_space(s[hi - 1]),
    ensures
        trim_end(s) == s.subrange(0, hi),
    decreases s.len() - hi,
{
    if hi == s.len() {
        assert(s.subrange(0, hi) =~= s);
    } else {
        assert(is_space(s.last()));
        let t = s.drop_last();
        assert forall|k: int| hi <= k < t.len() implies is_space(#[trigger] t[k]) by {
            assert(t[k] == s[k]);
        }
        lemma_trim_end_at(t, hi);
        assert(t.subrange(0, hi) =~= s.subrange(0, hi));
    }
}

fn char_is_space(c: char) -> (r: bool)
    ensures
        r == is_space(c),
{
    let u = c as u32;
    (9 <= u && u <= 13) || u == 32 || u == 0x85 || u == 0xA0 || u == 0x1680 || (0x2000 <= u && u
        <= 0x200A) || u == 0x2028 || u == 0x2029 || u == 0x202F || u == 0x205F || u == 0x3000
}

/// `s` without leading and trailing white space.
fn trim_chars(s: &Vec<char>) -> (r: Vec<char>)
    ensures
        r@ == trim(s@),
{
    let mut lo: usize = 0;
    while lo < s.len() && char_is_space(s[lo])
        invariant
            lo <= s.len(),
            forall|k: int| 0 <= k < lo ==> is_space(#[trigger] s@[k]),
        decreases s.len() - lo,
    {
        lo = lo + 1;
    }
    proof {
        lemma_trim_start_at(s@, lo as int);
    }
    let ghost t = s@.subrange(lo as int, s.len() as int);
    let mut hi: usize = s.len();
    while hi > lo && char_is_space(s[hi - 1])
        invariant
            lo <= hi <= s.len(),
            t == s@.subrange(lo as int, s.len() as int),
            forall|k: int| hi <= k < s.len() ==> is_space(#[trigger] s@[k]),
        decreases hi,
    {
        hi = hi - 1;
    }
    proof {
        assert forall|k: int| hi - lo <= k < t.len() implies is_space(#[trigger] t[k]) by {
            assert(t[k] == s@[k + lo]);
        }
        if hi > lo {
            assert(t[hi - lo - 1] == s@[hi - 1]);
        }
        lemma_trim_end_at(t, hi - lo);
        assert(t.subrange(0, hi - lo) =~= s@.subrange(lo as int, hi as int));
    }
    char_range(s, lo, hi)
}

/// The characters of each piece.
pub open spec fn pieces_view(v: Seq<Vec<char>>) -> Seq<Seq<char>> {
    v.map_values(|p: Vec<char>| p@)
}

/// The pieces of `s` between occurrences of `c`.
fn split_chars(s: &Vec<char>, c: char) -> (r: Vec<Vec<char>>)
    ensures
        pieces_view(r@) == split_on(s@, c),
{
    let mut done: Vec<Vec<char>> = Vec::new();
    let mut cur: Vec<char> = Vec::new();
    let mut i: usize = 0;
    assert(s@.take(0) =~= Seq::<char>::empty());
    while i < s.len()
        invariant
            i <= s.len(),
            pieces_view(done@).push(cur@) == split_on(s@.take(i as int), c),
        decreases s.len() - i,
    {
        let ghost before = pieces_view(done@).push(cur@);
        assert(s@.take(i as int + 1).drop_last() =~= s@.take(i as int));
        if s[i] == c {
            let finished = cur;
            done.push(finished);
            cur = Vec::new();
            assert(pieces_view(done@).push(cur@) =~= before.push(Seq::empty()));
        } else {
            cur.push(s[i]);
            assert(pieces_view(done@).push(cur@) =~= before.update(
                before.len() - 1,
                before.last().push(s@[i as int]),
            ));
        }
        i = i + 1;
    }
    assert(s@.take(s.len() as int) =~= s@);
    let last = cur;
    done.push(last);
    assert(pieces_view(done@) =~= split_on(s@, c));
    done
}

/// Whether `c` occurs in `s`.
fn has_char(s: &Vec<char>, c: char) -> (r: bool)
    ensures
        r == s@.contains(c),
{
    let mut i: usize = 0;
    while i < s.len()
        invariant
            i <= s.len(),
            forall|k: int| 0 <= k < i ==> s@[k] != c,
        decreases s.len() - i,
    {
        if s[i] == c {
            return true;
        }
        i = i + 1;
    }
    false
}

proof fn lemma_digits_value_grows(s: Seq<char>, i: int)
    requires
        0 <= i <= s.len(),
        forall|k: int| 0 <= k < s.len() ==> is_digit(#[trigger] s[k]),
    ensures
        digits_value(s.take(i)) <= digits_value(s),
    decreases s.len() - i,
{
    if i < s.len() {
        let t = s.drop_last();
        assert forall|k: int| 0 <= k < t.len() implies is_digit(#[trigger] t[k]) by {
            assert(t[k] == s[k]);
        }
        lemma_digits_value_grows(t, i);
        assert(t.take(i) =~= s.take(i));
    } else {
        assert(s.take(i) =~= s);
    }
}

/// The `usize` that `s` spells, if it spells one.
fn parse_number(s: &Vec<char>) -> (r: Option<usize>)
    ensures
        r matches Some(n) ==> parse_usize(s@) == Some(n as nat),
        r is None ==> parse_usize(s@) is None,
{
    let start: usize = if s.len() > 0 && s[0] == '+' {
        1
    } else {
        0
    };
    let ghost d = unsigned_digits(s@);
    assert(d =~= s@.subrange(start as int, s.len() as int));
    if start == s.len() {
        return None;
    }
    let mut i: usize = start;
    while i < s.len()
        invariant
            start <= i <= s.len(),
            d == unsigned_digits(s@),
            d == s@.subrange(start as int, s.len() as int),
            forall|k: int| start <= k < i ==> is_digit(#[trigger] s@[k]),
        decreases s.len() - i,
    {
        if !('0' <= s[i] && s[i] <= '9') {
            assert(d[i - start] == s@[i as int]);
            assert(!is_digit(d[i - start]));
            return None;
        }
        i = i + 1;
    }
    assert forall|k: int| 0 <= k < d.len() implies is_digit(#[trigger] d[k]) by {
        assert(d[k] == s@[k + start]);
    }
    let mut value: usize = 0;
    let mut j: usize = start;
    assert(d.take(0) =~= Seq::<char>::empty());
    while j < s.len()
        invariant
            start <= j <= s.len(),
            d == unsigned_digits(s@),
            d == s@.subrange(start as int, s.len() as int),
            forall|k: int| 0 <= k < d.len() ==> is_digit(#[trigger] d[k]),
            value == digits_value(d.take(j - start)),
        decreases s.len() - j,
    {
        let ghost n = j - start;
        assert(d.take(n + 1).drop_last() =~= d.take(n));
        assert(d.take(n + 1).last() == s@[j as int]);
        let digit: usize = (s[j] as u32 - '0' as u32) as usize;
        assert(digits_value(d.take(n + 1)) == value * 10 + digit);
        if value > (usize::MAX - digit) / 10 {
            proof {
                assert(value * 10 + digit > usize::MAX) by (nonlinear_arith)
                    requires
                        value > (usize::MAX - digit) / 10,
                        digit <= 9,
                ;
                lemma_digits_value_grows(d, n + 1);
            }
            return None;
        }
        assert(value * 10 + digit <= usize::MAX) by (nonlinear_arith)
            requires
                value <= (usize::MAX - digit) / 10,
                digit <= 9,
        ;
        value = value * 10 + digit;
        j = j + 1;
    }
    assert(d.take(d.len() as int) =~= d);
    Some(value)
}

/// The indices `k` of `0..mask.len()` with `mask[k]` set, in ascending order.
fn marked_indices(mask: &Vec<bool>) -> (r: Vec<usize>)
    ensures
        forall|i: int, j: int| 0 <= i < j < r.len() ==> r@[i] < r@[j],
        forall|i: int| 0 <= i < r.len() ==> r@[i] < mask.len() && mask@[r@[i] as int],
        forall|k: int| 0 <= k < mask.len() && mask@[k] ==> r@.contains(k as usize),
{
    let mut r: Vec<usize> = Vec::new();
    let mut k: usize = 0;
    while k < mask.len()
        invariant
            k <= mask.len(),
            forall|i: int, j: int| 0 <= i < j < r.len() ==> r@[i] < r@[j],
            forall|i: int| 0 <= i < r.len() ==> r@[i] < k && mask@[r@[i] as int],
            forall|m: int| 0 <= m < k && mask@[m] ==> r@.contains(m as usize),
        decreases mask.len() - k,
    {
        let ghost prev = r@;
        if mask[k] {
            r.push(k);
            assert forall|m: int| 0 <= m < k + 1 && mask@[m] implies r@.contains(m as usize) by {
                if m < k {
                    let idx = choose|idx: int| 0 <= idx < prev.len() && prev[idx] == m as usize;
                    assert(r@[idx] == m as usize);
                } else {
                    assert(r@[r.len() - 1] == k);
                }
            }
        }
        k = k + 1;
    }
    r
}

/// Sets `mask[k]` for every `k` in `lo..hi`.
fn mark_range(mask: &mut Vec<bool>, lo: usize, hi: usize)
    requires
        hi <= old(mask).len(),
    ensures
        final(mask).len() == old(mask).len(),
        forall|m: int|
            0 <= m < old(mask).len() ==> (final(mask)@[m] <==> (old(mask)@[m] || (lo <= m < hi))),
{
    let mut k: usize = lo;
    while k < hi
        invariant
            mask.len() == old(mask).len(),
            hi <= mask.len(),
            lo <= k,
            forall|m: int|
                0 <= m < mask.len() ==> (mask@[m] <==> (old(mask)@[m] || (lo <= m < k && m
                    < hi))),
        decreases hi - k,
    {
        let ghost before = mask@;
        mask.set(k, true);
        assert(mask@ == before.update(k as int, true));
        assert forall|m: int| 0 <= m < mask.len() implies (mask@[m] <==> (old(mask)@[m] || (lo
            <= m < k + 1 && m < hi))) by {
            if m != k {
                assert(mask@[m] == before[m]);
            }
        }
        k = k + 1;
    }
}

/// Reads a selection of a pool of `max` archives: comma-separated entries,
/// each a 1-based number or an inclusive range `a-b`. Numbers outside
/// `1..=max` are dropped; the result holds each chosen 0-based index once, in
/// ascending order. A malformed number fails the whole selection.
pub fn parse_selection(input: &str, max: usize) -> (r: Result<Vec<usize>, SelectionError>)
    ensures
        r is Ok <==> selection_is_valid(input@),
        r matches Err(e) ==> selection_fails_with(input@, e),
        r matches Ok(v) ==> lists_selection(v@, input@, max as int),
{
    let text = chars_of(input);
    let parts = split_chars(&text, ',');
    let ghost pv = pieces_view(parts@);
    assert(pv == selection_parts(input@));
    let mut mask: Vec<bool> = Vec::new();
    while mask.len() < max
        invariant
            mask.len() <= max,
            forall|k: int| 0 <= k < mask.len() ==> !mask@[k],
        decreases max - mask.len(),
    {
        mask.push(false);
    }
    let mut j: usize = 0;
    while j < parts.len()
        invariant
            pv == pieces_view(parts@),
            pv == selection_parts(input@),
            j <= parts.len(),
            mask.len() == max,
            forall|i: int| 0 <= i < j ==> part_error(#[trigger] pv[i]) is None,
            forall|k: int|
                0 <= k < max ==> (mask@[k] <==> exists|i: int|
                    0 <= i < j && part_selects(#[trigger] pv[i], k + 1)),
        decreases parts.len() - j,
    {
        let ghost old_mask = mask@;
        let ghost part = pv[j as int];
        assert forall|m: int| 0 <= m < max && old_mask[m] implies exists|i: int|
            0 <= i < j && part_selects(#[trigger] pv[i], m + 1) by {}
        assert(parts@[j as int]@ == part);
        let t = trim_chars(&parts[j]);
        if has_char(&t, '-') {
            let range = split_chars(&t, '-');
            if range.len() == 2 {
                assert(pieces_view(range@)[0] == range@[0]@);
                assert(pieces_view(range@)[1] == range@[1]@);
                let a = match parse_number(&range[0]) {
                    Some(a) => a,
                    None => {
                        assert(selection_fails_with(input@, SelectionError::InvalidRangeStart));
                        return Err(SelectionError::InvalidRangeStart);
                    },
                };
                let b = match parse_number(&range[1]) {
                    Some(b) => b,
                    None => {
                        assert(selection_fails_with(input@, SelectionError::InvalidRangeEnd));
                        return Err(SelectionError::InvalidRangeEnd);
                    },
                };
                let lo: usize = if a < 1 {
                    0
                } else {
                    a - 1
                };
                let hi: usize = if b > max {
                    max
                } else {
                    b
                };
                mark_range(&mut mask, lo, hi);
                assert forall|m: int| 0 <= m < max implies (mask@[m] <==> (old_mask[m]
                    || part_selects(part, m + 1))) by {
                    assert(part_selects(part, m + 1) <==> (a <= m + 1 <= b));
                }
            } else {
                assert forall|m: int| 0 <= m < max implies (mask@[m] <==> (old_mask[m]
                    || part_selects(part, m + 1))) by {
                    assert(!part_selects(part, m + 1));
                }
            }
        } else {
            match parse_number(&t) {
                Some(n) => {
                    if 1 <= n && n <= max {
                        mask.set(n - 1, true);
                    }
                    assert forall|m: int| 0 <= m < max implies (mask@[m] <==> (old_mask[m]
                        || part_selects(part, m + 1))) by {
                        if part_selects(part, m + 1) {
                            assert(m + 1 == n);
                        }
                    }
                },
                None => {
                    assert(selection_fails_with(input@, SelectionError::InvalidNumber));
                    return Err(SelectionError::InvalidNumber);
                },
            }
        }
        assert forall|m: int| 0 <= m < max implies (mask@[m] <==> exists|i: int|
            0 <= i < j + 1 && part_selects(#[trigger] pv[i], m + 1)) by {
            if mask@[m] && !old_mask[m] {
                assert(part_selects(pv[j as int], m + 1));
            }
            if exists|i: int| 0 <= i < j + 1 && part_selects(#[trigger] pv[i], m + 1) {
                let i = choose|i: int| 0 <= i < j + 1 && part_selects(#[trigger] pv[i], m + 1);
                if i < j {
                    assert(old_mask[m]);
                }
            }
        }
        j = j + 1;
    }
    let v = marked_indices(&mask);
    assert forall|k: int| #[trigger] selects(input@, max as int, k) implies v@.contains(
        k as usize,
    ) by {
        let i = choose|i: int| 0 <= i < pv.len() && part_selects(#[trigger] pv[i], k + 1);
        assert(mask@[k]);
    }
    assert forall|i: int| 0 <= i < v.len() implies selects(
        input@,
        max as int,
        #[trigger] v@[i] as int,
    ) by {
        assert(mask@[v@[i] as int]);
    }
    Ok(v)
}

/// Whether `s` is the word `all` in any mix of ASCII case.
fn is_all(s: &Vec<char>) -> (r: bool)
    ensures
        r == is_all_word(s@),
{
    s.len() == 3 && (s[0] == 'a' || s[0] == 'A') && (s[1] == 'l' || s[1] == 'L') && (s[2] == 'l'
        || s[2] == 'L')
}

/// Reads the answer to the selection prompt for a pool of `count` archives:
/// an empty answer or `all` (in any case) chooses every archive; anything
/// else is read by `parse_selection`. Surrounding white space is ignored.
pub fn resolve_selection(input: &str, count: usize) -> (r: Result<Vec<usize>, SelectionError>)
    ensures
        ({
            let t = trim(input@);
            if t.len() == 0 || is_all_word(t) {
                r matches Ok(v) && lists_all(v@, count as int)
            } else {
                &&& r is Ok <==> selection_is_valid(t)
                &&& r matches Err(e) ==> selection_fails_with(t, e)
                &&& r matches Ok(v) ==> lists_selection(v@, t, count as int)
            }
        }),
{
    let text = chars_of(input);
    let t = trim_chars(&text);
    if t.len() == 0 || is_all(&t) {
        let mut v: Vec<usize> = Vec::new();
        let mut k: usize = 0;
        while k < count
            invariant
                k <= count,
                v.len() == k,
                forall|i: int| 0 <= i < v.len() ==> v@[i] == i,
            decreases count - k,
        {
            v.push(k);
            k = k + 1;
        }
        Ok(v)
    } else {
        let trimmed = string_of(t.as_slice());
        parse_selection(trimmed.as_str(), count)
    }
}

} // verus!
