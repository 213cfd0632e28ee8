use vstd::prelude::*;

use crate::archive::{classify, file_part, Archive, ArchiveType};
use crate::text::chars_of;

verus! {

/// Code-point order of characters, which is also the order of their UTF-8
/// encodings.
pub open spec fn char_lt(a: char, b: char) -> bool {
    (a as u32) < (b as u32)
}

/// Lexicographic order of strings: the order in which archives are listed.
pub open spec fn lex_lt(a: Seq<char>, b: Seq<char>) -> bool
    decreases a.len(),
{
    if a.len() == 0 {
        b.len() > 0
    } else if b.len() == 0 {
        false
    } else if a[0] == b[0] {
        lex_lt(a.drop_first(), b.drop_first())
    } else {
        char_lt(a[0], b[0])
    }
}

proof fn lemma_lex_asymmetric(a: Seq<char>, b: Seq<char>)
    ensures
        lex_lt(a, b) ==> !lex_lt(b, a),
    decreases a.len(),
{
    if a.len() > 0 && b.len() > 0 && a[0] == b[0] {
        lemma_lex_asymmetric(a.drop_first(), b.drop_first());
    }
}

proof fn lemma_lex_transitive(a: Seq<char>, b: Seq<char>, c: Seq<char>)
    ensures
        lex_lt(a, b) && lex_lt(b, c) ==> lex_lt(a, c),
    decreases a.len(),
{
    if a.len() > 0 && b.len() > 0 && c.len() > 0 && a[0] == b[0] && b[0] == c[0] {
        lemma_lex_transitive(a.drop_first(), b.drop_first(), c.drop_first());
    }
}

proof fn lemma_lex_total(a: Seq<char>, b: Seq<char>)
    ensures
        a != b ==> lex_lt(a, b) || lex_lt(b, a),
    decreases a.len(),
{
    if a.len() > 0 && b.len() > 0 {
        if a[0] == b[0] {
            lemma_lex_total(a.drop_first(), b.drop_first());
            if a.drop_first() == b.drop_first() {
                assert(a =~= seq![a[0]] + a.drop_first());
                assert(b =~= seq![b[0]] + b.drop_first());
            }
        } else {
            vstd::utf8::char_u32_cast(a[0], a[0] as u32);
            vstd::utf8::char_u32_cast(b[0], b[0] as u32);
        }
    } else if a.len() == 0 && b.len() == 0 {
        assert(a =~= b);
    }
}

proof fn lemma_lex_common_prefix(a: Seq<char>, b: Seq<char>, i: int)
    requires
        0 <= i <= a.len(),
        i <= b.len(),
        a.take(i) == b.take(i),
    ensures
        lex_lt(a, b) == lex_lt(a.skip(i), b.skip(i)),
    decreases i,
{
    if i > 0 {
        assert(a[0] == a.take(i)[0]);
        assert(b[0] == b.take(i)[0]);
        assert(a.drop_first().take(i - 1) =~= a.take(i).drop_first());
        assert(b.drop_first().take(i - 1) =~= b.take(i).drop_first());
        lemma_lex_common_prefix(a.drop_first(), b.drop_first(), i - 1);
        assert(a.drop_first().skip(i - 1) =~= a.skip(i));
        assert(b.drop_first().skip(i - 1) =~= b.skip(i));
    } else {
        assert(a.skip(0) =~= a);
        assert(b.skip(0) =~= b);
    }
}

/// Whether `a` comes before `b` in lexicographic order.
fn str_lt(a: &str, b: &str) -> (r: bool)
    ensures
        r == lex_lt(a@, b@),
{
    let x = chars_of(a);
    let y = chars_of(b);
    let mut i: usize = 0;
    while i < x.len() && i < y.len() && x[i] == y[i]
        invariant
            i <= x.len(),
            i <= y.len(),
            x@.take(i as int) == y@.take(i as int),
        decreases x.len() - i,
    {
        assert(x@.take(i as int + 1) =~= x@.take(i as int).push(x@[i as int]));
        assert(y@.take(i as int + 1) =~= y@.take(i as int).push(y@[i as int]));
        i = i + 1;
    }
    proof {
        lemma_lex_common_prefix(x@, y@, i as int);
        if i < x.len() && i < y.len() {
            assert(x@.skip(i as int)[0] == x@[i as int]);
            assert(y@.skip(i as int)[0] == y@[i as int]);
        }
    }
    if i == x.len() {
        i < y.len()
    } else if i == y.len() {
        false
    } else {
        (x[i] as u32) < (y[i] as u32)
    }
}

/// An archive seen as its path, base name and kind.
pub open spec fn archive_view(a: Archive) -> (Seq<char>, Seq<char>, ArchiveType) {
    (a.path@, a.base_name@, a.archive_type)
}

/// The archives among `paths`, in the order of the paths.
pub open spec fn archives_among(paths: Seq<Seq<char>>) -> Seq<(Seq<char>, Seq<char>, ArchiveType)>
    decreases paths.len(),
{
    if paths.len() == 0 {
        Seq::empty()
    } else {
        let p = paths.last();
        let rest = archives_among(paths.drop_last());
        match classify(file_part(p)) {
            Some((k, b)) => rest.push((p, b, k)),
            None => rest,
        }
    }
}

/// Archives listed by base name, in lexicographic order.
pub open spec fn sorted_by_base(v: Seq<(Seq<char>, Seq<char>, ArchiveType)>) -> bool {
    forall|i: int, j: int| 0 <= i < j < v.len() ==> !lex_lt(v[j].1, v[i].1)
}

/// Inserts `a` after every archive whose base name does not come after its
/// own, keeping the vector sorted.
fn insert_sorted(v: &mut Vec<Archive>, a: Archive)
    requires
        sorted_by_base(old(v)@.map_values(|x: Archive| archive_view(x))),
    ensures
        sorted_by_base(final(v)@.map_values(|x: Archive| archive_view(x))),
        final(v)@.map_values(|x: Archive| archive_view(x)).to_multiset() == old(v)@.map_values(
            |x: Archive| archive_view(x),
        ).to_multiset().insert(archive_view(a)),
{
    let ghost vs = v@.map_values(|x: Archive| archive_view(x));
    let mut p: usize = v.len();
    while p > 0 && str_lt(a.base_name.as_str(), v[p - 1].base_name.as_str())
        invariant
            p <= v.len(),
            vs == v@.map_values(|x: Archive| archive_view(x)),
            forall|i: int| p <= i < v.len() ==> lex_lt(a.base_name@, #[trigger] vs[i].1),
        decreases p,
    {
        p = p - 1;
    }
    let ghost key = a.base_name@;
    let ghost av = archive_view(a);
    v.insert(p, a);
    let ghost ws = v@.map_values(|x: Archive| archive_view(x));
    assert(ws =~= vs.insert(p as int, av));
    assert forall|i: int, j: int| 0 <= i < j < ws.len() implies !lex_lt(ws[j].1, ws[i].1) by {
        if i == p {
            lemma_lex_asymmetric(key, ws[j].1);
        } else if j == p {
            if lex_lt(key, ws[i].1) {
                lemma_lex_total(ws[i].1, vs[p - 1].1);
                lemma_lex_transitive(key, ws[i].1, vs[p - 1].1);
            }
        }
    }
    proof {
        assert(ws.remove(p as int) =~= vs);
        vs.to_multiset_ensures();
        ws.to_multiset_ensures();
        assert(ws[p as int] == av);
        assert(ws.to_multiset().remove(av) =~= vs.to_multiset());
        assert(ws.to_multiset() =~= vs.to_multiset().insert(av));
    }
}

/// The archives among the given file paths, each classified by its file
/// name, listed by base name in lexicographic order; archives with equal
/// base names keep the order of their paths.
pub fn collect_archives(paths: Vec<String>) -> (r: Vec<Archive>)
    ensures
        sorted_by_base(r@.map_values(|x: Archive| archive_view(x))),
        r@.map_values(|x: Archive| archive_view(x)).to_multiset() == archives_among(
            paths@.map_values(|s: String| s@),
        ).to_multiset(),
{
    let ghost pv = paths@.map_values(|s: String| s@);
    let mut r: Vec<Archive> = Vec::new();
    let mut i: usize = 0;
    let mut rest = paths;
    assert(pv.take(0) =~= Seq::<Seq<char>>::empty());
    assert(r@.map_values(|x: Archive| archive_view(x)) =~= archives_among(pv.take(0)));
    while i < rest.len()
        invariant
            pv == rest@.map_values(|s: String| s@),
            i <= rest.len(),
            sorted_by_base(r@.map_values(|x: Archive| archive_view(x))),
            r@.map_values(|x: Archive| archive_view(x)).to_multiset() == archives_among(
                pv.take(i as int),
            ).to_multiset(),
        decreases rest.len() - i,
    {
        let path = rest[i].clone();
        assert(pv.take(i as int + 1).drop_last() =~= pv.take(i as int));
        assert(pv.take(i as int + 1).last() == path@);
        let ghost before = archives_among(pv.take(i as int));
        match Archive::new(path) {
            Some(a) => {
                proof {
                    before.to_multiset_ensures();
                }
                insert_sorted(&mut r, a);
            },
            None => {},
        }
        i = i + 1;
    }
    assert(pv.take(i as int) =~= pv);
    r
}

} // verus!
