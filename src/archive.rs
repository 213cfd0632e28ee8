use vstd::prelude::*;

use crate::text::{char_range, chars_of, ends_with, has_suffix, string_of, without_suffix};

verus! {

/// The archive formats that are recognised, each by the name of its first file.
#[derive(Clone, Copy, Debug, PartialEq, Eq, Structural)]
pub enum ArchiveType {
    SevenZip,
    Zip,
    Rar,
    TarGz,
}

/// Number of recognised file-name suffixes.
pub const SUFFIX_COUNT: usize = 6;

/// The recognised suffixes, in the order in which they are tried.
pub open spec fn suffix_at(i: int) -> Seq<char> {
    if i == 0 {
        seq!['.', '7', 'z', '.', '0', '0', '1']
    } else if i == 1 {
        seq!['.', 'z', 'i', 'p', '.', '0', '0', '1']
    } else if i == 2 {
        seq!['.', 't', 'a', 'r', '.', 'g', 'z']
    } else if i == 3 {
        seq!['.', 't', 'g', 'z']
    } else if i == 4 {
        seq!['.', 'p', 'a', 'r', 't', '0', '1', '.', 'r', 'a', 'r']
    } else {
        seq!['.', 'p', 'a', 'r', 't', '0', '0', '1', '.', 'r', 'a', 'r']
    }
}

/// The kind that the suffix `suffix_at(i)` stands for.
pub open spec fn kind_at(i: int) -> ArchiveType {
    if i == 0 {
        ArchiveType::SevenZip
    } else if i == 1 {
        ArchiveType::Zip
    } else if i <= 3 {
        ArchiveType::TarGz
    } else {
        ArchiveType::Rar
    }
}

/// Classification of a file name from the `i`-th suffix on: the first
/// recognised suffix that the name ends with decides the kind, and the base
/// name is the file name without it.
pub open spec fn classify_from(name: Seq<char>, i: nat) -> Option<(ArchiveType, Seq<char>)>
    decreases SUFFIX_COUNT - i,
{
    if i >= SUFFIX_COUNT {
        None
    } else if has_suffix(name, suffix_at(i as int)) {
        Some((kind_at(i as int), without_suffix(name, suffix_at(i as int))))
    } else {
        classify_from(name, i + 1)
    }
}

/// The kind and base name of a file name, or `None` if it names no archive.
pub open spec fn classify(name: Seq<char>) -> Option<(ArchiveType, Seq<char>)> {
    classify_from(name, 0)
}

/// A classification result seen through the view of its base name.
pub open spec fn classified_view(r: Option<(ArchiveType, String)>) -> Option<(ArchiveType, Seq<char>)> {
    match r {
        Some((k, b)) => Some((k, b@)),
        None => None,
    }
}

/// The base name that a file name is extracted under (empty when it names no
/// archive).
pub open spec fn base_of(name: Seq<char>) -> Seq<char> {
    match classify(name) {
        Some((_, b)) => b,
        None => Seq::empty(),
    }
}

/// Index of the last `/` in a path, or -1 when it has none.
pub open spec fn last_slash(p: Seq<char>) -> int
    decreases p.len(),
{
    if p.len() == 0 {
        -1
    } else if p.last() == '/' {
        p.len() - 1
    } else {
        last_slash(p.drop_last())
    }
}

/// The directory part of a `/`-separated path: everything up to and including
/// its last `/` (empty for a bare file name).
pub open spec fn dir_part(p: Seq<char>) -> Seq<char> {
    p.subrange(0, last_slash(p) + 1)
}

/// The file name of a `/`-separated path: everything after its last `/`.
pub open spec fn file_part(p: Seq<char>) -> Seq<char> {
    p.subrange(last_slash(p) + 1, p.len() as int)
}

/// The directory in which a path's tool runs: its directory part, or `.`
/// when it has none.
pub open spec fn working_dir_of(p: Seq<char>) -> Seq<char> {
    if dir_part(p).len() == 0 {
        "."@
    } else {
        dir_part(p)
    }
}

/// `last_slash` is the position of a `/` after which no `/` follows.
pub proof fn lemma_last_slash(p: Seq<char>)
    ensures
        -1 <= last_slash(p) < p.len(),
        last_slash(p) >= 0 ==> p[last_slash(p)] == '/',
        forall|k: int| last_slash(p) < k < p.len() ==> p[k] != '/',
    decreases p.len(),
{
    if p.len() > 0 && p.last() != '/' {
        lemma_last_slash(p.drop_last());
        assert forall|k: int| last_slash(p) < k < p.len() implies p[k] != '/' by {
            if k < p.len() - 1 {
                assert(p[k] == p.drop_last()[k]);
            }
        }
    }
}

/// A position holding `/` with none after it is the last slash.
proof fn lemma_last_slash_at(p: Seq<char>, j: int)
    requires
        -1 <= j < p.len(),
        j >= 0 ==> p[j] == '/',
        forall|k: int| j < k < p.len() ==> p[k] != '/',
    ensures
        last_slash(p) == j,
    decreases p.len(),
{
    if p.len() > 0 && j < p.len() - 1 {
        lemma_last_slash_at(p.drop_last(), j);
    }
}

/// Where the file name of `p` starts: just after its last `/`, or 0.
fn file_start(p: &Vec<char>) -> (r: usize)
    ensures
        r == last_slash(p@) + 1,
        r <= p.len(),
{
    proof {
        lemma_last_slash(p@);
    }
    let mut i: usize = p.len();
    while i > 0
        invariant
            i <= p.len(),
            forall|k: int| i <= k < p.len() ==> p@[k] != '/',
        decreases i,
    {
        if p[i - 1] == '/' {
            proof {
                lemma_last_slash_at(p@, i - 1);
            }
            return i;
        }
        i = i - 1;
    }
    proof {
        lemma_last_slash_at(p@, -1);
    }
    0
}

/// No suffix tried before the `i`-th one matches a name that ends with the
/// `i`-th one.
proof fn lemma_no_earlier_suffix(base: Seq<char>, i: int, j: int)
    requires
        0 <= j < i < SUFFIX_COUNT,
    ensures
        !has_suffix(base + suffix_at(i), suffix_at(j)),
{
    let name = base + suffix_at(i);
    let si = suffix_at(i);
    let sj = suffix_at(j);
    let n = name.len() as int;
    if has_suffix(name, sj) {
        let tail = name.subrange(n - sj.len(), n);
        assert(tail[sj.len() - 1] == name[n - 1]);
        assert(name[n - 1] == si[si.len() - 1]);
        assert(tail[sj.len() - 3] == name[n - 3]);
        assert(name[n - 3] == si[si.len() - 3]);
        if sj.len() >= 7 && si.len() >= 7 {
            assert(tail[sj.len() - 7] == name[n - 7]);
            assert(name[n - 7] == si[si.len() - 7]);
        }
    }
}

proof fn lemma_classify_from_suffix(base: Seq<char>, i: int, j: nat)
    requires
        j <= i < SUFFIX_COUNT,
    ensures
        classify_from(base + suffix_at(i), j) == Some((kind_at(i), base)),
    decreases i - j,
{
    let name = base + suffix_at(i);
    if j < i {
        lemma_no_earlier_suffix(base, i, j as int);
        lemma_classify_from_suffix(base, i, j + 1);
    } else {
        assert(name.subrange(name.len() - suffix_at(i).len(), name.len() as int) =~= suffix_at(i));
        assert(without_suffix(name, suffix_at(i)) =~= base);
    }
}

/// A file name made of a base name and one recognised suffix is classified as
/// the kind of that suffix, with exactly that base name.
pub proof fn lemma_classify_recognised(base: Seq<char>, i: int)
    requires
        0 <= i < SUFFIX_COUNT,
    ensures
        classify(base + suffix_at(i)) == Some((kind_at(i), base)),
{
    lemma_classify_from_suffix(base, i, 0);
}

/// A file name that ends with none of the recognised suffixes names no archive.
pub proof fn lemma_classify_unrecognised(name: Seq<char>)
    requires
        forall|i: int| 0 <= i < SUFFIX_COUNT ==> !has_suffix(name, #[trigger] suffix_at(i)),
    ensures
        classify(name) is None,
{
    assert(!has_suffix(name, suffix_at(0)));
    assert(!has_suffix(name, suffix_at(1)));
    assert(!has_suffix(name, suffix_at(2)));
    assert(!has_suffix(name, suffix_at(3)));
    assert(!has_suffix(name, suffix_at(4)));
    assert(!has_suffix(name, suffix_at(5)));
    reveal_with_fuel(classify_from, 7);
}

/// What a successful classification from the `j`-th suffix on is made of.
proof fn lemma_classify_from_split(name: Seq<char>, j: nat)
    requires
        classify_from(name, j) is Some,
    ensures
        exists|i: int|
            j <= i < SUFFIX_COUNT && #[trigger] has_suffix(name, suffix_at(i)) && classify_from(
                name,
                j,
            ) == Some((kind_at(i), without_suffix(name, suffix_at(i)))),
    decreases SUFFIX_COUNT - j,
{
    if !has_suffix(name, suffix_at(j as int)) {
        lemma_classify_from_split(name, j + 1);
    } else {
        assert(has_suffix(name, suffix_at(j as int)));
    }
}

/// The extraction target of an archive is its path without the recognised
/// suffix: it lies in the same directory as the archive, and is named by the
/// base name.
pub proof fn lemma_target_beside_archive(path: Seq<char>)
    requires
        classify(file_part(path)) is Some,
    ensures
        ({
            let base = base_of(file_part(path));
            let target = dir_part(path) + base;
            &&& exists|i: int|
                0 <= i < SUFFIX_COUNT && path == target + #[trigger] suffix_at(i)
            &&& dir_part(target) == dir_part(path)
            &&& file_part(target) == base
        }),
{
    let name = file_part(path);
    let base = base_of(name);
    let dir = dir_part(path);
    let target = dir + base;
    lemma_last_slash(path);
    lemma_classify_from_split(name, 0);
    let i = choose|i: int|
        0 <= i < SUFFIX_COUNT && #[trigger] has_suffix(name, suffix_at(i)) && classify_from(
            name,
            0,
        ) == Some((kind_at(i), without_suffix(name, suffix_at(i))));
    assert(path =~= dir + name);
    assert(name =~= base + suffix_at(i));
    assert(path =~= target + suffix_at(i));
    assert forall|k: int| dir.len() <= k < target.len() implies target[k] != '/' by {
        assert(target[k] == path[k]);
    }
    lemma_last_slash_at(target, last_slash(path));
    assert(dir_part(target) =~= dir);
    assert(file_part(target) =~= base);
}

/// A suffix as a vector of characters.
fn suffix_chars(i: usize) -> (r: Vec<char>)
    requires
        i < SUFFIX_COUNT,
    ensures
        r@ == suffix_at(i as int),
{
    let r = if i == 0 {
        vec!['.', '7', 'z', '.', '0', '0', '1']
    } else if i == 1 {
        vec!['.', 'z', 'i', 'p', '.', '0', '0', '1']
    } else if i == 2 {
        vec!['.', 't', 'a', 'r', '.', 'g', 'z']
    } else if i == 3 {
        vec!['.', 't', 'g', 'z']
    } else if i == 4 {
        vec!['.', 'p', 'a', 'r', 't', '0', '1', '.', 'r', 'a', 'r']
    } else {
        vec!['.', 'p', 'a', 'r', 't', '0', '0', '1', '.', 'r', 'a', 'r']
    };
    assert(r@ =~= suffix_at(i as int));
    r
}

/// The kind that a suffix stands for.
fn kind_of_suffix(i: usize) -> (r: ArchiveType)
    ensures
        r == kind_at(i as int),
{
    if i == 0 {
        ArchiveType::SevenZip
    } else if i == 1 {
        ArchiveType::Zip
    } else if i <= 3 {
        ArchiveType::TarGz
    } else {
        ArchiveType::Rar
    }
}

/// One archive found on disk: where it is, the name it is extracted under,
/// and its format.
pub struct Archive {
    pub path: String,
    pub base_name: String,
    pub archive_type: ArchiveType,
}

impl ArchiveType {
    /// The short label under which the format is listed.
    pub fn label(&self) -> (r: &'static str)
        ensures
            r@ == label_of(*self),
    {
        match self {
            ArchiveType::SevenZip => "7z",
            ArchiveType::Zip => "zip",
            ArchiveType::Rar => "rar",
            ArchiveType::TarGz => "tar.gz",
        }
    }
}

/// The label of each format.
pub open spec fn label_of(k: ArchiveType) -> Seq<char> {
    match k {
        ArchiveType::SevenZip => "7z"@,
        ArchiveType::Zip => "zip"@,
        ArchiveType::Rar => "rar"@,
        ArchiveType::TarGz => "tar.gz"@,
    }
}

impl Archive {
    /// The archive at `path`, when its file name carries a recognised suffix.
    pub fn new(path: String) -> (r: Option<Archive>)
        ensures
            r is Some <==> classify(file_part(path@)) is Some,
            r matches Some(a) ==> {
                &&& a.path@ == path@
                &&& Some((a.archive_type, a.base_name@)) == classify(file_part(path@))
            },
    {
        let name = Archive::file_name_of(&path);
        match Archive::parse_type(name.as_str()) {
            Some((archive_type, base_name)) => Some(Archive { path, base_name, archive_type }),
            None => None,
        }
    }

    /// The file name of a `/`-separated path: what follows its last `/`.
    pub fn file_name_of(path: &String) -> (r: String)
        ensures
            r@ == file_part(path@),
    {
        let p = chars_of(path.as_str());
        let j = file_start(&p);
        let tail = char_range(&p, j, p.len());
        string_of(tail.as_slice())
    }

    /// The directory in which the archive is extracted: a sibling of the
    /// archive file, named by its base name.
    pub fn extract_dir(&self) -> (r: String)
        ensures
            r@ == dir_part(self.path@) + self.base_name@,
    {
        let p = chars_of(self.path.as_str());
        let j = file_start(&p);
        let mut dir = char_range(&p, 0, j);
        let base = chars_of(self.base_name.as_str());
        let mut i: usize = 0;
        while i < base.len()
            invariant
                dir@ == p@.subrange(0, j as int) + base@.subrange(0, i as int),
                i <= base.len(),
            decreases base.len() - i,
        {
            dir.push(base[i]);
            i = i + 1;
            assert(dir@ =~= p@.subrange(0, j as int) + base@.subrange(0, i as int));
        }
        assert(base@.subrange(0, i as int) =~= base@);
        string_of(dir.as_slice())
    }

    /// The directory that holds the archive, where its tool runs: the
    /// directory part of its path, or `.` for a bare file name.
    pub fn directory(&self) -> (r: String)
        ensures
            r@ == working_dir_of(self.path@),
    {
        let p = chars_of(self.path.as_str());
        let j = file_start(&p);
        if j == 0 {
            String::from_str(".")
        } else {
            let dir = char_range(&p, 0, j);
            string_of(dir.as_slice())
        }
    }

    /// The line that records a failed archive in the failure log: its path
    /// and a line break.
    pub fn failure_log_entry(&self) -> (r: String)
        ensures
            r@ == self.path@ + "\n"@,
    {
        let mut s = self.path.clone();
        s.append("\n");
        s
    }

    /// The kind and base name that a file name stands for: the first
    /// recognised suffix that it ends with decides, and is removed.
    pub fn parse_type(filename: &str) -> (r: Option<(ArchiveType, String)>)
        ensures
            classified_view(r) == classify(filename@),
    {
        let name = chars_of(filename);
        let mut i: usize = 0;
        while i < SUFFIX_COUNT
            invariant
                name@ == filename@,
                i <= SUFFIX_COUNT,
                classify(filename@) == classify_from(filename@, i as nat),
            decreases SUFFIX_COUNT - i,
        {
            let sfx = suffix_chars(i);
            if ends_with(&name, &sfx) {
                let base = char_range(&name, 0, name.len() - sfx.len());
                let base_name = string_of(base.as_slice());
                return Some((kind_of_suffix(i), base_name));
            }
            i = i + 1;
        }
        None
    }
}

} // verus!
