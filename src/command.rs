use vstd::prelude::*;

use crate::archive::{dir_part, Archive, ArchiveType};
use crate::extraction::{needs_target_dir, start_of, transition, Action, Event, Phase};

verus! {

/// An external tool invocation as plain data: the program to start and its
/// arguments, in order.
pub struct ExtractCommand {
    pub program: String,
    pub args: Vec<String>,
}

/// The characters of each string of a sequence.
pub open spec fn strings_view(v: Seq<String>) -> Seq<Seq<char>> {
    v.map_values(|s: String| s@)
}

/// A password seen through its characters.
pub open spec fn password_view(p: Option<String>) -> Option<Seq<char>> {
    match p {
        Some(s) => Some(s@),
        None => None,
    }
}

/// The tool that handles a format in the given mode.
pub open spec fn program_of(kind: ArchiveType, test: bool) -> Seq<char> {
    match kind {
        ArchiveType::SevenZip | ArchiveType::Zip => "7zz"@,
        ArchiveType::Rar => "unrar"@,
        ArchiveType::TarGz => if test {
            "gzip"@
        } else {
            "tar"@
        },
    }
}

/// The leading verb of 7zz and unrar: `t` to test, `x -y` to extract.
pub open spec fn verb_args(test: bool) -> Seq<Seq<char>> {
    if test {
        seq!["t"@]
    } else {
        seq!["x"@, "-y"@]
    }
}

/// The password arguments of 7zz: one fused `-p<password>`, or none.
pub open spec fn sevenzip_password_args(password: Option<Seq<char>>) -> Seq<Seq<char>> {
    match password {
        Some(p) => seq!["-p"@ + p],
        None => Seq::empty(),
    }
}

/// The password arguments of unrar: `-p <password>`, or `-p-` so that it never
/// asks for one.
pub open spec fn rar_password_args(password: Option<Seq<char>>) -> Seq<Seq<char>> {
    match password {
        Some(p) => seq!["-p"@, p],
        None => seq!["-p-"@],
    }
}

/// The arguments of the tool for an archive at `path` with base name `base`.
/// Output paths are relative to the archive's own directory, in which the
/// tool runs.
pub open spec fn command_args(
    kind: ArchiveType,
    test: bool,
    password: Option<Seq<char>>,
    path: Seq<char>,
    base: Seq<char>,
) -> Seq<Seq<char>> {
    match kind {
        ArchiveType::SevenZip | ArchiveType::Zip => verb_args(test) + seq![path]
            + sevenzip_password_args(password) + seq!["-o"@ + base],
        ArchiveType::Rar => verb_args(test) + seq![path] + rar_password_args(password) + if test {
            Seq::empty()
        } else {
            seq![base]
        },
        ArchiveType::TarGz => if test {
            seq!["-t"@, path]
        } else {
            seq!["xzf"@, path, "-C"@, base]
        },
    }
}

/// A tar.gz archive is extracted into a directory that exists before tar
/// runs: every run of such an extraction asks for the target directory to be
/// created first, and tar's `-C` argument is the base name, which names that
/// directory inside the archive's own directory, where the tool runs.
pub proof fn lemma_tar_destination_exists(
    force: bool,
    phase: Phase,
    ev: Event,
    password: Option<Seq<char>>,
    path: Seq<char>,
    base: Seq<char>,
)
    ensures
        needs_target_dir(ArchiveType::TarGz, false),
        (start_of(force, true).1 is Run) ==> start_of(force, true).1 == (Action::Run {
            create_target: true,
        }),
        (transition(phase, true, ev).1 is Run) ==> transition(phase, true, ev).1 == (Action::Run {
            create_target: true,
        }),
        command_args(ArchiveType::TarGz, false, password, path, base) == seq![
            "xzf"@,
            path,
            "-C"@,
            base,
        ],
        dir_part(path) + command_args(ArchiveType::TarGz, false, password, path, base)[3]
            == dir_part(path) + base,
{
}

/// In test mode unrar gets no output directory: only the verb, the archive
/// and the password arguments.
pub proof fn lemma_rar_test_has_no_output_dir(
    password: Option<Seq<char>>,
    path: Seq<char>,
    base: Seq<char>,
)
    ensures
        command_args(ArchiveType::Rar, true, password, path, base) == seq!["t"@, path]
            + rar_password_args(password),
{
    assert(command_args(ArchiveType::Rar, true, password, path, base) =~= seq!["t"@, path]
        + rar_password_args(password));
}

/// Without a password unrar is told `-p-`, so that it never asks for one,
/// and 7zz gets no password argument at all.
pub proof fn lemma_no_password_arguments(
    kind: ArchiveType,
    test: bool,
    path: Seq<char>,
    base: Seq<char>,
)
    ensures
        kind == ArchiveType::Rar ==> command_args(kind, test, None, path, base) == verb_args(test)
            + seq![path, "-p-"@] + (if test {
            Seq::empty()
        } else {
            seq![base]
        }),
        kind == ArchiveType::SevenZip || kind == ArchiveType::Zip ==> command_args(
            kind,
            test,
            None,
            path,
            base,
        ) == verb_args(test) + seq![path, "-o"@ + base],
{
    assert(verb_args(test) + seq![path] + seq!["-p-"@] =~= verb_args(test) + seq![path, "-p-"@]);
    assert(verb_args(test) + seq![path] + Seq::<Seq<char>>::empty() + seq!["-o"@ + base]
        =~= verb_args(test) + seq![path, "-o"@ + base]);
}

/// `a` followed by `b`, as a new string.
fn concat_str(a: &str, b: &str) -> (r: String)
    ensures
        r@ == a@ + b@,
{
    let mut s = String::from_str(a);
    s.append(b);
    s
}

/// Pushes a copy of `s`.
fn push_str(args: &mut Vec<String>, s: &str)
    ensures
        strings_view(final(args)@) == strings_view(old(args)@).push(s@),
{
    args.push(String::from_str(s));
    assert(strings_view(final(args)@) =~= strings_view(old(args)@).push(s@));
}

/// Pushes the verb of 7zz and unrar.
fn push_verb(args: &mut Vec<String>, test: bool)
    ensures
        strings_view(final(args)@) == strings_view(old(args)@) + verb_args(test),
{
    let ghost start = strings_view(args@);
    if test {
        push_str(args, "t");
        assert(strings_view(args@) =~= start + verb_args(test));
    } else {
        push_str(args, "x");
        push_str(args, "-y");
        assert(strings_view(args@) =~= start + verb_args(test));
    }
}

impl Archive {
    /// The command line that tests (`test`) or extracts the archive, with
    /// the password if one is given.
    pub fn extract_command(&self, test: bool, password: &Option<String>) -> (r: ExtractCommand)
        ensures
            r.program@ == program_of(self.archive_type, test),
            strings_view(r.args@) == command_args(
                self.archive_type,
                test,
                password_view(*password),
                self.path@,
                self.base_name@,
            ),
    {
        let mut args: Vec<String> = Vec::new();
        let path = self.path.as_str();
        let base = self.base_name.as_str();
        let ghost pw = password_view(*password);
        match self.archive_type {
            ArchiveType::SevenZip | ArchiveType::Zip => {
                push_verb(&mut args, test);
                push_str(&mut args, path);
                let ghost before = strings_view(args@);
                match password {
                    Some(p) => {
                        args.push(concat_str("-p", p.as_str()));
                        assert(strings_view(args@) =~= before + sevenzip_password_args(pw));
                    },
                    None => {
                        assert(strings_view(args@) =~= before + sevenzip_password_args(pw));
                    },
                }
                let ghost mid = strings_view(args@);
                args.push(concat_str("-o", base));
                assert(strings_view(args@) =~= mid + seq!["-o"@ + self.base_name@]);
                proof {
                    assert(strings_view(args@) =~= command_args(
                        self.archive_type,
                        test,
                        pw,
                        self.path@,
                        self.base_name@,
                    ));
                }
                ExtractCommand { program: String::from_str("7zz"), args }
            },
            ArchiveType::Rar => {
                push_verb(&mut args, test);
                push_str(&mut args, path);
                let ghost before = strings_view(args@);
                match password {
                    Some(p) => {
                        push_str(&mut args, "-p");
                        push_str(&mut args, p.as_str());
                    },
                    None => {
                        push_str(&mut args, "-p-");
                    },
                }
                assert(strings_view(args@) =~= before + rar_password_args(pw));
                let ghost mid = strings_view(args@);
                if !test {
                    push_str(&mut args, base);
                }
                proof {
                    assert(strings_view(args@) =~= command_args(
                        self.archive_type,
                        test,
                        pw,
                        self.path@,
                        self.base_name@,
                    ));
                }
                ExtractCommand { program: String::from_str("unrar"), args }
            },
            ArchiveType::TarGz => {
                if test {
                    push_str(&mut args, "-t");
                    push_str(&mut args, path);
                    assert(strings_view(args@) =~= command_args(
                        self.archive_type,
                        test,
                        pw,
                        self.path@,
                        self.base_name@,
                    ));
                    ExtractCommand { program: String::from_str("gzip"), args }
                } else {
                    push_str(&mut args, "xzf");
                    push_str(&mut args, path);
                    push_str(&mut args, "-C");
                    push_str(&mut args, base);
                    assert(strings_view(args@) =~= command_args(
                        self.archive_type,
                        test,
                        pw,
                        self.path@,
                        self.base_name@,
                    ));
                    ExtractCommand { program: String::from_str("tar"), args }
                }
            },
        }
    }
}

} // verus!
