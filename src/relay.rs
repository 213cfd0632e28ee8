use vstd::prelude::*;

use crate::command::{strings_view, ExtractCommand};

verus! {

/// Why running an archive tool failed.
#[derive(Clone, Copy, Debug, PartialEq, Eq, Structural)]
pub enum RelayError {
    /// The pseudo-terminal or the process could not be set up.
    SpawnFailed,
    /// The tool ran and exited with this non-zero status.
    CommandFailed(i32),
}

/// The result of a finished tool run from its exit status: success exactly
/// when the status is zero.
pub fn exit_status_result(code: i32) -> (r: Result<(), RelayError>)
    ensures
        code == 0 ==> r is Ok,
        code != 0 ==> r == Err::<(), RelayError>(RelayError::CommandFailed(code)),
{
    if code == 0 {
        Ok(())
    } else {
        Err(RelayError::CommandFailed(code))
    }
}

/// The arguments with each one that equals `path` replaced by `name`.
pub open spec fn localized_args(args: Seq<Seq<char>>, path: Seq<char>, name: Seq<char>) -> Seq<
    Seq<char>,
> {
    args.map_values(|a: Seq<char>| if a == path { name } else { a })
}

impl ExtractCommand {
    /// The command as run from inside the archive's own directory: every
    /// argument that is the archive's path becomes its bare file name, since
    /// some tools accept only that. `None` when no argument is the path.
    pub fn localized(&self, archive_path: &String, file_name: &String) -> (r: Option<
        ExtractCommand,
    >)
        ensures
            r is Some <==> strings_view(self.args@).contains(archive_path@),
            r matches Some(c) ==> c.program@ == self.program@ && strings_view(c.args@)
                == localized_args(strings_view(self.args@), archive_path@, file_name@),
    {
        let mut args: Vec<String> = Vec::new();
        let mut found = false;
        let mut i: usize = 0;
        while i < self.args.len()
            invariant
                i <= self.args.len(),
                strings_view(args@) == localized_args(
                    strings_view(self.args@),
                    archive_path@,
                    file_name@,
                ).take(i as int),
                found <==> strings_view(self.args@).take(i as int).contains(archive_path@),
            decreases self.args.len() - i,
        {
            let ghost before = strings_view(args@);
            let ghost sv = strings_view(self.args@);
            assert(sv.take(i as int + 1) =~= sv.take(i as int).push(sv[i as int]));
            if self.args[i] == *archive_path {
                args.push(file_name.clone());
                found = true;
                assert(sv.take(i as int + 1)[i as int] == archive_path@);
            } else {
                args.push(self.args[i].clone());
                proof {
                    if sv.take(i as int + 1).contains(archive_path@) {
                        let k = choose|k: int|
                            0 <= k < i + 1 && #[trigger] sv.take(i as int + 1)[k] == archive_path@;
                        assert(sv.take(i as int)[k] == archive_path@);
                    }
                }
            }
            let ghost la = localized_args(sv, archive_path@, file_name@);
            assert(la.take(i as int + 1) =~= la.take(i as int).push(la[i as int]));
            assert(strings_view(args@) =~= before.push(args@[i as int]@));
            assert(strings_view(args@) =~= la.take(i as int + 1));
            i = i + 1;
        }
        assert(strings_view(self.args@).take(i as int) =~= strings_view(self.args@));
        assert(localized_args(strings_view(self.args@), archive_path@, file_name@).take(i as int)
            =~= localized_args(strings_view(self.args@), archive_path@, file_name@));
        if found {
            Some(ExtractCommand { program: self.program.clone(), args })
        } else {
            None
        }
    }
}

} // verus!
