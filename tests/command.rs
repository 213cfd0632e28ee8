use un7z::relay::{exit_status_result, RelayError};
use un7z::{Archive, ExtractCommand};

fn archive(path: &str) -> Archive {
    Archive::new(String::from(path)).unwrap()
}

fn parts(c: &ExtractCommand) -> (String, Vec<String>) {
    (c.program.clone(), c.args.clone())
}

fn owned(v: &[&str]) -> Vec<String> {
    v.iter().map(|s| String::from(*s)).collect()
}

#[test]
fn sevenzip_commands() {
    let a = archive("/d/set.7z.001");
    assert_eq!(
        parts(&a.extract_command(true, &None)),
        (String::from("7zz"), owned(&["t", "/d/set.7z.001", "-oset"]))
    );
    assert_eq!(
        parts(&a.extract_command(false, &None)),
        (String::from("7zz"), owned(&["x", "-y", "/d/set.7z.001", "-oset"]))
    );
    assert_eq!(
        parts(&a.extract_command(false, &Some(String::from("pw")))),
        (String::from("7zz"), owned(&["x", "-y", "/d/set.7z.001", "-ppw", "-oset"]))
    );
}

#[test]
fn zip_uses_sevenzip_tool() {
    let a = archive("z.zip.001");
    assert_eq!(
        parts(&a.extract_command(true, &Some(String::from("s e")))),
        (String::from("7zz"), owned(&["t", "z.zip.001", "-ps e", "-oz"]))
    );
}

#[test]
fn rar_commands() {
    let a = archive("/m/film.part001.rar");
    assert_eq!(
        parts(&a.extract_command(true, &None)),
        (String::from("unrar"), owned(&["t", "/m/film.part001.rar", "-p-"]))
    );
    assert_eq!(
        parts(&a.extract_command(true, &Some(String::from("k")))),
        (String::from("unrar"), owned(&["t", "/m/film.part001.rar", "-p", "k"]))
    );
    assert_eq!(
        parts(&a.extract_command(false, &None)),
        (String::from("unrar"), owned(&["x", "-y", "/m/film.part001.rar", "-p-", "film"]))
    );
    assert_eq!(
        parts(&a.extract_command(false, &Some(String::from("k")))),
        (String::from("unrar"), owned(&["x", "-y", "/m/film.part001.rar", "-p", "k", "film"]))
    );
}

#[test]
fn rar_test_mode_has_no_output_dir() {
    let a = archive("film.part01.rar");
    let c = a.extract_command(true, &Some(String::from("film")));
    assert_eq!(c.args, owned(&["t", "film.part01.rar", "-p", "film"]));
    let c2 = a.extract_command(true, &None);
    assert!(!c2.args.contains(&String::from("film")));
}

#[test]
fn targz_commands() {
    let a = archive("/n/data.tar.gz");
    assert_eq!(
        parts(&a.extract_command(true, &Some(String::from("ignored")))),
        (String::from("gzip"), owned(&["-t", "/n/data.tar.gz"]))
    );
    assert_eq!(
        parts(&a.extract_command(false, &None)),
        (String::from("tar"), owned(&["xzf", "/n/data.tar.gz", "-C", "data"]))
    );
}

#[test]
fn no_password_gives_no_password_flag_for_sevenzip() {
    let a = archive("q.7z.001");
    for test in [true, false] {
        let c = a.extract_command(test, &None);
        assert!(c.args.iter().all(|s| !s.starts_with("-p")));
    }
}

#[test]
fn localized_replaces_the_archive_path() {
    let a = archive("/w/v/pack.part01.rar");
    let c = a.extract_command(false, &None);
    let name = Archive::file_name_of(&a.path);
    let l = c.localized(&a.path, &name).unwrap();
    assert_eq!(l.program, "unrar");
    assert_eq!(l.args, owned(&["x", "-y", "pack.part01.rar", "-p-", "pack"]));
}

#[test]
fn localized_needs_the_archive_path() {
    let a = archive("/w/v/pack.tgz");
    let c = a.extract_command(true, &None);
    assert!(c.localized(&String::from("/elsewhere.tgz"), &String::from("x")).is_none());
}

#[test]
fn exit_status_maps_to_result() {
    assert_eq!(exit_status_result(0), Ok(()));
    assert_eq!(exit_status_result(2), Err(RelayError::CommandFailed(2)));
    assert_eq!(exit_status_result(-1), Err(RelayError::CommandFailed(-1)));
}
