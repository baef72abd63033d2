use towerzip::paths::{
    bytes_eq, extension, file_name, join, parent, stem, strip_prefix, with_extension,
};
use towerzip::unzip::{initial_output_for, Task, UnZipCli};

#[test]
fn join_inserts_one_separator() {
    assert_eq!(join(&b"out".to_vec(), &b"a.txt".to_vec()), b"out/a.txt".to_vec());
    assert_eq!(join(&b"out/".to_vec(), &b"a.txt".to_vec()), b"out/a.txt".to_vec());
    assert_eq!(join(&b"".to_vec(), &b"a.txt".to_vec()), b"a.txt".to_vec());
}

#[test]
fn parent_drops_the_file_name() {
    assert_eq!(parent(&b"out/d/a.txt".to_vec()), b"out/d".to_vec());
    assert_eq!(parent(&b"a.txt".to_vec()), b"".to_vec());
    assert_eq!(parent(&b"/a.txt".to_vec()), b"/".to_vec());
}

#[test]
fn file_name_is_the_last_component() {
    assert_eq!(file_name(&b"out/d/a.txt".to_vec()), b"a.txt".to_vec());
    assert_eq!(file_name(&b"a.txt".to_vec()), b"a.txt".to_vec());
    assert_eq!(file_name(&b"out/".to_vec()), b"".to_vec());
}

#[test]
fn extension_follows_the_last_dot() {
    assert_eq!(extension(&b"a.tar.gz".to_vec()), Some(b"gz".to_vec()));
    assert_eq!(extension(&b"dir.d/name".to_vec()), None);
    assert_eq!(extension(&b".hidden".to_vec()), None);
    assert_eq!(extension(&b"app.apk".to_vec()), Some(b"apk".to_vec()));
}

#[test]
fn stem_strips_the_extension() {
    assert_eq!(stem(&b"dir/name.tar".to_vec()), b"name".to_vec());
    assert_eq!(stem(&b"dir/name".to_vec()), b"name".to_vec());
    assert_eq!(stem(&b".hidden".to_vec()), b".hidden".to_vec());
}

#[test]
fn with_extension_replaces_or_appends() {
    assert_eq!(with_extension(&b"out/name.tar".to_vec(), &b"zip".to_vec()), b"out/name.zip".to_vec());
    assert_eq!(with_extension(&b"out/name".to_vec(), &b"zip".to_vec()), b"out/name.zip".to_vec());
}

#[test]
fn strip_prefix_needs_nesting() {
    assert_eq!(strip_prefix(&b"in/d/a.txt".to_vec(), &b"in".to_vec()), Some(b"d/a.txt".to_vec()));
    assert_eq!(strip_prefix(&b"in/d/a.txt".to_vec(), &b"in/".to_vec()), Some(b"d/a.txt".to_vec()));
    assert_eq!(strip_prefix(&b"in".to_vec(), &b"in".to_vec()), Some(b"".to_vec()));
    assert_eq!(strip_prefix(&b"index/a".to_vec(), &b"in".to_vec()), None);
    assert_eq!(strip_prefix(&b"other/a".to_vec(), &b"in".to_vec()), None);
}

#[test]
fn bytes_eq_is_exact() {
    assert!(bytes_eq(&b"abc".to_vec(), &b"abc".to_vec()));
    assert!(!bytes_eq(&b"abc".to_vec(), &b"abd".to_vec()));
    assert!(!bytes_eq(&b"abc".to_vec(), &b"ab".to_vec()));
}

#[test]
fn initial_output_mirrors_the_tree() {
    // A directory root: the file's relative directory reappears under the
    // output root.
    assert_eq!(
        initial_output_for(&b"in/d/a.txt".to_vec(), &b"in".to_vec(), true, &b"out".to_vec()),
        Some(b"out/d".to_vec()),
    );
    // A single-file root keeps the output root itself.
    assert_eq!(
        initial_output_for(&b"a.zip".to_vec(), &b"a.zip".to_vec(), false, &b"out".to_vec()),
        Some(b"out/".to_vec()),
    );
    // A file outside the root seeds nothing.
    assert_eq!(
        initial_output_for(&b"elsewhere/a.txt".to_vec(), &b"in".to_vec(), true, &b"out".to_vec()),
        None,
    );
}

#[test]
fn display_line_spells_input_and_output() {
    let t = Task::new(b"in/a.zip".to_vec(), b"out".to_vec(), None, &b"xxxxxxxx".to_vec());
    assert_eq!(t.display_bytes(), b" in/a.zip -> out".to_vec());
}

#[test]
fn get_mode_reads_the_cleanup_flag() {
    let cli = UnZipCli {
        input: b"in".to_vec(),
        output: None,
        password: None,
        mode: true,
    };
    assert!(cli.get_mode());
}
