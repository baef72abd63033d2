use towerzip::enzip::{entry_name, Method, ZipCli};

fn cli(input: &[u8], output: &[u8], method: Method, extend: Option<&[u8]>) -> ZipCli {
    ZipCli {
        input: input.to_vec(),
        output: output.to_vec(),
        password: None,
        method,
        extend: extend.map(|e| e.to_vec()),
    }
}

#[test]
fn default_output_lands_beside_the_current_directory() {
    let c = cli(b"dir/name.tar", b"./", Method::Deflated, None);
    assert_eq!(c.get_output(), b"./name.zip".to_vec());
}

#[test]
fn bzip2_defaults_to_bz2() {
    let c = cli(b"dir/name.tar", b"./", Method::Bzip2, None);
    assert_eq!(c.get_output(), b"./name.bz2".to_vec());
}

#[test]
fn explicit_extension_wins() {
    let c = cli(b"dir/name", b"./", Method::Deflated, Some(b"pkg"));
    assert_eq!(c.get_output(), b"./name.pkg".to_vec());
}

#[test]
fn an_output_file_name_keeps_its_place() {
    let c = cli(b"dir/name.tar", b"backups/mine.old", Method::Deflated, None);
    assert_eq!(c.get_output(), b"backups/mine.zip".to_vec());
}

#[test]
fn get_method_reports_the_choice() {
    let c = cli(b"a", b"./", Method::Deflate64, None);
    assert_eq!(c.get_method(), Method::Deflate64);
}

#[test]
fn entry_names_are_relative_with_forward_slashes() {
    assert_eq!(
        entry_name(&b"root/d\\e/f.txt".to_vec(), &b"root".to_vec()),
        Some(b"d/e/f.txt".to_vec()),
    );
    assert_eq!(entry_name(&b"elsewhere/f.txt".to_vec(), &b"root".to_vec()), None);
}
