use towerzip::unzip::{classify, head_bytes, TaskType};

fn cl(head: &[u8], path: &[u8]) -> TaskType {
    classify(&head.to_vec(), &path.to_vec())
}

#[test]
fn zip_signature_is_zip() {
    assert_eq!(cl(&[0x50, 0x4B, 0x03, 0x04, 0, 0, 0, 0], b"dir/a.zip"), TaskType::Zip);
}

#[test]
fn zip_signature_without_extension_is_zip() {
    assert_eq!(cl(&[0x50, 0x4B, 0x03, 0x04, 9, 9, 9, 9], b"archive"), TaskType::Zip);
}

#[test]
fn apk_is_opaque_despite_zip_signature() {
    assert_eq!(cl(&[0x50, 0x4B, 0x03, 0x04, 0, 0, 0, 0], b"app.apk"), TaskType::File);
}

#[test]
fn jar_is_opaque_despite_zip_signature() {
    assert_eq!(cl(&[0x50, 0x4B, 0x03, 0x04, 0, 0, 0, 0], b"lib/tool.jar"), TaskType::File);
}

#[test]
fn bzip_signature_is_bzip() {
    assert_eq!(cl(&[0x42, 0x5A, 0x68, 0x39, 0, 0, 0, 0], b"a.bz2"), TaskType::BZip);
}

#[test]
fn bzip_signature_wins_over_apk_extension() {
    // The opaque-container rule lives in the ZIP arm alone: a bzip2-headed
    // file named .apk still classifies as bzip2.
    assert_eq!(cl(&[0x42, 0x5A, 0x68, 0x39, 0, 0, 0, 0], b"odd.apk"), TaskType::BZip);
}

#[test]
fn rar_signature_is_rar() {
    assert_eq!(cl(&[0x52, 0x61, 0x72, 0x21, 0x1A, 7, 0, 0], b"a.rar"), TaskType::Rar);
}

#[test]
fn short_file_is_opaque() {
    // Under 8 bytes there is no complete head: always an opaque file, even
    // when what is there matches a signature.
    assert_eq!(cl(&[0x50, 0x4B, 0x03, 0x04], b"tiny.zip"), TaskType::File);
    assert_eq!(cl(&[], b"empty"), TaskType::File);
    assert_eq!(cl(&[0x42, 0x5A, 0x68], b"t.bz2"), TaskType::File);
}

#[test]
fn unknown_bytes_are_opaque() {
    assert_eq!(cl(b"plain te", b"notes.txt"), TaskType::File);
}

#[test]
fn head_bytes_truncates_to_eight() {
    let long = b"0123456789".to_vec();
    assert_eq!(head_bytes(&long), b"01234567".to_vec());
    let short = b"abc".to_vec();
    assert_eq!(head_bytes(&short), b"abc".to_vec());
}
