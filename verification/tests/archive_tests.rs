use std::io::Write;

use mod_manager::archive::{archive_entry, archive_entry_data, archive_len, archive_root, open_archive};

fn build_zip(dirs: &[&str], files: &[(&str, &[u8])]) -> Vec<u8> {
    let mut writer = zip::ZipWriter::new(std::io::Cursor::new(Vec::new()));
    let options = zip::write::SimpleFileOptions::default();
    for d in dirs {
        writer.add_directory(d.to_string(), options).unwrap();
    }
    for (name, data) in files {
        writer.start_file(name.to_string(), options).unwrap();
        writer.write_all(data).unwrap();
    }
    writer.finish().unwrap().into_inner()
}

#[test]
fn archive_entries_are_listed() {
    let bytes = build_zip(&["Pack/"], &[("Pack/a.dll", b"abc"), ("Pack/sub/b.txt", b"hello")]);
    let mut archive = open_archive(&bytes).unwrap();
    assert_eq!(archive_len(&archive), 3);
    let dir = archive_entry(&mut archive, 0).unwrap();
    assert!(dir.is_dir);
    assert_eq!(dir.path, Some(vec!["Pack".to_string()]));
    let file = archive_entry(&mut archive, 2).unwrap();
    assert!(!file.is_dir);
    assert_eq!(file.path, Some(vec!["Pack".to_string(), "sub".to_string(), "b.txt".to_string()]));
    assert_eq!(archive_entry_data(&mut archive, 2).unwrap(), b"hello".to_vec());
    assert_eq!(archive_entry_data(&mut archive, 1).unwrap(), b"abc".to_vec());
    assert!(archive_entry(&mut archive, 3).is_err());
}

#[test]
fn escaping_paths_are_not_enclosed() {
    let bytes = build_zip(&[], &[("../evil.txt", b"x")]);
    let mut archive = open_archive(&bytes).unwrap();
    assert_eq!(archive_entry(&mut archive, 0).unwrap().path, None);
}

#[test]
fn archive_root_found_for_single_folder() {
    let bytes = build_zip(&["Pack/"], &[("Pack/a.dll", b"abc")]);
    let mut archive = open_archive(&bytes).unwrap();
    assert_eq!(archive_root(&mut archive, false).unwrap(), Some("Pack".to_string()));
    assert_eq!(archive_root(&mut archive, true).unwrap(), None);
    let mixed = build_zip(&[], &[("a.dll", b"1"), ("b/c.dll", b"2")]);
    let mut archive = open_archive(&mixed).unwrap();
    assert_eq!(archive_root(&mut archive, false).unwrap(), None);
}

#[test]
fn not_an_archive() {
    assert!(open_archive(b"not a zip file").is_err());
}

#[test]
fn archive_with_a_lone_file_has_no_root() {
    let bytes = build_zip(&[], &[("readme.txt", b"R")]);
    let mut archive = open_archive(&bytes).unwrap();
    assert_eq!(archive_root(&mut archive, false).unwrap(), None);
}

#[test]
fn archive_root_without_directory_entry() {
    let bytes = build_zip(&[], &[("Pack/a.dll", b"1"), ("Pack/b/c.dll", b"2")]);
    let mut archive = open_archive(&bytes).unwrap();
    assert_eq!(archive_root(&mut archive, false).unwrap(), Some("Pack".to_string()));
}
