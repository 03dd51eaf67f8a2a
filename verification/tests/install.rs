use std::collections::BTreeMap;
use std::io::Write;

use addon_installer::errors::InstallError;
use addon_installer::install::{install_from_bytes, InstallOutcome};

/// Build an in-memory zip archive.  `None` data marks a directory entry.
fn make_zip(entries: &[(&str, Option<&[u8]>)]) -> Vec<u8> {
    let cur = std::io::Cursor::new(Vec::new());
    let mut w = zip::ZipWriter::new(cur);
    for (name, data) in entries {
        let options = zip::write::SimpleFileOptions::default();
        match data {
            Some(bytes) => {
                w.start_file(*name, options).unwrap();
                w.write_all(bytes).unwrap();
            }
            None => {
                w.add_directory(*name, options).unwrap();
            }
        }
    }
    w.finish().unwrap().into_inner()
}

fn strings(parts: &[&str]) -> Vec<String> {
    parts.iter().map(|s| s.to_string()).collect()
}

/// Apply an install outcome to a simulated destination file tree, the way
/// the surrounding program applies it to the filesystem: remove everything
/// under the previously-owned names, then write every extracted file.
fn apply_outcome(dest: &mut BTreeMap<Vec<String>, Vec<u8>>, out: &InstallOutcome) {
    dest.retain(|p, _| !out.remove.contains(&p[0]));
    for f in &out.files {
        dest.insert(f.path.clone(), f.data.clone());
    }
}

fn top_names(dest: &BTreeMap<Vec<String>, Vec<u8>>) -> Vec<String> {
    let mut v: Vec<String> = Vec::new();
    for p in dest.keys() {
        if !v.contains(&p[0]) {
            v.push(p[0].clone());
        }
    }
    v
}

#[test]
fn simple_archive_yields_its_folder_and_files() {
    let bytes = make_zip(&[
        ("AddonA/init.lua", Some(b"-- init")),
        ("AddonA/sub/data.txt", Some(b"data")),
        ("AddonA/sub/", None),
    ]);
    let out = install_from_bytes(bytes, &strings(&[]), &strings(&[])).unwrap();
    assert_eq!(out.folders, strings(&["AddonA"]));
    assert_eq!(out.remove, strings(&[]));
    assert_eq!(out.files.len(), 2);
    assert_eq!(out.files[0].path, strings(&["AddonA", "init.lua"]));
    assert_eq!(out.files[0].data, b"-- init".to_vec());
    assert_eq!(out.files[1].path, strings(&["AddonA", "sub", "data.txt"]));
    assert_eq!(out.files[1].data, b"data".to_vec());
}

#[test]
fn owned_folders_are_deduplicated_in_first_seen_order() {
    let bytes = make_zip(&[
        ("B/one.txt", Some(b"1")),
        ("A/two.txt", Some(b"2")),
        ("B/three.txt", Some(b"3")),
    ]);
    let out = install_from_bytes(bytes, &strings(&[]), &strings(&[])).unwrap();
    assert_eq!(out.folders, strings(&["B", "A"]));
}

#[test]
fn scanning_twice_yields_the_same_sequence() {
    let bytes = make_zip(&[
        ("B/one.txt", Some(b"1")),
        ("A/two.txt", Some(b"2")),
        ("B/three.txt", Some(b"3")),
    ]);
    let out1 = install_from_bytes(bytes.clone(), &strings(&[]), &strings(&[])).unwrap();
    let out2 = install_from_bytes(bytes, &strings(&[]), &strings(&[])).unwrap();
    assert_eq!(out1.folders, out2.folders);
}

#[test]
fn unowned_existing_folder_is_a_conflict() {
    let bytes = make_zip(&[("Foo/file.txt", Some(b"x"))]);
    let r = install_from_bytes(bytes, &strings(&["Foo"]), &strings(&[]));
    match r {
        Err(InstallError::Conflict(name)) => assert_eq!(name, "Foo"),
        _ => panic!("expected a conflict on Foo"),
    }
}

#[test]
fn owned_existing_folder_is_not_a_conflict() {
    let bytes = make_zip(&[("Foo/file.txt", Some(b"x"))]);
    let out = install_from_bytes(bytes, &strings(&["Foo"]), &strings(&["Foo"])).unwrap();
    assert_eq!(out.folders, strings(&["Foo"]));
}

#[test]
fn replace_on_update_swaps_the_old_folder_for_the_new() {
    let mut dest: BTreeMap<Vec<String>, Vec<u8>> = BTreeMap::new();
    dest.insert(strings(&["OldUI", "old.txt"]), b"old".to_vec());
    let bytes = make_zip(&[("NewUI/init.lua", Some(b"new"))]);
    let out =
        install_from_bytes(bytes, &top_names(&dest), &strings(&["OldUI"])).unwrap();
    assert_eq!(out.folders, strings(&["NewUI"]));
    assert_eq!(out.remove, strings(&["OldUI"]));
    apply_outcome(&mut dest, &out);
    assert!(dest.keys().all(|p| p[0] != "OldUI"));
    assert_eq!(
        dest.get(&strings(&["NewUI", "init.lua"])),
        Some(&b"new".to_vec())
    );
}

#[test]
fn installing_twice_reproduces_the_same_tree() {
    let bytes = make_zip(&[
        ("AddonA/init.lua", Some(b"-- init")),
        ("AddonB/core.lua", Some(b"-- core")),
        ("AddonA/sub/data.txt", Some(b"data")),
    ]);
    let mut dest: BTreeMap<Vec<String>, Vec<u8>> = BTreeMap::new();
    dest.insert(strings(&["Unrelated", "keep.txt"]), b"keep".to_vec());

    let out1 = install_from_bytes(bytes.clone(), &top_names(&dest), &strings(&[])).unwrap();
    apply_outcome(&mut dest, &out1);
    let after_first = dest.clone();

    let out2 =
        install_from_bytes(bytes, &top_names(&dest), &out1.folders.clone()).unwrap();
    assert_eq!(out2.folders, out1.folders);
    apply_outcome(&mut dest, &out2);

    assert_eq!(dest, after_first);
    assert_eq!(
        dest.get(&strings(&["Unrelated", "keep.txt"])),
        Some(&b"keep".to_vec())
    );
}

#[test]
fn traversal_entries_cannot_leave_the_root_and_empty_ones_are_skipped() {
    let bytes = make_zip(&[
        ("../..", Some(b"escapes nothing")),
        ("../../etc/passwd", Some(b"boo")),
    ]);
    let out = install_from_bytes(bytes, &strings(&[]), &strings(&[])).unwrap();
    // The fully cancelled name contributes no file at all; the other one is
    // pulled back under the destination root.
    assert_eq!(out.files.len(), 1);
    assert_eq!(out.files[0].path, strings(&["etc", "passwd"]));
    assert_eq!(out.folders, strings(&["etc"]));
}

#[test]
fn directory_entries_contribute_nothing() {
    let bytes = make_zip(&[("AddonA/", None), ("AddonA/sub/", None)]);
    let out = install_from_bytes(bytes, &strings(&[]), &strings(&[])).unwrap();
    assert_eq!(out.folders, strings(&[]));
    assert_eq!(out.files.len(), 0);
}

#[test]
fn a_corrupted_entry_reports_an_extraction_error() {
    let payload = b"0123456789 payload 0123456789 payload";
    let cur = std::io::Cursor::new(Vec::new());
    let mut w = zip::ZipWriter::new(cur);
    let options = zip::write::SimpleFileOptions::default()
        .compression_method(zip::CompressionMethod::Stored);
    w.start_file("Foo/data.bin", options).unwrap();
    w.write_all(payload).unwrap();
    let mut bytes = w.finish().unwrap().into_inner();
    // Flip one byte inside the stored payload so the checksum no longer
    // matches; the central directory stays intact, so the archive opens
    // but reading the entry's bytes fails.
    let pos = bytes
        .windows(payload.len())
        .position(|win| win == payload)
        .unwrap();
    bytes[pos + 4] ^= 0xff;
    let r = install_from_bytes(bytes, &strings(&[]), &strings(&[]));
    assert!(matches!(r, Err(InstallError::ExtractionIo)));
}

#[test]
fn garbage_bytes_are_not_an_archive() {
    let r = install_from_bytes(vec![1, 2, 3, 4, 5], &strings(&[]), &strings(&[]));
    assert!(matches!(r, Err(InstallError::ArchiveOpen)));
}
