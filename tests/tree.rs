use thl_patcher::tree::{
    apply_entry, apply_tree, diff_entry, diff_mode, diff_tree_chunked, patch_mode, ArchiveEntry, DiffError, DiffState,
    InputKind, PatchError, TreeFile, TreeMode,
};

fn file(path: &str, content: &[u8]) -> TreeFile {
    TreeFile { path: path.to_string(), content: content.to_vec() }
}

fn view(t: &[TreeFile]) -> Vec<(String, Vec<u8>)> {
    t.iter().map(|f| (f.path.clone(), f.content.clone())).collect()
}

#[test]
fn round_trip_rebuilds_the_new_tree() {
    let old = vec![
        file("a.txt", b"hello world, this is the old text"),
        file("dir/b.bin", &[0u8, 1, 2, 3, 4, 5, 6, 7, 8, 9]),
        file("c", b""),
    ];
    let new = vec![
        file("dir/b.bin", &[0u8, 1, 2, 3, 40, 5, 6, 7, 8, 9, 10, 11]),
        file("a.txt", b"hello world, this is the new text!"),
        file("c", b"now not empty"),
    ];
    let archive = match diff_tree_chunked(&old, &new, 1 << 20) {
        Ok(a) => a,
        Err(_) => panic!("diff failed"),
    };
    let paths: Vec<&str> = archive.iter().map(|e| e.path.as_str()).collect();
    assert_eq!(paths, vec!["dir/b.bin", "a.txt", "c"]);
    let staged = match apply_tree(&old, &archive) {
        Ok(s) => s,
        Err(_) => panic!("apply failed"),
    };
    assert_eq!(view(&staged), view(&new));
}

#[test]
fn file_only_in_new_is_not_archived() {
    let old = vec![file("kept", b"abc")];
    let new = vec![file("kept", b"abd"), file("fresh", b"brand new")];
    let archive = match diff_tree_chunked(&old, &new, 1 << 20) {
        Ok(a) => a,
        Err(_) => panic!("diff failed"),
    };
    assert_eq!(archive.len(), 1);
    assert_eq!(archive[0].path, "kept");
}

#[test]
fn file_only_in_old_is_not_staged() {
    let old = vec![file("kept", b"abc"), file("only_old", b"stays")];
    let new = vec![file("kept", b"xyz")];
    let archive = match diff_tree_chunked(&old, &new, 1 << 20) {
        Ok(a) => a,
        Err(_) => panic!("diff failed"),
    };
    let staged = match apply_tree(&old, &archive) {
        Ok(s) => s,
        Err(_) => panic!("apply failed"),
    };
    assert_eq!(view(&staged), vec![("kept".to_string(), b"xyz".to_vec())]);
}

#[test]
fn entry_without_old_file_is_skipped() {
    let old = vec![file("a", b"1")];
    let entry = ArchiveEntry { path: "missing".to_string(), delta: vec![1, 2, 3] };
    assert!(matches!(apply_entry(&old, &entry), Ok(None)));
    let staged = match apply_tree(&old, &vec![entry]) {
        Ok(s) => s,
        Err(_) => panic!("a skipped entry is no error"),
    };
    assert!(staged.is_empty());
}

#[test]
fn corrupt_delta_is_a_patch_error() {
    let old = vec![file("a", b"some content")];
    let entry = ArchiveEntry { path: "a".to_string(), delta: b"not a delta at all, clearly".to_vec() };
    assert!(matches!(apply_entry(&old, &entry), Err(PatchError::DdeltaPatch(_))));
    assert!(matches!(apply_tree(&old, &vec![entry]), Err(PatchError::DdeltaPatch(_))));
}

#[test]
fn diff_entry_of_file_without_counterpart_is_none() {
    let old = vec![file("a", b"1")];
    assert!(matches!(diff_entry(&old, &file("b", b"2"), 16), Ok(None)));
}

#[test]
fn delta_is_not_the_new_content() {
    let old = vec![file("a", b"0123456789")];
    let new = file("a", b"0123456789abc");
    let entry = match diff_entry(&old, &new, 16) {
        Ok(Some(e)) => e,
        _ => panic!("diff failed"),
    };
    assert_eq!(entry.path, "a");
    assert_ne!(entry.delta, new.content);
    let staged = match apply_entry(&old, &entry) {
        Ok(Some(f)) => f,
        _ => panic!("apply failed"),
    };
    assert_eq!(staged.content, new.content);
}

fn round_trip_with_chunk(old_len: usize, new_len: usize, chunk: usize) {
    let old_content: Vec<u8> = (0..old_len).map(|i| (i * 7 % 251) as u8).collect();
    let new_content: Vec<u8> = (0..new_len).map(|i| (i * 7 % 251) as u8 ^ ((i % 5 == 0) as u8)).collect();
    let old = vec![file("f", &old_content)];
    let new = vec![file("f", &new_content)];
    let archive = match diff_tree_chunked(&old, &new, chunk) {
        Ok(a) => a,
        Err(_) => panic!("diff failed"),
    };
    let staged = match apply_tree(&old, &archive) {
        Ok(s) => s,
        Err(_) => panic!("apply failed"),
    };
    assert_eq!(view(&staged), view(&new));
}

#[test]
fn chunk_boundary_exact_multiple() {
    round_trip_with_chunk(64, 64, 16);
}

#[test]
fn chunk_boundary_one_byte_over() {
    round_trip_with_chunk(65, 65, 16);
}

#[test]
fn chunk_boundary_one_byte_under() {
    round_trip_with_chunk(63, 63, 16);
}

#[test]
fn chunk_boundary_sizes_differ() {
    round_trip_with_chunk(48, 65, 16);
    round_trip_with_chunk(65, 47, 16);
}

#[test]
fn empty_trees_give_an_empty_archive() {
    let archive = match diff_tree_chunked(&Vec::new(), &Vec::new(), 16) {
        Ok(a) => a,
        Err(_) => panic!("diff failed"),
    };
    assert!(archive.is_empty());
}

#[test]
fn diff_state_counts_files() {
    let s = DiffState::new(3);
    let s = s.advance().advance();
    assert_eq!((s.done, s.out_of), (2, 3));
}

#[test]
fn diff_needs_two_directories_or_two_files() {
    assert!(matches!(diff_mode(InputKind::Directory, InputKind::Directory), Ok(TreeMode::Tree)));
    assert!(matches!(diff_mode(InputKind::File, InputKind::File), Ok(TreeMode::SingleFile)));
    assert!(matches!(diff_mode(InputKind::File, InputKind::Directory), Err(DiffError::TypeMismatch)));
    assert!(matches!(diff_mode(InputKind::Directory, InputKind::Missing), Err(DiffError::TypeMismatch)));
    assert!(matches!(diff_mode(InputKind::Other, InputKind::Other), Err(DiffError::TypeMismatch)));
}

#[test]
fn patch_destination_must_match_or_be_missing() {
    assert!(matches!(patch_mode(InputKind::Directory, InputKind::Missing), Ok(TreeMode::Tree)));
    assert!(matches!(patch_mode(InputKind::Directory, InputKind::Directory), Ok(TreeMode::Tree)));
    assert!(matches!(patch_mode(InputKind::File, InputKind::Missing), Ok(TreeMode::SingleFile)));
    assert!(matches!(patch_mode(InputKind::File, InputKind::File), Ok(TreeMode::SingleFile)));
    assert!(matches!(patch_mode(InputKind::Directory, InputKind::File), Err(PatchError::TypeMismatch)));
    assert!(matches!(patch_mode(InputKind::File, InputKind::Directory), Err(PatchError::TypeMismatch)));
    assert!(matches!(patch_mode(InputKind::Missing, InputKind::Missing), Err(PatchError::TypeMismatch)));
}

#[test]
fn delta_whose_piece_sizes_overflow_is_rejected() {
    let old = vec![file("a", b"abcdefgh")];
    let entry = match diff_entry(&old, &file("a", b"abcdefgz"), 16) {
        Ok(Some(e)) => e,
        _ => panic!("diff failed"),
    };
    let mut delta = entry.delta.clone();
    delta.extend_from_slice(b"DDELTA40");
    delta.extend_from_slice(&[0xff; 8]);
    delta.extend_from_slice(&[0u8; 24]);
    let crafted = ArchiveEntry { path: "a".to_string(), delta };
    assert!(matches!(apply_entry(&old, &crafted), Err(PatchError::DeltaSizeOverflow)));
    assert!(matches!(apply_tree(&old, &vec![crafted]), Err(PatchError::DeltaSizeOverflow)));
}

#[test]
fn round_trip_keeps_only_files_with_a_counterpart() {
    let old = vec![file("a", b"first old"), file("b", b"second old")];
    let new = vec![file("a", b"first new"), file("c", b"no counterpart"), file("b", b"second new")];
    let archive = match diff_tree_chunked(&old, &new, 1 << 20) {
        Ok(a) => a,
        Err(_) => panic!("a diff cannot fail"),
    };
    let staged = match apply_tree(&old, &archive) {
        Ok(s) => s,
        Err(_) => panic!("apply failed"),
    };
    assert_eq!(view(&staged), vec![("a".to_string(), b"first new".to_vec()), ("b".to_string(), b"second new".to_vec())]);
}

#[test]
fn two_file_diff_rebuilds_the_new_file() {
    let old = vec![file("game.bin", &[7u8; 40])];
    let new = file("game.bin", &[7u8, 7, 8, 7, 7, 9, 7, 7, 7, 7, 7, 7, 7, 7, 7, 7, 1, 2, 3]);
    let entry = match diff_entry(&old, &new, 8) {
        Ok(Some(e)) => e,
        _ => panic!("diff failed"),
    };
    let staged = match apply_entry(&old, &entry) {
        Ok(Some(f)) => f,
        _ => panic!("apply failed"),
    };
    assert_eq!(staged.content, new.content);
}
