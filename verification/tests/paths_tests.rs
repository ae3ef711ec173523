use std::path::PathBuf;

use elasticlab::paths::{
    dir_path, infra_dir_path, lock_file_path, push_path, secret_file_path, stage_dir_path,
    work_dir_from_home, work_dir_path,
};

fn std_push(base: &str, comp: &str) -> Vec<u8> {
    let mut p = PathBuf::from(base);
    p.push(comp);
    p.into_os_string().into_encoded_bytes()
}

#[test]
fn push_path_agrees_with_pathbuf() {
    let cases = [
        ("/home/alice", ".elasticlab"),
        ("/home/alice/", "x"),
        ("a", "/abs"),
        ("", "x"),
        ("a", ""),
        ("/", "etc"),
        ("rel/dir", "f.tf"),
    ];
    for (b, c) in cases {
        assert_eq!(push_path(b.as_bytes(), c.as_bytes()), std_push(b, c));
    }
}

#[test]
fn push_path_keeps_raw_bytes() {
    let home: Vec<u8> = vec![b'/', b'h', 0xff, 0xfe, b'x'];
    let mut expected = home.clone();
    expected.extend_from_slice(b"/.elasticlab");
    assert_eq!(work_dir_from_home(&home), expected);
}

#[test]
fn work_dir_entries() {
    let w = work_dir_from_home(b"/home/alice");
    assert_eq!(w, b"/home/alice/.elasticlab".to_vec());
    assert_eq!(infra_dir_path(&w), b"/home/alice/.elasticlab/infra".to_vec());
    assert_eq!(lock_file_path(&w), b"/home/alice/.elasticlab/lock".to_vec());
    assert_eq!(secret_file_path(&w), b"/home/alice/.elasticlab/secret".to_vec());
    assert_eq!(stage_dir_path(&w), b"/home/alice/.elasticlab/stage".to_vec());
    assert_eq!(dir_path(&w, "x"), b"/home/alice/.elasticlab/x".to_vec());
}

#[test]
fn work_dir_is_in_home() {
    if let Some(w) = work_dir_path() {
        assert!(w.ends_with(b"/.elasticlab"));
        assert!(w.len() > b"/.elasticlab".len());
    }
}
