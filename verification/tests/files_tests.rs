use tcp_messenger::files::candidate_name;

#[test]
fn attempt_zero_keeps_the_name() {
    assert_eq!(candidate_name(b"notes.txt", 0), b"notes.txt".to_vec());
}

#[test]
fn suffix_goes_before_the_extension() {
    assert_eq!(candidate_name(b"notes.txt", 1), b"notes(1).txt".to_vec());
    assert_eq!(candidate_name(b"notes.txt", 99), b"notes(99).txt".to_vec());
}

#[test]
fn the_last_dot_starts_the_extension() {
    assert_eq!(
        candidate_name(b"archive.tar.gz", 2),
        b"archive.tar(2).gz".to_vec()
    );
}

#[test]
fn a_name_without_extension_gets_the_suffix_appended() {
    assert_eq!(candidate_name(b"README", 3), b"README(3)".to_vec());
}

#[test]
fn all_bounded_attempts_are_pairwise_distinct() {
    let mut seen: Vec<Vec<u8>> = Vec::new();
    for attempt in 0..=99u64 {
        let name = candidate_name(b"photo.jpg", attempt);
        assert!(!seen.contains(&name));
        seen.push(name);
    }
}
