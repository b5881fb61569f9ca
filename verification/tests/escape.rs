use qemu_agent::escape::{filter_escape, ESCAPE};

#[test]
fn client_plain_input_passes_through() {
    let mut escaped = false;
    let (out, quit) = filter_escape(b"hello", &mut escaped);
    assert_eq!(out, b"hello");
    assert!(!quit);
    assert!(!escaped);
}

#[test]
fn client_escape_then_q_quits() {
    let mut escaped = false;
    let (out, quit) = filter_escape(&[ESCAPE, b'q'], &mut escaped);
    assert!(quit);
    assert!(out.is_empty());
}

#[test]
fn client_escape_split_across_reads() {
    let mut escaped = false;
    let (out, quit) = filter_escape(&[b'a', ESCAPE], &mut escaped);
    assert_eq!(out, b"a");
    assert!(!quit);
    assert!(escaped);
    let (out, quit) = filter_escape(b"q", &mut escaped);
    assert!(quit);
    assert!(out.is_empty());
}

#[test]
fn client_escape_not_followed_by_q_is_forwarded() {
    let mut escaped = false;
    let (out, quit) = filter_escape(&[ESCAPE, b'x'], &mut escaped);
    assert_eq!(out, &[ESCAPE, b'x']);
    assert!(!quit);
    assert!(!escaped);
}

#[test]
fn client_double_escape_holds_second() {
    let mut escaped = false;
    let (out, quit) = filter_escape(&[ESCAPE, ESCAPE], &mut escaped);
    assert_eq!(out, &[ESCAPE]);
    assert!(!quit);
    assert!(escaped);
}

#[test]
fn vmctl_plain_input_passes_through() {
    let mut escaped = false;
    let (out, quit) = filter_escape(b"hello", &mut escaped);
    assert_eq!(out, b"hello");
    assert!(!quit);
    assert!(!escaped);
}

#[test]
fn vmctl_escape_then_q_quits() {
    let mut escaped = false;
    let (out, quit) = filter_escape(&[ESCAPE, b'q'], &mut escaped);
    assert!(quit);
    assert!(out.is_empty());
}

#[test]
fn vmctl_escape_split_across_reads() {
    let mut escaped = false;
    let (out, quit) = filter_escape(&[b'a', ESCAPE], &mut escaped);
    assert_eq!(out, b"a");
    assert!(!quit);
    assert!(escaped);
    let (out, quit) = filter_escape(b"q", &mut escaped);
    assert!(quit);
    assert!(out.is_empty());
}

#[test]
fn vmctl_escape_not_followed_by_q_is_forwarded() {
    let mut escaped = false;
    let (out, quit) = filter_escape(&[ESCAPE, b'x'], &mut escaped);
    assert_eq!(out, &[ESCAPE, b'x']);
    assert!(!quit);
    assert!(!escaped);
}

#[test]
fn vmctl_double_escape_holds_second() {
    let mut escaped = false;
    let (out, quit) = filter_escape(&[ESCAPE, ESCAPE], &mut escaped);
    assert_eq!(out, &[ESCAPE]);
    assert!(!quit);
    assert!(escaped);
}

#[test]
fn escape_escape_q_quits_and_forwards_the_first() {
    let mut escaped = false;
    let (out, quit) = filter_escape(&[ESCAPE, ESCAPE, b'q', b'z'], &mut escaped);
    assert_eq!(out, &[ESCAPE]);
    assert!(quit);
    assert!(!escaped);
}

#[test]
fn a_held_escape_comes_out_in_front_of_the_next_read() {
    let mut escaped = true;
    let (out, quit) = filter_escape(b"abc", &mut escaped);
    assert_eq!(out, [ESCAPE, b'a', b'b', b'c']);
    assert!(!quit);
    assert!(!escaped);
}

#[test]
fn an_empty_read_changes_nothing() {
    let mut escaped = true;
    assert_eq!(filter_escape(b"", &mut escaped), (vec![], false));
    assert!(escaped);
    let mut escaped = false;
    assert_eq!(filter_escape(b"", &mut escaped), (vec![], false));
    assert!(!escaped);
}

#[test]
fn splitting_the_input_forwards_the_same_bytes() {
    let input = [b'a', ESCAPE, b'b', ESCAPE, ESCAPE, b'c', ESCAPE, b'q', b'd'];
    let mut escaped = false;
    let (whole, quit) = filter_escape(&input, &mut escaped);
    assert!(quit);
    assert_eq!(whole, [b'a', ESCAPE, b'b', ESCAPE, ESCAPE, b'c']);
    for cut in 0..8 {
        let mut escaped = false;
        let (mut out, quit) = filter_escape(&input[..cut], &mut escaped);
        assert!(!quit || cut == 8);
        let (more, quit) = filter_escape(&input[cut..], &mut escaped);
        assert!(quit);
        out.extend_from_slice(&more);
        assert_eq!(out, whole);
    }
}
