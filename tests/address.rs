use ph::address::{count_strays, match_is_good, rewrite_addresses, MAX_STRAYS};

const ADDR: &[u8] = b"7YWHMfk9JZe0LM0g1ZauHuiSxhI";

fn line(prefix: &str, suffix: &str) -> Vec<u8> {
    let mut v = prefix.as_bytes().to_vec();
    v.extend_from_slice(ADDR);
    v.extend_from_slice(suffix.as_bytes());
    v
}

#[test]
fn address_alone_on_line() {
    let b = line("", "\n");
    assert!(match_is_good(&b, 0, ADDR.len()));
}

#[test]
fn address_between_spaces() {
    let b = line("send to ", " please\n");
    assert!(match_is_good(&b, 8, 8 + ADDR.len()));
}

#[test]
fn address_glued_to_text_is_rejected() {
    let b = line("x", "\n");
    assert!(!match_is_good(&b, 1, 1 + ADDR.len()));
    let b = line("", "-\n");
    assert!(!match_is_good(&b, 0, ADDR.len()));
}

#[test]
fn address_length_bounds() {
    let mut b = vec![b'7'; 35];
    b.push(b'\n');
    assert!(match_is_good(&b, 0, 35));
    assert!(!match_is_good(&b, 0, 36));
    assert!(!match_is_good(&b, 0, 26));
    assert!(!match_is_good(&b, 9, 35));

    let mut c = b"a ".to_vec();
    c.extend_from_slice(&[b'7'; 26]);
    assert!(match_is_good(&c, 2, 28));
    assert!(!match_is_good(&c, 3, 28));
}

fn rewrite(s: &str) -> String {
    String::from_utf8(rewrite_addresses(s.as_bytes()).unwrap()).unwrap()
}

#[test]
fn rewrite_replaces_address_mid_line() {
    assert_eq!(
        rewrite("Please send the payment of 750 Boguscoins to 7iKDZEwPZSqIvDnHvVN2r0hUWXD5rHX\n"),
        "Please send the payment of 750 Boguscoins to 7YWHMfk9JZe0LM0g1ZauHuiSxhI\n"
    );
}

#[test]
fn rewrite_replaces_every_address() {
    assert_eq!(
        rewrite("7F1u3wSD5RbOHQmupo9nx4TnhQ 7adNeSwJkMakpEcln9HEtthSRtxdmEHOT8T\n"),
        "7YWHMfk9JZe0LM0g1ZauHuiSxhI 7YWHMfk9JZe0LM0g1ZauHuiSxhI\n"
    );
}

#[test]
fn rewrite_leaves_other_text_alone() {
    let s = "Hi alice, 7 apples and x7iKDZEwPZSqIvDnHvVN2r0hUWXD5rHX are not addresses\n";
    assert_eq!(rewrite(s), s);
    let too_long = "This is a product ID, not a Boguscoin: 7LOrwbDlS8NujgjddyogWgIM93MV5N2VR-hlJ3D1bUfwjqRAgj9ZGVnB9fjKaJuiMQ-1234\n";
    assert_eq!(rewrite(too_long), too_long);
    assert_eq!(rewrite(""), "");
}

#[test]
fn rewrite_skips_a_bad_candidate_then_finds_a_good_one() {
    assert_eq!(
        rewrite("x7iKDZEwPZSqIvDnHvVN2r0hUWXD5rHX then 7iKDZEwPZSqIvDnHvVN2r0hUWXD5rHX"),
        "x7iKDZEwPZSqIvDnHvVN2r0hUWXD5rHX then 7YWHMfk9JZe0LM0g1ZauHuiSxhI"
    );
}

#[test]
fn rewrite_takes_the_whole_run_of_letters_and_digits() {
    assert_eq!(rewrite("77777777777777777777777777 ok\n"), "7YWHMfk9JZe0LM0g1ZauHuiSxhI ok\n");
    assert_eq!(rewrite("7 7x 7iKDZEwPZSqIvDnHvVN2r0hUWXD5rHX\n"), "7 7x 7YWHMfk9JZe0LM0g1ZauHuiSxhI\n");
}

#[test]
fn stray_sevens_are_counted() {
    assert_eq!(count_strays(b""), 0);
    assert_eq!(count_strays(b"7"), 1);
    assert_eq!(count_strays(b"7a 7 7- 77"), 3);
}

#[test]
fn too_many_stray_sevens_are_refused() {
    let line = "7 ".repeat(199);
    assert_eq!(rewrite_addresses(line.as_bytes()), None);
    let line = "7 ".repeat(MAX_STRAYS + 1);
    assert_eq!(rewrite_addresses(line.as_bytes()), None);
}

#[test]
fn most_stray_sevens_still_rewritten() {
    let mut line = "7 ".repeat(MAX_STRAYS);
    line.push_str("7iKDZEwPZSqIvDnHvVN2r0hUWXD5rHX\n");
    let mut expected = "7 ".repeat(MAX_STRAYS);
    expected.push_str("7YWHMfk9JZe0LM0g1ZauHuiSxhI\n");
    assert_eq!(rewrite(&line), expected);
    let plain = "7 ".repeat(MAX_STRAYS);
    assert_eq!(rewrite(&plain), plain);
}
