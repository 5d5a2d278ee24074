use simulator::{parse_i32, parse_trace_line, parse_user_line, parse_usize, split_bytes};

#[test]
fn split_keeps_empty_pieces() {
    let parts = split_bytes(b"a  b,", b' ');
    assert_eq!(parts, vec![b"a".to_vec(), vec![], b"b,".to_vec()]);
    assert_eq!(split_bytes(b"", b','), vec![Vec::<u8>::new()]);
    assert_eq!(split_bytes(b"1,2,", b','), vec![b"1".to_vec(), b"2".to_vec(), vec![]]);
}

#[test]
fn parse_i32_like_std() {
    let cases: Vec<&str> = vec![
        "0", "42", "+42", "-42", "-0", "2147483647", "-2147483648", "2147483648", "-2147483649",
        "", "+", "-", "+-1", "4 2", "0042", "12a", "99999999999999999999999",
    ];
    for c in cases {
        assert_eq!(parse_i32(c.as_bytes()), c.parse::<i32>().ok(), "{}", c);
    }
}

#[test]
fn parse_usize_like_std() {
    let cases: Vec<&str> = vec![
        "0", "1200", "+1200", "-1", "-0", "", "+", "18446744073709551615", "18446744073709551616",
        "1.5",
    ];
    for c in cases {
        assert_eq!(parse_usize(c.as_bytes()), c.parse::<usize>().ok(), "{}", c);
    }
}

#[test]
fn trace_line_fields() {
    let r = parse_trace_line("12 3 -5,+7,1200,800").unwrap();
    assert_eq!((r.frame_id, r.object_id, r.x, r.y, r.width, r.height), (12, 3, -5, 7, 1200, 800));
    let extra = parse_trace_line("1 0 1,2,3,4,5 more").unwrap();
    assert_eq!((extra.x, extra.height), (1, 4));
}

#[test]
fn trace_line_errors() {
    assert!(parse_trace_line("1 0 1,2,3").is_none());
    assert!(parse_trace_line("1  0 1,2,3,4").is_none());
    assert!(parse_trace_line("1 0").is_none());
    assert!(parse_trace_line("1 0 1,2,-3,4").is_none());
    assert!(parse_trace_line("").is_none());
    assert!(parse_trace_line("1 0 1,2,3,4\r").is_none());
}

#[test]
fn user_line_fields() {
    let v = parse_user_line("7 95 100,-20,1440,1440").unwrap();
    assert_eq!((v.conf, v.x, v.y, v.width, v.height), (95, 100, -20, 1440, 1440));
    assert!(parse_user_line("-7 95 100,-20,1440,1440").is_none());
    assert!(parse_user_line("7 95 100,-20,1440").is_none());
}
