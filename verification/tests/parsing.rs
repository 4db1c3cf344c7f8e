use sleepbench::parse::{parse_freq_list, parse_u32, tokenize};

#[test]
fn parse_u32_accepts_plain_numerals() {
    assert_eq!(parse_u32(b"800000"), Some(800000));
    assert_eq!(parse_u32(b"0"), Some(0));
    assert_eq!(parse_u32(b"4294967295"), Some(u32::MAX));
}

#[test]
fn parse_u32_rejects_bad_input() {
    assert_eq!(parse_u32(b""), None);
    assert_eq!(parse_u32(b"12a"), None);
    assert_eq!(parse_u32(b"-5"), None);
    assert_eq!(parse_u32(b" 12"), None);
    assert_eq!(parse_u32(b"4294967296"), None);
    assert_eq!(parse_u32(b"99999999999999999999"), None);
}

#[test]
fn tokenize_splits_on_whitespace_runs() {
    let toks = tokenize(b" 800000\t1000000\n1200000 \n");
    let toks: Vec<&[u8]> = toks.iter().map(|t| t.as_slice()).collect();
    assert_eq!(toks, vec![&b"800000"[..], &b"1000000"[..], &b"1200000"[..]]);
    assert!(tokenize(b"  \n\t ").is_empty());
    assert!(tokenize(b"").is_empty());
}

#[test]
fn parse_freq_list_reads_the_sysfs_format() {
    let r = parse_freq_list(b"800000 1000000 1200000 \n").unwrap();
    assert_eq!(r, vec![800000, 1000000, 1200000]);
    let r = parse_freq_list(b"\n").unwrap();
    assert!(r.is_empty());
}

#[test]
fn parse_freq_list_reports_the_bad_token() {
    let e = parse_freq_list(b"800000 x9 1200000").unwrap_err();
    assert_eq!(e, b"x9".to_vec());
}
