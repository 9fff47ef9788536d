use neura_dns::validate::{validate_domain, validate_record};

fn accepts_domain(s: &[u8]) -> bool {
    validate_domain(&s.to_vec())
}

fn accepts_record(s: &[u8]) -> bool {
    validate_record(&s.to_vec())
}

#[test]
fn domain_empty_rejected() {
    assert!(!accepts_domain(b""));
}

#[test]
fn domain_single_dot_rejected() {
    assert!(!accepts_domain(b"."));
}

#[test]
fn domain_simple_accepted() {
    assert!(accepts_domain(b"a.b"));
    assert!(accepts_domain(b"example.com"));
}

#[test]
fn domain_max_length_accepted() {
    let mut d = b"a.".to_vec();
    while d.len() < 256 {
        d.push(b'b');
    }
    assert_eq!(d.len(), 256);
    assert!(validate_domain(&d));
}

#[test]
fn domain_over_max_length_rejected() {
    let mut d = b"a.".to_vec();
    while d.len() < 257 {
        d.push(b'b');
    }
    assert_eq!(d.len(), 257);
    assert!(!validate_domain(&d));
}

#[test]
fn domain_leading_dot_rejected() {
    assert!(!accepts_domain(b".x"));
}

#[test]
fn domain_trailing_dot_rejected() {
    assert!(!accepts_domain(b"x."));
}

#[test]
fn domain_without_dot_rejected() {
    assert!(!accepts_domain(b"x"));
}

#[test]
fn record_empty_rejected() {
    assert!(!accepts_record(b""));
}

#[test]
fn record_three_parts_rejected() {
    assert!(!accepts_record(b"1.2.3"));
}

#[test]
fn record_five_parts_rejected() {
    assert!(!accepts_record(b"1.2.3.4.5"));
}

#[test]
fn record_octet_over_255_rejected() {
    assert!(!accepts_record(b"1.2.3.256"));
    assert!(!accepts_record(b"999.1.1.1"));
}

#[test]
fn record_signed_octet_rejected() {
    assert!(!accepts_record(b"1.2.3.-1"));
    assert!(!accepts_record(b"1.2.3.+1"));
}

#[test]
fn record_leading_zero_accepted() {
    assert!(accepts_record(b"1.2.3.04"));
}

#[test]
fn record_trailing_space_rejected() {
    assert!(!accepts_record(b"1.2.3.4 "));
}

#[test]
fn record_all_255_accepted() {
    assert!(accepts_record(b"255.255.255.255"));
}

#[test]
fn record_all_zero_accepted() {
    assert!(accepts_record(b"0.0.0.0"));
}

#[test]
fn record_plain_quad_accepted() {
    assert!(accepts_record(b"8.8.8.8"));
    assert!(accepts_record(b"192.168.0.1"));
}

#[test]
fn record_empty_part_rejected() {
    assert!(!accepts_record(b"1..2.3"));
    assert!(!accepts_record(b".1.2.3"));
    assert!(!accepts_record(b"1.2.3."));
}

#[test]
fn record_over_max_length_rejected() {
    assert!(!accepts_record(b"255.255.255.2555"));
}
