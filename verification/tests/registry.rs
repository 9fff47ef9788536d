use neura_dns::error::DnsError;
use neura_dns::record::DomainRecord;
use neura_dns::registry::{RegisterDomain, Registry, ResolveDomain};

const T0: i64 = 1_700_000_000;

fn authority_a() -> Vec<u8> {
    vec![0xaa; 32]
}

fn authority_b() -> Vec<u8> {
    vec![0xbb; 32]
}

fn register(reg: &mut Registry, domain: &[u8], record: &[u8], authority: Vec<u8>, now: i64) -> Result<(), DnsError> {
    reg.register_request(
        domain.to_vec(),
        record.to_vec(),
        RegisterDomain { authority, now },
    )
}

fn resolve(reg: &Registry, domain: &[u8]) -> Result<DomainRecord, DnsError> {
    reg.resolve_domain(domain.to_vec(), ResolveDomain { authority: authority_b() })
}

#[test]
fn register_then_resolve() {
    let mut reg = Registry::new();
    assert_eq!(register(&mut reg, b"example.com", b"8.8.8.8", authority_a(), T0), Ok(()));
    let rec = resolve(&reg, b"example.com").expect("registered domain must resolve");
    assert_eq!(rec.domain_name, b"example.com");
    assert_eq!(rec.record, b"8.8.8.8");
    assert_eq!(rec.authority, authority_a());
    assert_eq!(rec.created_at, T0);
}

#[test]
fn duplicate_register_rejected_and_original_kept() {
    let mut reg = Registry::new();
    assert_eq!(register(&mut reg, b"example.com", b"8.8.8.8", authority_a(), T0), Ok(()));
    assert_eq!(
        register(&mut reg, b"example.com", b"1.1.1.1", authority_b(), T0 + 5),
        Err(DnsError::AlreadyExists)
    );
    let rec = resolve(&reg, b"example.com").expect("original record must survive");
    assert_eq!(rec.record, b"8.8.8.8");
    assert_eq!(rec.authority, authority_a());
    assert_eq!(rec.created_at, T0);
}

#[test]
fn unknown_domain_not_found() {
    let reg = Registry::new();
    assert!(matches!(resolve(&reg, b"unknown.org"), Err(DnsError::NotFound)));
}

#[test]
fn invalid_domain_rejected_without_write() {
    let mut reg = Registry::new();
    assert_eq!(register(&mut reg, b".bad", b"8.8.8.8", authority_a(), T0), Err(DnsError::InvalidDomain));
    assert!(matches!(resolve(&reg, b".bad"), Err(DnsError::NotFound)));
}

#[test]
fn invalid_record_rejected_without_write() {
    let mut reg = Registry::new();
    assert_eq!(register(&mut reg, b"ok.io", b"999.1.1.1", authority_a(), T0), Err(DnsError::InvalidIp));
    assert!(matches!(resolve(&reg, b"ok.io"), Err(DnsError::NotFound)));
}

#[test]
fn distinct_domains_get_distinct_slots() {
    let mut reg = Registry::new();
    assert_eq!(register(&mut reg, b"a.b", b"1.2.3.4", authority_a(), T0), Ok(()));
    assert_eq!(register(&mut reg, b"a.c", b"1.2.3.4", authority_b(), T0 + 1), Ok(()));

    let id_b = neura_dns::address::derive_slot_id(&b"a.b".to_vec());
    let id_c = neura_dns::address::derive_slot_id(&b"a.c".to_vec());
    assert_ne!(id_b, id_c);

    let rec_b = resolve(&reg, b"a.b").expect("a.b must resolve");
    let rec_c = resolve(&reg, b"a.c").expect("a.c must resolve");
    assert_eq!(rec_b.domain_name, b"a.b");
    assert_eq!(rec_b.authority, authority_a());
    assert_eq!(rec_b.created_at, T0);
    assert_eq!(rec_c.domain_name, b"a.c");
    assert_eq!(rec_c.authority, authority_b());
    assert_eq!(rec_c.created_at, T0 + 1);
}

#[test]
fn rejected_domain_never_reaches_validation_of_record() {
    // domain validation precedes record validation: both invalid surfaces
    // InvalidDomain
    let mut reg = Registry::new();
    assert_eq!(register(&mut reg, b"x", b"999.1.1.1", authority_a(), T0), Err(DnsError::InvalidDomain));
}

#[test]
fn max_length_domain_round_trips() {
    let mut domain = b"a.".to_vec();
    while domain.len() < 256 {
        domain.push(b'b');
    }
    let mut reg = Registry::new();
    assert_eq!(register(&mut reg, &domain, b"10.20.30.40", authority_a(), T0), Ok(()));
    let rec = resolve(&reg, &domain).expect("longest domain must resolve");
    assert_eq!(rec.domain_name, domain);
    assert_eq!(rec.record, b"10.20.30.40");
}

#[test]
fn error_descriptions_are_stable() {
    assert_eq!(DnsError::InvalidDomain.describe(), "Invalid domain format");
    assert_eq!(DnsError::InvalidIp.describe(), "Invalid IP address format");
    assert_eq!(DnsError::AlreadyExists.describe(), "Domain already registered");
    assert_eq!(DnsError::NotFound.describe(), "Domain not registered");
    assert_eq!(DnsError::CorruptRecord.describe(), "Stored record is corrupt");
}
