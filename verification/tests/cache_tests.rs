use pdnsd::cache::Cache;
use pdnsd::dns::QuestionType;
use pdnsd::dns::ResourceData;
use pdnsd::dns::ResourceRecord;

fn a_record(name: &[u8], last: u8) -> ResourceRecord {
    ResourceRecord::new(name, 1, 1, 60, ResourceData::A([10, 0, 0, last])).unwrap()
}

#[test]
fn empty_cache_has_nothing() {
    let c = Cache::new();
    assert!(c.get(b"fark.com").is_none());
    assert!(!c.hit(b"fark.com", QuestionType::A));
    assert!(!c.hit(b"fark.com", QuestionType::ALL));
}

#[test]
fn add_appends_under_the_same_name() {
    let mut c = Cache::new();
    c.add(b"fark.com", a_record(b"fark.com", 1));
    c.add(b"other.org", a_record(b"other.org", 9));
    c.add(b"fark.com", a_record(b"fark.com", 2));
    let got = c.get(b"fark.com").unwrap();
    assert_eq!(2, got.len());
    assert!(matches!(got[0].r_data, ResourceData::A([10, 0, 0, 1])));
    assert!(matches!(got[1].r_data, ResourceData::A([10, 0, 0, 2])));
    assert_eq!(1, c.get(b"other.org").unwrap().len());
    assert!(c.get(b"fark.co").is_none());
}

#[test]
fn lookup_ignores_the_case_of_letters() {
    let mut c = Cache::new();
    c.add_at(b"Fark.COM", a_record(b"Fark.COM", 1), 5);
    c.add_at(b"fark.com", a_record(b"fark.com", 2), 6);
    assert_eq!(2, c.get(b"FARK.com").unwrap().len());
    assert_eq!(2, c.get(b"fark.com").unwrap().len());
    // octets next to the letters are not folded
    c.add_at(b"[x", a_record(b"[x", 3), 7);
    assert!(c.get(b"{x").is_none());
    assert!(c.get(b"@x").is_none());
    assert!(c.get(b"[X").is_some());
}

#[test]
fn hit_needs_a_record_of_the_type() {
    let mut c = Cache::new();
    c.add(b"fark.com", a_record(b"fark.com", 1));
    assert!(c.hit(b"fark.com", QuestionType::A));
    assert!(c.hit(b"FARK.COM", QuestionType::A));
    assert!(c.hit(b"fark.com", QuestionType::ALL));
    assert!(!c.hit(b"fark.com", QuestionType::MX));
    assert!(!c.hit(b"fark.org", QuestionType::A));
    let mx = ResourceRecord::new(b"fark.com", 15, 1, 60, ResourceData::Bytes(vec![0, 1, 0])).unwrap();
    c.add(b"fark.com", mx);
    assert!(c.hit(b"fark.com", QuestionType::MX));
}
