use haven_dns::addr::Ipv4Address;
use haven_dns::cache::AnswerCache;
use haven_dns::record::{RecordData, RecordType, ResourceRecord};

fn address_record(name: &str, ttl: u32, last: u8) -> ResourceRecord {
    ResourceRecord {
        name: name.to_string(),
        ttl,
        rdata: RecordData::A(Ipv4Address { octets: [192, 0, 2, last] }),
    }
}

#[test]
fn an_empty_cache_misses() {
    let mut cache = AnswerCache::new();
    assert_eq!(cache.get("example.test.", RecordType::A, 0), None);
}

#[test]
fn a_record_is_served_within_its_ttl() {
    let mut cache = AnswerCache::new();
    let record = address_record("example.test.", 300, 1);
    cache.put("example.test.", RecordType::A, record.clone(), 1000);
    assert_eq!(cache.get("example.test.", RecordType::A, 1000), Some(record.clone()));
    assert_eq!(cache.get("example.test.", RecordType::A, 1000), Some(record));
}

#[test]
fn a_hit_carries_the_seconds_that_are_left() {
    let mut cache = AnswerCache::new();
    cache.put("example.test.", RecordType::A, address_record("example.test.", 300, 1), 1000);
    assert_eq!(
        cache.get("example.test.", RecordType::A, 1100),
        Some(address_record("example.test.", 200, 1))
    );
    assert_eq!(
        cache.get("example.test.", RecordType::A, 1299),
        Some(address_record("example.test.", 1, 1))
    );
}

#[test]
fn a_record_is_not_served_once_its_ttl_has_run_out() {
    let mut cache = AnswerCache::new();
    cache.put("example.test.", RecordType::A, address_record("example.test.", 300, 1), 1000);
    assert_eq!(cache.get("example.test.", RecordType::A, 1300), None);
    let mut later = AnswerCache::new();
    later.put("example.test.", RecordType::A, address_record("example.test.", 300, 1), 1000);
    assert_eq!(later.get("example.test.", RecordType::A, 5000), None);
}

#[test]
fn an_expired_record_is_dropped_when_it_is_asked_for() {
    let mut cache = AnswerCache::new();
    cache.put("example.test.", RecordType::A, address_record("example.test.", 300, 1), 1000);
    assert_eq!(cache.get("example.test.", RecordType::A, 1300), None);
    assert_eq!(cache.get("example.test.", RecordType::A, 1000), None);
}

#[test]
fn a_ttl_is_never_more_than_it_was_written_with() {
    let mut cache = AnswerCache::new();
    cache.put("example.test.", RecordType::A, address_record("example.test.", 300, 1), 1000);
    assert_eq!(
        cache.get("example.test.", RecordType::A, 400),
        Some(address_record("example.test.", 300, 1))
    );
}

#[test]
fn a_record_without_ttl_is_not_kept() {
    let mut cache = AnswerCache::new();
    cache.put("example.test.", RecordType::A, address_record("example.test.", 0, 1), 1000);
    assert_eq!(cache.get("example.test.", RecordType::A, 1000), None);
    cache.put("example.test.", RecordType::A, address_record("example.test.", 300, 1), 1000);
    cache.put("example.test.", RecordType::A, address_record("example.test.", 0, 2), 1001);
    assert_eq!(cache.get("example.test.", RecordType::A, 1002), None);
}

#[test]
fn the_last_write_wins() {
    let mut cache = AnswerCache::new();
    cache.put("example.test.", RecordType::A, address_record("example.test.", 300, 1), 1000);
    cache.put("example.test.", RecordType::A, address_record("example.test.", 60, 2), 1010);
    assert_eq!(
        cache.get("example.test.", RecordType::A, 1020),
        Some(address_record("example.test.", 50, 2))
    );
    assert_eq!(cache.get("example.test.", RecordType::A, 1070), None);
}

#[test]
fn keys_differ_by_name_and_by_type() {
    let mut cache = AnswerCache::new();
    cache.put("one.test.", RecordType::A, address_record("one.test.", 300, 1), 0);
    cache.put("two.test.", RecordType::A, address_record("two.test.", 300, 2), 0);
    cache.put("one.test.", RecordType::Other(15), address_record("one.test.", 300, 3), 0);
    assert_eq!(cache.get("one.test.", RecordType::A, 0), Some(address_record("one.test.", 300, 1)));
    assert_eq!(cache.get("two.test.", RecordType::A, 0), Some(address_record("two.test.", 300, 2)));
    assert_eq!(
        cache.get("one.test.", RecordType::Other(15), 0),
        Some(address_record("one.test.", 300, 3))
    );
    assert_eq!(cache.get("one.test.", RecordType::Aaaa, 0), None);
    assert_eq!(cache.get("one.test", RecordType::A, 0), None);
    assert_eq!(cache.get("ONE.test.", RecordType::A, 0), None);
    assert_eq!(cache.get("", RecordType::A, 0), None);
}

#[test]
fn dropping_one_entry_keeps_the_others() {
    let mut cache = AnswerCache::new();
    cache.put("one.test.", RecordType::A, address_record("one.test.", 10, 1), 0);
    cache.put("two.test.", RecordType::A, address_record("two.test.", 300, 2), 0);
    cache.put("three.test.", RecordType::A, address_record("three.test.", 300, 3), 0);
    assert_eq!(cache.get("one.test.", RecordType::A, 10), None);
    assert_eq!(cache.get("two.test.", RecordType::A, 10), Some(address_record("two.test.", 290, 2)));
    assert_eq!(
        cache.get("three.test.", RecordType::A, 10),
        Some(address_record("three.test.", 290, 3))
    );
}

#[test]
fn the_expiry_stops_at_the_last_second() {
    let mut cache = AnswerCache::new();
    cache.put("example.test.", RecordType::A, address_record("example.test.", 300, 1), u64::MAX - 100);
    assert_eq!(
        cache.get("example.test.", RecordType::A, u64::MAX - 50),
        Some(address_record("example.test.", 50, 1))
    );
    assert_eq!(cache.get("example.test.", RecordType::A, u64::MAX), None);
}
