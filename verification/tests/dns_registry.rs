use packet_proxy::data::dns::{
    check_cache, external_api_url, service_from_api_body, update_cache, DnsCache, DnsRecord,
    FetchAction, FetchEvent, DNS_CACHE_CAPACITY,
};
use packet_proxy::data::redis::packet_key;
use packet_proxy::listener::types::DnsRecord as PlainDnsRecord;

#[test]
fn record_holds_its_fields() {
    let r = DnsRecord::new("1.2.3.4", "BR");
    assert_eq!(r.ip, "1.2.3.4");
    assert_eq!(r.service, "BR");
    let p = PlainDnsRecord::new("5.6.7.8", "US");
    assert_eq!(p.ip, "5.6.7.8");
    assert_eq!(p.service, "US");
}

#[test]
fn cache_read_after_write() {
    let mut cache = DnsCache::new();
    assert_eq!(check_cache(&mut cache, "1.1.1.1"), None);
    update_cache(&mut cache, "1.1.1.1", "AU");
    assert_eq!(check_cache(&mut cache, "1.1.1.1"), Some("AU".to_string()));
    update_cache(&mut cache, "1.1.1.1", "US");
    assert_eq!(check_cache(&mut cache, "1.1.1.1"), Some("US".to_string()));
    assert_eq!(check_cache(&mut cache, "2.2.2.2"), None);
}

#[test]
fn cache_drops_least_recently_used() {
    let mut cache = DnsCache::new();
    for i in 0..DNS_CACHE_CAPACITY {
        update_cache(&mut cache, &format!("10.0.{}.{}", i / 256, i % 256), "X");
    }
    // reading the oldest entry makes it recent; the second oldest goes next
    assert_eq!(check_cache(&mut cache, "10.0.0.0"), Some("X".to_string()));
    update_cache(&mut cache, "192.168.1.1", "Y");
    assert_eq!(check_cache(&mut cache, "10.0.0.1"), None);
    assert_eq!(check_cache(&mut cache, "10.0.0.0"), Some("X".to_string()));
    assert_eq!(check_cache(&mut cache, "192.168.1.1"), Some("Y".to_string()));
}

fn answer(action: FetchAction) -> Option<String> {
    match action {
        FetchAction::Answer(a) => a,
        FetchAction::PersistAndAnswer(r) => Some(r.service),
        _ => panic!("not an answer"),
    }
}

#[test]
fn lookup_goes_cache_database_api() {
    let mut cache = DnsCache::new();
    let a = DnsRecord::find_or_fetch(&mut cache, "8.8.8.8", FetchEvent::Start);
    assert!(matches!(a, FetchAction::QueryDatabase));
    let a = DnsRecord::find_or_fetch(&mut cache, "8.8.8.8", FetchEvent::DatabaseAnswered(None));
    assert!(matches!(a, FetchAction::QueryApi));
    let a = DnsRecord::find_or_fetch(
        &mut cache,
        "8.8.8.8",
        FetchEvent::ApiAnswered(Some("US".to_string())),
    );
    match &a {
        FetchAction::PersistAndAnswer(r) => {
            assert_eq!(r.ip, "8.8.8.8");
            assert_eq!(r.service, "US");
        }
        _ => panic!("expected a record to persist"),
    }
    // the next lookup is answered by the cache
    let a = DnsRecord::find_or_fetch(&mut cache, "8.8.8.8", FetchEvent::Start);
    assert_eq!(answer(a), Some("US".to_string()));
}

#[test]
fn database_answer_is_cached() {
    let mut cache = DnsCache::new();
    let a = DnsRecord::find_or_fetch(
        &mut cache,
        "9.9.9.9",
        FetchEvent::DatabaseAnswered(Some("CH".to_string())),
    );
    assert_eq!(answer(a), Some("CH".to_string()));
    assert_eq!(check_cache(&mut cache, "9.9.9.9"), Some("CH".to_string()));
}

#[test]
fn failed_api_answers_nothing() {
    let mut cache = DnsCache::new();
    let a = DnsRecord::find_or_fetch(&mut cache, "4.4.4.4", FetchEvent::ApiAnswered(None));
    assert_eq!(answer(a), None);
    assert_eq!(check_cache(&mut cache, "4.4.4.4"), None);
}

#[test]
fn api_url_and_body() {
    assert_eq!(external_api_url("1.2.3.4"), "https://ipapi.co/1.2.3.4/json/");
    assert_eq!(
        service_from_api_body(r#"{"ip": "1.2.3.4", "country": "BR"}"#),
        Some("BR".to_string())
    );
    assert_eq!(
        service_from_api_body(r#"{"country": 7}"#),
        Some("unknown".to_string())
    );
    assert_eq!(service_from_api_body("[]"), Some("unknown".to_string()));
    assert_eq!(service_from_api_body("<html>"), None);
}

#[test]
fn packet_keys() {
    assert_eq!(packet_key("TCP"), "packet:TCP");
    assert_eq!(packet_key(""), "packet:");
}

#[test]
fn repeated_lookup_is_answered_by_the_cache() {
    let mut cache = DnsCache::new();
    let a = DnsRecord::find_or_fetch(&mut cache, "7.7.7.7", FetchEvent::DatabaseAnswered(Some("FR".to_string())));
    assert_eq!(answer(a), Some("FR".to_string()));
    update_cache(&mut cache, "6.6.6.6", "DE");
    // reads in between, of this address and of others
    assert_eq!(check_cache(&mut cache, "6.6.6.6"), Some("DE".to_string()));
    assert_eq!(check_cache(&mut cache, "5.5.5.5"), None);
    let a = DnsRecord::find_or_fetch(&mut cache, "7.7.7.7", FetchEvent::Start);
    assert_eq!(answer(a), Some("FR".to_string()));
    let a = DnsRecord::find_or_fetch(&mut cache, "7.7.7.7", FetchEvent::Start);
    assert_eq!(answer(a), Some("FR".to_string()));
}
