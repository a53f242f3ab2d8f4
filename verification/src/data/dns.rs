//! The DNS registry: which service an IP address belongs to, looked up in a
//! least-recently-used cache, then in the database, then at an outside API.
use vstd::prelude::*;
use crate::json::{Json, json_document, json_field, json_text, parse_json};
use crate::text::{push_str, string_of};

verus! {

/// `lru::LruCache`, opaque: its contents are named by `lru_entries`.
#[verifier::external_type_specification]
#[verifier::external_body]
#[verifier::reject_recursive_types(K)]
#[verifier::reject_recursive_types(V)]
#[verifier::reject_recursive_types(S)]
pub struct ExLruCache<K, V, S>(lru::LruCache<K, V, S>);

/// The hasher that `lru::LruCache` uses by default, opaque.
#[verifier::external_type_specification]
#[verifier::external_body]
pub struct ExLruHasher(lru::DefaultHasher);

/// The entries of an LRU cache, most recently used first, each as a key
/// and a value.
pub uninterp spec fn lru_entries(cache: lru::LruCache<String, String>) -> Seq<
    (Seq<char>, Seq<char>),
>;

/// The capacity that an LRU cache was made with.
pub uninterp spec fn lru_capacity(cache: lru::LruCache<String, String>) -> nat;

/// Entries that hold each key at most once.
pub open spec fn distinct_keys(entries: Seq<(Seq<char>, Seq<char>)>) -> bool {
    forall|i: int, j: int|
        0 <= i < entries.len() && 0 <= j < entries.len() && i != j ==> #[trigger] entries[i].0
            != #[trigger] entries[j].0
}

/// Whether some entry holds `key`.
pub open spec fn has_key(entries: Seq<(Seq<char>, Seq<char>)>, key: Seq<char>) -> bool {
    exists|i: int| 0 <= i < entries.len() && #[trigger] entries[i].0 == key
}

/// The position of the entry that holds `key` (where there is one).
pub open spec fn key_index(entries: Seq<(Seq<char>, Seq<char>)>, key: Seq<char>) -> int {
    choose|i: int| 0 <= i < entries.len() && #[trigger] entries[i].0 == key
}

/// The value that the cache holds for `key`.
pub open spec fn cached_value(entries: Seq<(Seq<char>, Seq<char>)>, key: Seq<char>) -> Option<
    Seq<char>,
> {
    if has_key(entries, key) {
        Some(entries[key_index(entries, key)].1)
    } else {
        None
    }
}

/// The entries after a read of `key`: a present key moves to the front.
pub open spec fn lru_after_get(entries: Seq<(Seq<char>, Seq<char>)>, key: Seq<char>) -> Seq<
    (Seq<char>, Seq<char>),
> {
    if has_key(entries, key) {
        let i = key_index(entries, key);
        seq![entries[i]] + entries.remove(i)
    } else {
        entries
    }
}

/// The entries after a write of `value` under `key`: the entry goes to the
/// front, replacing the key's old entry, or else the least recently used
/// entry where the cache is full.
pub open spec fn lru_after_put(
    entries: Seq<(Seq<char>, Seq<char>)>,
    capacity: nat,
    key: Seq<char>,
    value: Seq<char>,
) -> Seq<(Seq<char>, Seq<char>)> {
    if has_key(entries, key) {
        seq![(key, value)] + entries.remove(key_index(entries, key))
    } else if entries.len() >= capacity {
        seq![(key, value)] + entries.drop_last()
    } else {
        seq![(key, value)] + entries
    }
}

/// Makes an empty cache with `lru::LruCache::new`, of capacity `cap`. The
/// contract claims that it holds no entry and has that capacity.
#[verifier::external_body]
fn lru_new(cap: usize) -> (r: lru::LruCache<String, String>)
    requires
        cap > 0,
    ensures
        lru_entries(r) == Seq::<(Seq<char>, Seq<char>)>::empty(),
        lru_capacity(r) == cap,
{
    lru::LruCache::new(std::num::NonZeroUsize::new(cap).unwrap())
}

/// Reads `key` with `lru::LruCache::get` and clones the value. The contract
/// claims, as the crate's source shows, that the value held for the key
/// comes back and that the key becomes the most recently used one; a
/// missing key leaves the cache as it was.
#[verifier::external_body]
fn lru_get(cache: &mut lru::LruCache<String, String>, key: &str) -> (r: Option<String>)
    requires
        distinct_keys(lru_entries(*old(cache))),
    ensures
        match r {
            Some(v) => cached_value(lru_entries(*old(cache)), key@) == Some(v@),
            None => cached_value(lru_entries(*old(cache)), key@) is None,
        },
        lru_entries(*final(cache)) == lru_after_get(lru_entries(*old(cache)), key@),
        lru_capacity(*final(cache)) == lru_capacity(*old(cache)),
{
    cache.get(key).cloned()
}

/// Writes `value` under `key` with `lru::LruCache::put`. The contract
/// claims, as the crate's source shows, that the entry becomes the most
/// recently used one, that it replaces the key's old entry, whose value
/// comes back, or else, in a full cache, the least recently used entry.
#[verifier::external_body]
fn lru_put(cache: &mut lru::LruCache<String, String>, key: String, value: String) -> (r: Option<
    String,
>)
    requires
        distinct_keys(lru_entries(*old(cache))),
        lru_entries(*old(cache)).len() <= lru_capacity(*old(cache)),
    ensures
        match r {
            Some(v) => cached_value(lru_entries(*old(cache)), key@) == Some(v@),
            None => cached_value(lru_entries(*old(cache)), key@) is None,
        },
        lru_entries(*final(cache)) == lru_after_put(
            lru_entries(*old(cache)),
            lru_capacity(*old(cache)),
            key@,
            value@,
        ),
        lru_capacity(*final(cache)) == lru_capacity(*old(cache)),
{
    cache.put(key, value)
}

/// A DNS registry entry: an IP address and the service it belongs to.
pub struct DnsRecord {
    pub ip: String,
    pub service: String,
}

/// How many entries the DNS cache holds at most.
pub const DNS_CACHE_CAPACITY: usize = 10000;

/// The cache of services by IP address, least recently used first out.
pub struct DnsCache {
    cache: lru::LruCache<String, String>,
}

impl View for DnsCache {
    type V = Seq<(Seq<char>, Seq<char>)>;

    /// The entries, most recently used first: address and service.
    closed spec fn view(&self) -> Seq<(Seq<char>, Seq<char>)> {
        lru_entries(self.cache)
    }
}

impl DnsCache {
    /// How many entries the cache holds at most.
    pub closed spec fn capacity(&self) -> nat {
        lru_capacity(self.cache)
    }

    /// Each address at most once, no more entries than the capacity, and
    /// room for at least one.
    pub open spec fn wf(&self) -> bool {
        &&& distinct_keys(self@)
        &&& self@.len() <= self.capacity()
        &&& self.capacity() > 0
    }

    /// An empty cache of `DNS_CACHE_CAPACITY` entries.
    pub fn new() -> (r: DnsCache)
        ensures
            r.wf(),
            r@ == Seq::<(Seq<char>, Seq<char>)>::empty(),
            r.capacity() == DNS_CACHE_CAPACITY,
    {
        DnsCache { cache: lru_new(DNS_CACHE_CAPACITY) }
    }
}

/// Moving an entry to the front keeps the keys distinct and the length.
proof fn lemma_after_get_wf(entries: Seq<(Seq<char>, Seq<char>)>, key: Seq<char>)
    requires
        distinct_keys(entries),
    ensures
        distinct_keys(lru_after_get(entries, key)),
        lru_after_get(entries, key).len() == entries.len(),
{
    if has_key(entries, key) {
        let i = key_index(entries, key);
        let r = lru_after_get(entries, key);
        assert forall|a: int, b: int|
            0 <= a < r.len() && 0 <= b < r.len() && a != b implies #[trigger] r[a].0
            != #[trigger] r[b].0 by {
            let ia = if a == 0 {
                i
            } else if a - 1 < i {
                a - 1
            } else {
                a
            };
            let ib = if b == 0 {
                i
            } else if b - 1 < i {
                b - 1
            } else {
                b
            };
            assert(r[a] == entries[ia]);
            assert(r[b] == entries[ib]);
        }
    }
}

/// A write keeps the keys distinct and the length within the capacity.
proof fn lemma_after_put_wf(
    entries: Seq<(Seq<char>, Seq<char>)>,
    capacity: nat,
    key: Seq<char>,
    value: Seq<char>,
)
    requires
        distinct_keys(entries),
        entries.len() <= capacity,
        capacity > 0,
    ensures
        distinct_keys(lru_after_put(entries, capacity, key, value)),
        lru_after_put(entries, capacity, key, value).len() <= capacity,
        cached_value(lru_after_put(entries, capacity, key, value), key) == Some(value),
        lru_after_put(entries, capacity, key, value)[0] == (key, value),
{
    let r = lru_after_put(entries, capacity, key, value);
    if has_key(entries, key) {
        let i = key_index(entries, key);
        assert forall|a: int, b: int|
            0 <= a < r.len() && 0 <= b < r.len() && a != b implies #[trigger] r[a].0
            != #[trigger] r[b].0 by {
            if a != 0 && b != 0 {
                let ia = if a - 1 < i {
                    a - 1
                } else {
                    a
                };
                let ib = if b - 1 < i {
                    b - 1
                } else {
                    b
                };
                assert(r[a] == entries[ia]);
                assert(r[b] == entries[ib]);
            } else if a == 0 {
                let ib = if b - 1 < i {
                    b - 1
                } else {
                    b
                };
                assert(r[b] == entries[ib]);
                assert(entries[i].0 == key);
            } else {
                let ia = if a - 1 < i {
                    a - 1
                } else {
                    a
                };
                assert(r[a] == entries[ia]);
                assert(entries[i].0 == key);
            }
        }
    } else {
        assert forall|a: int, b: int|
            0 <= a < r.len() && 0 <= b < r.len() && a != b implies #[trigger] r[a].0
            != #[trigger] r[b].0 by {
            if a != 0 && b != 0 {
                assert(r[a] == entries[a - 1]);
                assert(r[b] == entries[b - 1]);
            } else if a == 0 {
                assert(r[b] == entries[b - 1]);
            } else {
                assert(r[a] == entries[a - 1]);
            }
        }
    }
    assert(r[0].0 == key);
    assert(has_key(r, key));
    assert(key_index(r, key) == 0);
}

/// A read gives back what the last write wrote: after `service` is written
/// under `ip`, the cache holds `service` for `ip`.
pub proof fn lemma_read_after_write(
    entries: Seq<(Seq<char>, Seq<char>)>,
    capacity: nat,
    ip: Seq<char>,
    service: Seq<char>,
)
    requires
        distinct_keys(entries),
        entries.len() <= capacity,
        capacity > 0,
    ensures
        cached_value(lru_after_put(entries, capacity, ip, service), ip) == Some(service),
        lru_after_get(lru_after_put(entries, capacity, ip, service), ip) == lru_after_put(
            entries,
            capacity,
            ip,
            service,
        ),
{
    lemma_after_put_wf(entries, capacity, ip, service);
    let r = lru_after_put(entries, capacity, ip, service);
    assert(key_index(r, ip) == 0);
    assert(seq![r[0]] + r.remove(0) =~= r);
}

/// A write under one address leaves what another address reads as it was,
/// except that a full cache drops its least recently used entry to make
/// room for an address it did not hold.
pub proof fn lemma_write_keeps_others(
    entries: Seq<(Seq<char>, Seq<char>)>,
    capacity: nat,
    ip: Seq<char>,
    service: Seq<char>,
    other: Seq<char>,
)
    requires
        distinct_keys(entries),
        entries.len() <= capacity,
        capacity > 0,
        other != ip,
    ensures
        ({
            let evicted = !has_key(entries, ip) && entries.len() >= capacity
                && entries.last().0 == other;
            &&& evicted ==> cached_value(lru_after_put(entries, capacity, ip, service), other)
                is None
            &&& !evicted ==> cached_value(lru_after_put(entries, capacity, ip, service), other)
                == cached_value(entries, other)
        }),
{
    lemma_after_put_wf(entries, capacity, ip, service);
    let r = lru_after_put(entries, capacity, ip, service);
    let evicted = !has_key(entries, ip) && entries.len() >= capacity && entries.last().0 == other;
    // where each entry of the result came from
    let src = |a: int|
        if a == 0 {
            -1
        } else if has_key(entries, ip) && a - 1 >= key_index(entries, ip) {
            a
        } else {
            a - 1
        };
    assert forall|a: int| 0 < a < r.len() implies #[trigger] r[a] == entries[src(a)] by {}
    if has_key(r, other) {
        let j = key_index(r, other);
        assert(j > 0);
        assert(r[j] == entries[src(j)]);
        assert(has_key(entries, other));
        let k = key_index(entries, other);
        assert(k == src(j)) by {
            if k != src(j) {
                assert(entries[k].0 != entries[src(j)].0);
            }
        }
        if evicted {
            assert(src(j) < entries.len() - 1);
            assert(entries[src(j)].0 != entries[entries.len() - 1].0);
        }
    } else {
        if has_key(entries, other) && !evicted {
            let k = key_index(entries, other);
            let a = if has_key(entries, ip) && k >= key_index(entries, ip) {
                k
            } else {
                k + 1
            };
            if has_key(entries, ip) {
                assert(k != key_index(entries, ip));
            }
            if !has_key(entries, ip) && entries.len() >= capacity {
                assert(k < entries.len() - 1) by {
                    if k == entries.len() - 1 {
                        assert(entries.last().0 == other);
                    }
                }
            }
            assert(r[a] == entries[k]);
            assert(r[a].0 == other);
        }
    }
}

/// A read changes no address's service: it only moves the address read to
/// the front.
pub proof fn lemma_read_keeps_values(
    entries: Seq<(Seq<char>, Seq<char>)>,
    ip: Seq<char>,
    other: Seq<char>,
)
    requires
        distinct_keys(entries),
    ensures
        cached_value(lru_after_get(entries, ip), other) == cached_value(entries, other),
{
    lemma_after_get_wf(entries, ip);
    let r = lru_after_get(entries, ip);
    if has_key(entries, ip) {
        let i = key_index(entries, ip);
        let src = |a: int|
            if a == 0 {
                i
            } else if a - 1 >= i {
                a
            } else {
                a - 1
            };
        assert forall|a: int| 0 <= a < r.len() implies #[trigger] r[a] == entries[src(a)] by {}
        if has_key(r, other) {
            let j = key_index(r, other);
            assert(r[j] == entries[src(j)]);
            assert(has_key(entries, other));
            let k = key_index(entries, other);
            assert(k == src(j)) by {
                if k != src(j) {
                    assert(entries[k].0 != entries[src(j)].0);
                }
            }
        } else if has_key(entries, other) {
            let k = key_index(entries, other);
            let a = if k == i {
                0
            } else if k > i {
                k
            } else {
                k + 1
            };
            assert(r[a] == entries[k]);
        }
    }
}

/// The entries after reads of the addresses of `reads`, one after another.
pub open spec fn lru_after_gets(entries: Seq<(Seq<char>, Seq<char>)>, reads: Seq<Seq<char>>) -> Seq<
    (Seq<char>, Seq<char>),
>
    decreases reads.len(),
{
    if reads.len() == 0 {
        entries
    } else {
        lru_after_get(lru_after_gets(entries, reads.drop_last()), reads.last())
    }
}

/// A repeated lookup is answered from the cache: where the cache holds
/// `service` for `ip` (as it does right after a lookup of `ip` answered
/// `service`, whether from the cache, the database or the API), it still
/// holds it after any number of reads, of `ip` or of other addresses, with
/// no write in between; a lookup of `ip` starting then answers `service`
/// without asking the database.
pub proof fn lemma_repeated_lookup_is_cached(
    entries: Seq<(Seq<char>, Seq<char>)>,
    ip: Seq<char>,
    service: Seq<char>,
    reads: Seq<Seq<char>>,
)
    requires
        distinct_keys(entries),
        cached_value(entries, ip) == Some(service),
    ensures
        distinct_keys(lru_after_gets(entries, reads)),
        cached_value(lru_after_gets(entries, reads), ip) == Some(service),
    decreases reads.len(),
{
    if reads.len() > 0 {
        lemma_repeated_lookup_is_cached(entries, ip, service, reads.drop_last());
        let before = lru_after_gets(entries, reads.drop_last());
        lemma_after_get_wf(before, reads.last());
        lemma_read_keeps_values(before, reads.last(), ip);
    }
}

/// The service that the cache holds for `ip`; a hit makes `ip` the most
/// recently used address.
pub fn check_cache(cache: &mut DnsCache, ip: &str) -> (r: Option<String>)
    requires
        old(cache).wf(),
    ensures
        final(cache).wf(),
        final(cache).capacity() == old(cache).capacity(),
        match r {
            Some(s) => cached_value(old(cache)@, ip@) == Some(s@),
            None => cached_value(old(cache)@, ip@) is None,
        },
        final(cache)@ == lru_after_get(old(cache)@, ip@),
{
    proof {
        lemma_after_get_wf(cache@, ip@);
    }
    lru_get(&mut cache.cache, ip)
}

/// Records `service` as the service of `ip`.
pub fn update_cache(cache: &mut DnsCache, ip: &str, service: &str)
    requires
        old(cache).wf(),
    ensures
        final(cache).wf(),
        final(cache).capacity() == old(cache).capacity(),
        final(cache)@ == lru_after_put(old(cache)@, old(cache).capacity(), ip@, service@),
{
    proof {
        lemma_after_put_wf(cache@, cache.capacity(), ip@, service@);
    }
    let _ = lru_put(&mut cache.cache, string_of(ip), string_of(service));
}

/// What the lookup of an address has just learnt.
pub enum FetchEvent {
    /// The lookup begins.
    Start,
    /// The database answered: the service it holds for the address, if any.
    DatabaseAnswered(Option<String>),
    /// The outside API answered: the service, or `None` where it failed.
    ApiAnswered(Option<String>),
}

/// What the lookup of an address does next.
pub enum FetchAction {
    /// The lookup ends with this answer.
    Answer(Option<String>),
    /// Look the address up in the database.
    QueryDatabase,
    /// Ask the outside API.
    QueryApi,
    /// Queue the record for writing to the database, then answer its service.
    PersistAndAnswer(DnsRecord),
}

impl DnsRecord {
    /// A record of `ip` and `service`.
    pub fn new(ip: &str, service: &str) -> (r: DnsRecord)
        ensures
            r.ip@ == ip@,
            r.service@ == service@,
    {
        DnsRecord { ip: string_of(ip), service: string_of(service) }
    }

    /// One step of the lookup of the service of `ip`: the cache first, then
    /// the database, then the outside API. An answer found in the database
    /// or at the API is written to the cache; one found at the API is also
    /// queued for the database.
    pub fn find_or_fetch(cache: &mut DnsCache, ip: &str, event: FetchEvent) -> (r: FetchAction)
        requires
            old(cache).wf(),
        ensures
            final(cache).wf(),
            final(cache).capacity() == old(cache).capacity(),
            match event {
                FetchEvent::Start => match cached_value(old(cache)@, ip@) {
                    Some(s) => {
                        &&& r matches FetchAction::Answer(Some(x)) && x@ == s
                        &&& final(cache)@ == lru_after_get(old(cache)@, ip@)
                    },
                    None => r is QueryDatabase && final(cache)@ == old(cache)@,
                },
                FetchEvent::DatabaseAnswered(Some(s)) => {
                    &&& r matches FetchAction::Answer(Some(x)) && x@ == s@
                    &&& final(cache)@ == lru_after_put(
                        old(cache)@,
                        old(cache).capacity(),
                        ip@,
                        s@,
                    )
                },
                FetchEvent::DatabaseAnswered(None) => {
                    &&& r is QueryApi
                    &&& final(cache)@ == old(cache)@
                },
                FetchEvent::ApiAnswered(Some(s)) => {
                    &&& r matches FetchAction::PersistAndAnswer(rec) && rec.ip@ == ip@
                        && rec.service@ == s@
                    &&& final(cache)@ == lru_after_put(
                        old(cache)@,
                        old(cache).capacity(),
                        ip@,
                        s@,
                    )
                },
                FetchEvent::ApiAnswered(None) => r matches FetchAction::Answer(None)
                    && final(cache)@ == old(cache)@,
            },
    {
        match event {
            FetchEvent::Start => {
                match check_cache(cache, ip) {
                    Some(service) => FetchAction::Answer(Some(service)),
                    None => {
                        assert(lru_after_get(old(cache)@, ip@) == old(cache)@);
                        FetchAction::QueryDatabase
                    },
                }
            },
            FetchEvent::DatabaseAnswered(Some(service)) => {
                update_cache(cache, ip, service.as_str());
                FetchAction::Answer(Some(service))
            },
            FetchEvent::DatabaseAnswered(None) => FetchAction::QueryApi,
            FetchEvent::ApiAnswered(Some(service)) => {
                let record = DnsRecord::new(ip, service.as_str());
                update_cache(cache, ip, service.as_str());
                FetchAction::PersistAndAnswer(record)
            },
            FetchEvent::ApiAnswered(None) => FetchAction::Answer(None),
        }
    }
}

/// The address of the outside API's answer about `ip`.
pub fn external_api_url(ip: &str) -> (r: String)
    ensures
        r@ == "https://ipapi.co/"@ + ip@ + "/json/"@,
{
    let mut url = string_of("https://ipapi.co/");
    push_str(&mut url, ip);
    push_str(&mut url, "/json/");
    url
}

/// The service that an answer of the outside API names: its `country` where
/// that is a string, else "unknown".
pub open spec fn country_of(doc: Json) -> Seq<char> {
    match json_field(doc, "country"@) {
        Some(v) => match json_text(v) {
            Some(t) => t,
            None => "unknown"@,
        },
        None => "unknown"@,
    }
}

/// The service named by the body of an answer of the outside API; `None`
/// where the body is no JSON document.
pub fn service_from_api_body(body: &str) -> (r: Option<String>)
    ensures
        match json_document(body@) {
            None => r is None,
            Some(doc) => r matches Some(s) && s@ == country_of(doc),
        },
{
    match parse_json(body) {
        Ok(doc) => {
            match doc.get("country") {
                Some(v) => match v.as_str() {
                    Some(s) => Some(s.clone()),
                    None => Some(string_of("unknown")),
                },
                None => Some(string_of("unknown")),
            }
        },
        Err(_) => None,
    }
}

} // verus!
