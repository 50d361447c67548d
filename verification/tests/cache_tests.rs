use pool_scan::{Address, MetadataFetch, TokenMetadataCache};

fn addr(n: u32) -> Address {
    Address { hi: 0, mid: 0, lo: n }
}

fn fetch(name: Option<&str>, symbol: Option<&str>) -> MetadataFetch {
    MetadataFetch {
        name_result: name.map(|s| s.to_string()),
        symbol_result: symbol.map(|s| s.to_string()),
    }
}

#[test]
fn miss_stores_fetched_metadata() {
    let mut cache = TokenMetadataCache::new();
    assert!(!cache.contains(addr(1)));
    let m = cache.resolve(addr(1), fetch(Some("Wrapped Ether"), Some("WETH")));
    assert_eq!(m.address, addr(1));
    assert_eq!(m.name, "Wrapped Ether");
    assert_eq!(m.symbol, "WETH");
    assert!(cache.contains(addr(1)));
}

#[test]
fn hit_returns_cached_value_and_ignores_new_fetch() {
    let mut cache = TokenMetadataCache::new();
    let first = cache.resolve(addr(1), fetch(Some("Wrapped Ether"), Some("WETH")));
    let second = cache.resolve(addr(1), fetch(Some("Imposter"), Some("NOPE")));
    assert_eq!(second.name, first.name);
    assert_eq!(second.symbol, first.symbol);
    assert_eq!(second.address, first.address);
    let third = cache.resolve(addr(1), fetch(None, None));
    assert_eq!(third.name, "Wrapped Ether");
    assert_eq!(third.symbol, "WETH");
}

#[test]
fn failed_symbol_call_defaults_to_empty() {
    let mut cache = TokenMetadataCache::new();
    let m = cache.resolve(addr(2), fetch(Some("Dai Stablecoin"), None));
    assert_eq!(m.name, "Dai Stablecoin");
    assert_eq!(m.symbol, "");
}

#[test]
fn resolved_empty_differs_from_defaulted_only_in_origin() {
    let mut cache = TokenMetadataCache::new();
    let m = cache.resolve(addr(3), fetch(Some(""), None));
    assert_eq!(m.name, "");
    assert_eq!(m.symbol, "");
}

#[test]
fn distinct_addresses_are_cached_separately() {
    let mut cache = TokenMetadataCache::new();
    cache.resolve(addr(1), fetch(Some("A"), Some("AA")));
    cache.resolve(addr(2), fetch(Some("B"), Some("BB")));
    let a = cache.get(addr(1)).expect("cached");
    assert_eq!(a.name, "A");
    let b = cache.get(addr(2)).expect("cached");
    assert_eq!(b.symbol, "BB");
    assert!(cache.get(addr(3)).is_none());
}
