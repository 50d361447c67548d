use pool_scan::pool_created_schema;
use pool_scan::{
    Address, EnrichmentPipeline, MetadataFetch, PipelineStep, PoolCreatedEvent, PoolInfo,
    RawLogEntry, TokenMetadataCache,
};

fn addr(n: u32) -> Address {
    Address { hi: 0, mid: 0, lo: n }
}

fn address_word(a: &Address) -> Vec<u8> {
    let mut w = vec![0u8; 12];
    w.extend_from_slice(&a.hi.to_be_bytes());
    w.extend_from_slice(&a.mid.to_be_bytes());
    w.extend_from_slice(&a.lo.to_be_bytes());
    w
}

fn uint24_word(v: u32) -> Vec<u8> {
    let mut w = vec![0u8; 29];
    w.extend_from_slice(&v.to_be_bytes()[1..4]);
    w
}

fn int24_word(v: i32) -> Vec<u8> {
    let fill: u8 = if v < 0 { 0xff } else { 0 };
    let mut w = vec![fill; 29];
    w.extend_from_slice(&v.to_be_bytes()[1..4]);
    w
}

fn valid_entry(
    token0: Address,
    token1: Address,
    fee: u32,
    tick: i32,
    pool: Address,
    block: u64,
) -> RawLogEntry {
    let mut data = int24_word(tick);
    data.extend_from_slice(&address_word(&pool));
    RawLogEntry {
        address: addr(999),
        topics: vec![
            vec![0u8; 32],
            address_word(&token0),
            address_word(&token1),
            uint24_word(fee),
        ],
        data,
        block_number: Some(block),
    }
}

fn malformed_entry() -> RawLogEntry {
    RawLogEntry {
        address: addr(999),
        topics: vec![vec![0u8; 32]],
        data: Vec::new(),
        block_number: Some(1),
    }
}

fn fetch_for(a: Address) -> MetadataFetch {
    MetadataFetch {
        name_result: Some(format!("Token {}", a.lo)),
        symbol_result: Some(format!("T{}", a.lo)),
    }
}

/// Drives one run to completion, answering every metadata request;
/// returns the emitted records, the requested addresses, and how many
/// entries were skipped.
fn drive(pipeline: &mut EnrichmentPipeline) -> (Vec<PoolInfo>, Vec<Address>, usize) {
    let mut records = Vec::new();
    let mut requested = Vec::new();
    let mut skipped = 0usize;
    loop {
        match pipeline.step() {
            PipelineStep::NeedMetadata(a) => {
                requested.push(a);
                pipeline.supply_metadata(a, fetch_for(a));
            },
            PipelineStep::Emit(p) => records.push(p),
            PipelineStep::Skipped(_) => skipped += 1,
            PipelineStep::Done => break,
        }
    }
    (records, requested, skipped)
}

#[test]
fn three_entries_two_records_three_resolutions() {
    let logs = vec![
        valid_entry(addr(1), addr(2), 3000, 60, addr(10), 100),
        malformed_entry(),
        valid_entry(addr(2), addr(3), 500, 10, addr(11), 101),
    ];
    let mut pipeline = EnrichmentPipeline::new(pool_created_schema(), logs);
    let (records, requested, skipped) = drive(&mut pipeline);
    assert_eq!(records.len(), 2);
    assert_eq!(skipped, 1);
    // Three distinct tokens, one shared between both events: three
    // resolutions, not four.
    assert_eq!(requested.len(), 3);
    assert_eq!(requested, vec![addr(1), addr(2), addr(3)]);
    // The shared token's metadata is identical across both records.
    assert_eq!(records[0].token1_addr, records[1].token0_addr);
    assert_eq!(records[0].token1_name, records[1].token0_name);
    assert_eq!(records[0].token1_symbol, records[1].token0_symbol);
    // Field joins are exact.
    assert_eq!(records[0].pool_addr, addr(10));
    assert_eq!(records[0].fee, 3000);
    assert_eq!(records[0].block_number, 100);
    assert_eq!(records[0].token0_name, "Token 1");
    assert_eq!(records[1].pool_addr, addr(11));
    assert_eq!(records[1].token1_symbol, "T3");
}

#[test]
fn empty_input_yields_no_records_and_no_resolutions() {
    let mut pipeline = EnrichmentPipeline::new(pool_created_schema(), Vec::new());
    let (records, requested, skipped) = drive(&mut pipeline);
    assert_eq!(records.len(), 0);
    assert_eq!(requested.len(), 0);
    assert_eq!(skipped, 0);
}

#[test]
fn malformed_entry_shrinks_output_by_one() {
    let valid = vec![
        valid_entry(addr(1), addr(2), 3000, 60, addr(10), 100),
        valid_entry(addr(3), addr(4), 500, 10, addr(11), 101),
    ];
    let mut with_bad = valid.clone();
    with_bad.insert(1, malformed_entry());
    let mut p1 = EnrichmentPipeline::new(pool_created_schema(), valid);
    let (r1, _, s1) = drive(&mut p1);
    let mut p2 = EnrichmentPipeline::new(pool_created_schema(), with_bad);
    let (r2, _, s2) = drive(&mut p2);
    assert_eq!(s1, 0);
    assert_eq!(s2, 1);
    assert_eq!(r2.len(), r1.len());
    assert_eq!(r2.len() + 1, p2.total());
    assert_eq!(p2.processed(), p2.total());
}

#[test]
fn record_construction_requires_cached_tokens() {
    let mut cache = TokenMetadataCache::new();
    let ev = PoolCreatedEvent {
        token0: addr(1),
        token1: addr(2),
        fee: 3000,
        tick_spacing: 60,
        pool: addr(10),
        block_number: 7,
    };
    assert!(PoolInfo::from_pool_created_event(ev, &cache).is_none());
    cache.resolve(addr(1), fetch_for(addr(1)));
    assert!(PoolInfo::from_pool_created_event(ev, &cache).is_none());
    cache.resolve(addr(2), fetch_for(addr(2)));
    let rec = PoolInfo::from_pool_created_event(ev, &cache).expect("both tokens cached");
    assert_eq!(rec.pool_addr, addr(10));
    assert_eq!(rec.token0_name, "Token 1");
    assert_eq!(rec.token1_symbol, "T2");
    assert_eq!(rec.block_number, 7);
}

#[test]
fn failed_symbol_lookup_degrades_without_aborting() {
    let logs = vec![valid_entry(addr(1), addr(2), 3000, 60, addr(10), 100)];
    let mut pipeline = EnrichmentPipeline::new(pool_created_schema(), logs);
    let mut records = Vec::new();
    loop {
        match pipeline.step() {
            PipelineStep::NeedMetadata(a) => {
                // The symbol call errors for every token in this run.
                pipeline.supply_metadata(
                    a,
                    MetadataFetch {
                        name_result: Some(format!("Token {}", a.lo)),
                        symbol_result: None,
                    },
                );
            },
            PipelineStep::Emit(p) => records.push(p),
            PipelineStep::Skipped(_) => panic!("nothing to skip in this run"),
            PipelineStep::Done => break,
        }
    }
    assert_eq!(records.len(), 1);
    assert_eq!(records[0].token0_name, "Token 1");
    assert_eq!(records[0].token0_symbol, "");
    assert_eq!(records[0].token1_name, "Token 2");
    assert_eq!(records[0].token1_symbol, "");
}

#[test]
fn progress_counts_entries_in_order() {
    let logs = vec![
        valid_entry(addr(1), addr(2), 3000, 60, addr(10), 100),
        valid_entry(addr(1), addr(2), 500, 10, addr(11), 101),
    ];
    let mut pipeline = EnrichmentPipeline::new(pool_created_schema(), logs);
    assert_eq!(pipeline.processed(), 0);
    assert_eq!(pipeline.total(), 2);
    let (records, requested, _) = drive(&mut pipeline);
    assert_eq!(pipeline.processed(), 2);
    assert_eq!(records.len(), 2);
    // Second entry reuses both cached tokens: no further requests.
    assert_eq!(requested.len(), 2);
}
