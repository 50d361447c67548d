use pool_scan::{
    decode_event, Address, DecodeError, DecodedLog, EventParam, LogFilterSpec, NamedValue,
    ParamKind, PoolCreatedEvent, RawLogEntry, TokenValue,
};
use pool_scan::pool_created_schema;

fn addr(n: u32) -> Address {
    Address { hi: 0, mid: 0, lo: n }
}

fn address_word(a: &Address) -> Vec<u8> {
    let mut w = vec![0u8; 12];
    w.extend_from_slice(&a.hi.to_be_bytes());
    w.extend_from_slice(&a.mid.to_be_bytes());
    w.extend_from_slice(&a.lo.to_be_bytes());
    w
}

fn uint24_word(v: u32) -> Vec<u8> {
    let mut w = vec![0u8; 29];
    w.extend_from_slice(&v.to_be_bytes()[1..4]);
    w
}

fn int24_word(v: i32) -> Vec<u8> {
    let fill: u8 = if v < 0 { 0xff } else { 0 };
    let mut w = vec![fill; 29];
    w.extend_from_slice(&v.to_be_bytes()[1..4]);
    w
}

fn signature_topic() -> Vec<u8> {
    vec![0u8; 32]
}

fn valid_entry(
    token0: Address,
    token1: Address,
    fee: u32,
    tick: i32,
    pool: Address,
    block: Option<u64>,
) -> RawLogEntry {
    let mut data = int24_word(tick);
    data.extend_from_slice(&address_word(&pool));
    RawLogEntry {
        address: addr(999),
        topics: vec![
            signature_topic(),
            address_word(&token0),
            address_word(&token1),
            uint24_word(fee),
        ],
        data,
        block_number: block,
    }
}

#[test]
fn decodes_well_formed_entry() {
    let schema = pool_created_schema();
    let entry = valid_entry(addr(1), addr(2), 3000, 60, addr(7), Some(12369700));
    let ev = decode_event(&schema, &entry).expect("entry should decode");
    assert_eq!(ev.token0, addr(1));
    assert_eq!(ev.token1, addr(2));
    assert_eq!(ev.fee, 3000);
    assert_eq!(ev.tick_spacing, 60);
    assert_eq!(ev.pool, addr(7));
    assert_eq!(ev.block_number, 12369700);
}

#[test]
fn decodes_negative_tick_spacing() {
    let schema = pool_created_schema();
    let entry = valid_entry(addr(1), addr(2), 500, -60, addr(7), Some(5));
    let ev = decode_event(&schema, &entry).expect("entry should decode");
    assert_eq!(ev.tick_spacing, -60);
}

#[test]
fn decodes_full_width_address() {
    let schema = pool_created_schema();
    let token0 = Address { hi: 0x1F98431c8aD98523, mid: 0x631AE4a59f267346, lo: 0xea31F984 };
    let entry = valid_entry(token0, addr(2), 100, 1, addr(7), Some(5));
    let ev = decode_event(&schema, &entry).expect("entry should decode");
    assert_eq!(ev.token0, token0);
}

#[test]
fn missing_block_number_reads_as_zero() {
    let schema = pool_created_schema();
    let entry = valid_entry(addr(1), addr(2), 3000, 60, addr(7), None);
    let ev = decode_event(&schema, &entry).expect("entry should decode");
    assert_eq!(ev.block_number, 0);
}

#[test]
fn extra_schema_parameter_is_ignored() {
    let mut schema = pool_created_schema();
    schema.inputs.push(EventParam {
        name: "extra".to_string(),
        kind: ParamKind::Uint(32),
        indexed: false,
    });
    let mut entry = valid_entry(addr(1), addr(2), 3000, 60, addr(7), Some(11));
    let mut extra_word = vec![0u8; 28];
    extra_word.extend_from_slice(&42u32.to_be_bytes());
    entry.data.extend_from_slice(&extra_word);
    let ev = decode_event(&schema, &entry).expect("entry should decode");
    assert_eq!(ev.token0, addr(1));
    assert_eq!(ev.pool, addr(7));
    assert_eq!(ev.fee, 3000);
}

#[test]
fn too_few_topics_is_rejected() {
    let schema = pool_created_schema();
    let mut entry = valid_entry(addr(1), addr(2), 3000, 60, addr(7), Some(11));
    entry.topics.pop();
    assert_eq!(decode_event(&schema, &entry), Err(DecodeError::TopicCountMismatch));
}

#[test]
fn narrow_topic_is_rejected() {
    let schema = pool_created_schema();
    let mut entry = valid_entry(addr(1), addr(2), 3000, 60, addr(7), Some(11));
    entry.topics[1].pop();
    assert_eq!(decode_event(&schema, &entry), Err(DecodeError::TopicWidthMismatch));
}

#[test]
fn short_payload_is_rejected() {
    let schema = pool_created_schema();
    let mut entry = valid_entry(addr(1), addr(2), 3000, 60, addr(7), Some(11));
    entry.data.pop();
    assert_eq!(decode_event(&schema, &entry), Err(DecodeError::DataWidthMismatch));
}

#[test]
fn oversized_fee_is_rejected() {
    let schema = pool_created_schema();
    let mut entry = valid_entry(addr(1), addr(2), 3000, 60, addr(7), Some(11));
    // A set byte above the fee's 24-bit width.
    entry.topics[3][0] = 1;
    assert_eq!(decode_event(&schema, &entry), Err(DecodeError::ValueOutOfRange));
}

#[test]
fn missing_required_name_is_rejected() {
    let log = DecodedLog {
        params: vec![
            NamedValue { name: "token0".to_string(), value: TokenValue::AddressVal(addr(1)) },
            NamedValue { name: "token1".to_string(), value: TokenValue::AddressVal(addr(2)) },
            NamedValue { name: "fee".to_string(), value: TokenValue::UintVal(3000) },
            NamedValue { name: "tickSpacing".to_string(), value: TokenValue::IntVal(60) },
        ],
    };
    assert_eq!(PoolCreatedEvent::from_log(log), Err(DecodeError::MissingParam));
}

#[test]
fn wrong_value_shape_is_rejected() {
    let log = DecodedLog {
        params: vec![
            NamedValue { name: "token0".to_string(), value: TokenValue::UintVal(5) },
        ],
    };
    assert_eq!(PoolCreatedEvent::from_log(log), Err(DecodeError::WrongValueKind));
}

#[test]
fn unknown_named_value_is_ignored() {
    let log = DecodedLog {
        params: vec![
            NamedValue { name: "token0".to_string(), value: TokenValue::AddressVal(addr(1)) },
            NamedValue { name: "token1".to_string(), value: TokenValue::AddressVal(addr(2)) },
            NamedValue { name: "fee".to_string(), value: TokenValue::UintVal(3000) },
            NamedValue { name: "observer".to_string(), value: TokenValue::UintVal(9) },
            NamedValue { name: "tickSpacing".to_string(), value: TokenValue::IntVal(60) },
            NamedValue { name: "pool".to_string(), value: TokenValue::AddressVal(addr(7)) },
        ],
    };
    let ev = PoolCreatedEvent::from_log(log).expect("projection should succeed");
    assert_eq!(ev.token0, addr(1));
    assert_eq!(ev.token1, addr(2));
    assert_eq!(ev.fee, 3000);
    assert_eq!(ev.tick_spacing, 60);
    assert_eq!(ev.pool, addr(7));
}

#[test]
fn later_occurrence_of_a_name_overrides() {
    let log = DecodedLog {
        params: vec![
            NamedValue { name: "token0".to_string(), value: TokenValue::AddressVal(addr(1)) },
            NamedValue { name: "token1".to_string(), value: TokenValue::AddressVal(addr(2)) },
            NamedValue { name: "fee".to_string(), value: TokenValue::UintVal(3000) },
            NamedValue { name: "tickSpacing".to_string(), value: TokenValue::IntVal(60) },
            NamedValue { name: "pool".to_string(), value: TokenValue::AddressVal(addr(7)) },
            NamedValue { name: "fee".to_string(), value: TokenValue::UintVal(500) },
        ],
    };
    let ev = PoolCreatedEvent::from_log(log).expect("projection should succeed");
    assert_eq!(ev.fee, 500);
}

#[test]
fn filter_holds_address_and_start() {
    let f = LogFilterSpec::new(addr(3), 12369621);
    assert_eq!(f.address, addr(3));
    assert_eq!(f.from_block, 12369621);
}
