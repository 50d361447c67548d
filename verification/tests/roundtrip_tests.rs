use pool_scan::text::{address_from_hex, address_to_hex, parse_dec, to_dec};
use pool_scan::{Address, PoolInfo};

const HEADER: [&str; 9] = [
    "pool_addr",
    "token0_name",
    "token0_symbol",
    "token1_name",
    "token1_symbol",
    "fee",
    "token0_addr",
    "token1_addr",
    "block_number",
];

fn serialize_all(records: &[PoolInfo]) -> String {
    let mut writer = csv::Writer::from_writer(vec![]);
    writer.write_record(&HEADER).unwrap();
    for r in records {
        writer.write_record(&r.to_row()).unwrap();
    }
    String::from_utf8(writer.into_inner().unwrap()).unwrap()
}

fn parse_all(text: &str) -> Vec<PoolInfo> {
    let mut reader = csv::Reader::from_reader(text.as_bytes());
    reader
        .records()
        .map(|r| {
            let fields: Vec<String> = r.unwrap().iter().map(|f| f.to_string()).collect();
            PoolInfo::from_row(&fields).expect("row should parse")
        })
        .collect()
}

fn sample(n: u32) -> PoolInfo {
    PoolInfo {
        pool_addr: Address { hi: 0x1F98431c8aD98523, mid: 0x631AE4a59f267346, lo: n },
        token0_name: format!("Token {n}"),
        token0_symbol: format!("T{n}"),
        token1_name: "Wrapped Ether".to_string(),
        token1_symbol: "WETH".to_string(),
        fee: 3000 + n as u64,
        token0_addr: Address { hi: 1, mid: 2, lo: n },
        token1_addr: Address { hi: 3, mid: 4, lo: n + 1 },
        block_number: 12369621 + n as u64,
    }
}

fn records_equal(a: &PoolInfo, b: &PoolInfo) -> bool {
    a.pool_addr == b.pool_addr && a.token0_name == b.token0_name
        && a.token0_symbol == b.token0_symbol && a.token1_name == b.token1_name
        && a.token1_symbol == b.token1_symbol && a.fee == b.fee && a.token0_addr == b.token0_addr
        && a.token1_addr == b.token1_addr && a.block_number == b.block_number
}

#[test]
fn row_round_trip_keeps_every_field() {
    for n in 0..5 {
        let r = sample(n);
        let back = PoolInfo::from_row(&r.to_row()).expect("own row should parse");
        assert!(records_equal(&r, &back));
    }
}

#[test]
fn csv_round_trip_keeps_every_field() {
    let records: Vec<PoolInfo> = (0..5).map(sample).collect();
    let text = serialize_all(&records);
    let back = parse_all(&text);
    assert_eq!(back.len(), records.len());
    for (a, b) in records.iter().zip(back.iter()) {
        assert!(records_equal(a, b));
    }
}

#[test]
fn empty_run_serializes_to_header_only() {
    let text = serialize_all(&[]);
    let mut lines = text.lines();
    let header = lines.next().unwrap();
    assert_eq!(header, HEADER.join(","));
    assert!(lines.next().is_none());
    assert_eq!(parse_all(&text).len(), 0);
}

#[test]
fn empty_metadata_fields_survive_the_round_trip() {
    let mut r = sample(1);
    r.token0_name = String::new();
    r.token0_symbol = String::new();
    let back = parse_all(&serialize_all(&[r.clone()]));
    assert_eq!(back.len(), 1);
    assert!(records_equal(&back[0], &r));
}

#[test]
fn address_hex_form_is_exact() {
    let a = Address { hi: 0x1F98431c8aD98523, mid: 0x631AE4a59f267346, lo: 0xea31F984 };
    let text = address_to_hex(&a);
    assert_eq!(text, "0x1f98431c8ad98523631ae4a59f267346ea31f984");
    assert_eq!(address_from_hex(&text), Some(a));
    assert_eq!(address_from_hex("0x123"), None);
    assert_eq!(address_from_hex("1f98431c8ad98523631ae4a59f267346ea31f98400"), None);
}

#[test]
fn decimal_form_is_exact() {
    assert_eq!(to_dec(0), "0");
    assert_eq!(to_dec(12369621), "12369621");
    assert_eq!(parse_dec("12369621"), Some(12369621));
    assert_eq!(parse_dec(""), None);
    assert_eq!(parse_dec("12a"), None);
    assert_eq!(parse_dec("18446744073709551615"), Some(u64::MAX));
    assert_eq!(parse_dec("18446744073709551616"), None);
}
