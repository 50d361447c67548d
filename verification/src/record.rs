use vstd::prelude::*;
use crate::address::Address;
use crate::event::PoolCreatedEvent;
use crate::metadata::{MetaView, TokenMetadataCache};
use crate::text::{
    address_from_hex, address_hex, address_to_hex, all_digits, all_hex_digits, dec_val, hex_val,
    parse_dec, to_dec, u64_to_dec,
};

verus! {

/// The mathematical content of one output row.
pub ghost struct PoolInfoView {
    pub pool_addr: Address,
    pub token0_name: Seq<char>,
    pub token0_symbol: Seq<char>,
    pub token1_name: Seq<char>,
    pub token1_symbol: Seq<char>,
    pub fee: u64,
    pub token0_addr: Address,
    pub token1_addr: Address,
    pub block_number: u64,
}

/// One output row: the pool, both tokens with their resolved names and
/// symbols, the fee tier, and the block number.
#[derive(Clone, Debug)]
pub struct PoolInfo {
    pub pool_addr: Address,
    pub token0_name: String,
    pub token0_symbol: String,
    pub token1_name: String,
    pub token1_symbol: String,
    pub fee: u64,
    pub token0_addr: Address,
    pub token1_addr: Address,
    pub block_number: u64,
}

impl View for PoolInfo {
    type V = PoolInfoView;

    open spec fn view(&self) -> PoolInfoView {
        PoolInfoView {
            pool_addr: self.pool_addr,
            token0_name: self.token0_name@,
            token0_symbol: self.token0_symbol@,
            token1_name: self.token1_name@,
            token1_symbol: self.token1_symbol@,
            fee: self.fee,
            token0_addr: self.token0_addr,
            token1_addr: self.token1_addr,
            block_number: self.block_number,
        }
    }
}

/// The row one event yields once both of its token addresses are
/// resolved in the given mapping.
pub open spec fn record_view(ev: PoolCreatedEvent, m: Map<Address, MetaView>) -> PoolInfoView {
    PoolInfoView {
        pool_addr: ev.pool,
        token0_name: m[ev.token0].name,
        token0_symbol: m[ev.token0].symbol,
        token1_name: m[ev.token1].name,
        token1_symbol: m[ev.token1].symbol,
        fee: ev.fee,
        token0_addr: ev.token0,
        token1_addr: ev.token1,
        block_number: ev.block_number,
    }
}

/// A field that parses as an address: `0x` and forty hex digits.
pub open spec fn addr_text_ok(s: Seq<char>) -> bool {
    &&& s.len() == 42
    &&& s[0] == '0'
    &&& s[1] == 'x'
    &&& all_hex_digits(s.subrange(2, 18))
    &&& all_hex_digits(s.subrange(18, 34))
    &&& all_hex_digits(s.subrange(34, 42))
}

/// The address an address field denotes.
pub open spec fn addr_of_text(s: Seq<char>) -> Address {
    Address {
        hi: hex_val(s.subrange(2, 18)) as u64,
        mid: hex_val(s.subrange(18, 34)) as u64,
        lo: hex_val(s.subrange(34, 42)) as u32,
    }
}

/// A field that parses as a number.
pub open spec fn dec_text_ok(s: Seq<char>) -> bool {
    s.len() > 0 && all_digits(s) && dec_val(s) <= u64::MAX
}

/// The row of text fields a record serializes to.
pub open spec fn spec_row(v: PoolInfoView) -> Seq<Seq<char>> {
    seq![
        address_hex(v.pool_addr),
        v.token0_name,
        v.token0_symbol,
        v.token1_name,
        v.token1_symbol,
        u64_to_dec(v.fee as nat),
        address_hex(v.token0_addr),
        address_hex(v.token1_addr),
        u64_to_dec(v.block_number as nat),
    ]
}

/// The record a row of text fields denotes, if each field parses.
pub open spec fn parse_row(row: Seq<Seq<char>>) -> Option<PoolInfoView> {
    if row.len() == 9 && addr_text_ok(row[0]) && dec_text_ok(row[5]) && addr_text_ok(row[6])
        && addr_text_ok(row[7]) && dec_text_ok(row[8]) {
        Some(
            PoolInfoView {
                pool_addr: addr_of_text(row[0]),
                token0_name: row[1],
                token0_symbol: row[2],
                token1_name: row[3],
                token1_symbol: row[4],
                fee: dec_val(row[5]) as u64,
                token0_addr: addr_of_text(row[6]),
                token1_addr: addr_of_text(row[7]),
                block_number: dec_val(row[8]) as u64,
            },
        )
    } else {
        None
    }
}

impl PoolInfo {
    /// Joins one decoded event with the cached metadata of both its
    /// tokens. Construction fails exactly when either token address is
    /// not yet resolved in the cache.
    pub fn from_pool_created_event(event: PoolCreatedEvent, cache: &TokenMetadataCache) -> (r:
        Option<PoolInfo>)
        requires
            cache.wf(),
        ensures
            r is Some <==> (cache@.contains_key(event.token0) && cache@.contains_key(
                event.token1,
            )),
            r matches Some(p) ==> p@ == record_view(event, cache@),
    {
        let meta0 = match cache.get(event.token0) {
            Some(m) => m,
            None => {
                return None;
            },
        };
        let meta1 = match cache.get(event.token1) {
            Some(m) => m,
            None => {
                return None;
            },
        };
        Some(
            PoolInfo {
                pool_addr: event.pool,
                token0_name: meta0.name.clone(),
                token0_symbol: meta0.symbol.clone(),
                token1_name: meta1.name.clone(),
                token1_symbol: meta1.symbol.clone(),
                fee: event.fee,
                token0_addr: event.token0,
                token1_addr: event.token1,
                block_number: event.block_number,
            },
        )
    }

    /// The record as a row of text fields, in header order: addresses
    /// in hexadecimal, numbers in decimal, names and symbols verbatim.
    pub fn to_row(&self) -> (row: Vec<String>)
        ensures
            row.deep_view() == spec_row(self@),
    {
        let mut row: Vec<String> = Vec::new();
        row.push(address_to_hex(&self.pool_addr));
        row.push(self.token0_name.clone());
        row.push(self.token0_symbol.clone());
        row.push(self.token1_name.clone());
        row.push(self.token1_symbol.clone());
        row.push(to_dec(self.fee));
        row.push(address_to_hex(&self.token0_addr));
        row.push(address_to_hex(&self.token1_addr));
        row.push(to_dec(self.block_number));
        proof {
            assert(row.deep_view() =~= spec_row(self@));
        }
        row
    }

    /// Reads a record back from a row of text fields; succeeds exactly
    /// when the row has nine fields and each address and number field
    /// parses.
    pub fn from_row(row: &Vec<String>) -> (r: Option<PoolInfo>)
        ensures
            match r {
                Some(p) => parse_row(row.deep_view()) == Some(p@),
                None => parse_row(row.deep_view()) is None,
            },
    {
        if row.len() != 9 {
            return None;
        }
        let pool_addr = match address_from_hex(row[0].as_str()) {
            Some(a) => a,
            None => {
                return None;
            },
        };
        let fee = match parse_dec(row[5].as_str()) {
            Some(v) => v,
            None => {
                return None;
            },
        };
        let token0_addr = match address_from_hex(row[6].as_str()) {
            Some(a) => a,
            None => {
                return None;
            },
        };
        let token1_addr = match address_from_hex(row[7].as_str()) {
            Some(a) => a,
            None => {
                return None;
            },
        };
        let block_number = match parse_dec(row[8].as_str()) {
            Some(v) => v,
            None => {
                return None;
            },
        };
        Some(
            PoolInfo {
                pool_addr,
                token0_name: row[1].clone(),
                token0_symbol: row[2].clone(),
                token1_name: row[3].clone(),
                token1_symbol: row[4].clone(),
                fee,
                token0_addr,
                token1_addr,
                block_number,
            },
        )
    }
}

/// Serializing a record to its row of text fields and parsing the row
/// back yields the record it came from, field for field.
pub proof fn lemma_row_round_trip(v: PoolInfoView)
    ensures
        parse_row(spec_row(v)) == Some(v),
{
    crate::text::lemma_address_hex_round_trip(v.pool_addr);
    crate::text::lemma_address_hex_round_trip(v.token0_addr);
    crate::text::lemma_address_hex_round_trip(v.token1_addr);
    crate::text::lemma_dec_round_trip(v.fee);
    crate::text::lemma_dec_round_trip(v.block_number);
}

} // verus!
