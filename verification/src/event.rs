use vstd::prelude::*;
use crate::address::Address;
use crate::decode::{
    parse_failure, parse_log, spec_value_of, word_for, DecodeError, DecodedLog, NamedValue,
    RawLogEntry, TokenValue,
};
use crate::schema::EventSchema;

verus! {

/// The decoded pool-creation event: both token addresses, the fee
/// tier, the tick spacing, the new pool's address, and the block the
/// entry sits in.
#[derive(Clone, Copy, PartialEq, Eq, Structural, Debug)]
pub struct PoolCreatedEvent {
    pub token0: Address,
    pub token1: Address,
    pub fee: u64,
    pub tick_spacing: i64,
    pub pool: Address,
    pub block_number: u64,
}

impl DecodedLog {
    /// The decoded parameters as name/value pairs.
    pub open spec fn pairs(self) -> Seq<(Seq<char>, TokenValue)> {
        self.params@.map_values(|nv: NamedValue| (nv.name@, nv.value))
    }
}

/// The value of the last parameter named `n`, if any; a later
/// occurrence of a name overrides an earlier one.
pub open spec fn last_named(s: Seq<(Seq<char>, TokenValue)>, n: Seq<char>) -> Option<TokenValue>
    decreases s.len(),
{
    if s.len() == 0 {
        None
    } else if s.last().0 == n {
        Some(s.last().1)
    } else {
        last_named(s.drop_last(), n)
    }
}

/// A parameter whose name the event uses must carry the value shape
/// that name expects; parameters under other names are ignored.
pub open spec fn kind_matches(p: (Seq<char>, TokenValue)) -> bool {
    if p.0 == "token0"@ || p.0 == "token1"@ || p.0 == "pool"@ {
        p.1 is AddressVal
    } else if p.0 == "fee"@ {
        p.1 is UintVal
    } else if p.0 == "tickSpacing"@ {
        p.1 is IntVal
    } else {
        true
    }
}

pub open spec fn all_kinds_ok(s: Seq<(Seq<char>, TokenValue)>) -> bool {
    forall|j: int| 0 <= j < s.len() ==> kind_matches(#[trigger] s[j])
}

/// Every field the event requires is present by name.
pub open spec fn all_present(s: Seq<(Seq<char>, TokenValue)>) -> bool {
    &&& last_named(s, "token0"@) is Some
    &&& last_named(s, "token1"@) is Some
    &&& last_named(s, "fee"@) is Some
    &&& last_named(s, "tickSpacing"@) is Some
    &&& last_named(s, "pool"@) is Some
}

pub open spec fn addr_of(v: Option<TokenValue>) -> Address {
    match v {
        Some(TokenValue::AddressVal(a)) => a,
        _ => Address { hi: 0, mid: 0, lo: 0 },
    }
}

pub open spec fn uint_of(v: Option<TokenValue>) -> u64 {
    match v {
        Some(TokenValue::UintVal(u)) => u,
        _ => 0,
    }
}

pub open spec fn int_of(v: Option<TokenValue>) -> i64 {
    match v {
        Some(TokenValue::IntVal(i)) => i,
        _ => 0,
    }
}

/// Projecting named values into the fixed-shape event: fails fast when
/// a required name is absent or carries the wrong value shape.
pub open spec fn spec_project(
    s: Seq<(Seq<char>, TokenValue)>,
    block: u64,
) -> Result<PoolCreatedEvent, DecodeError> {
    if !all_kinds_ok(s) {
        Err(DecodeError::WrongValueKind)
    } else if !all_present(s) {
        Err(DecodeError::MissingParam)
    } else {
        Ok(
            PoolCreatedEvent {
                token0: addr_of(last_named(s, "token0"@)),
                token1: addr_of(last_named(s, "token1"@)),
                fee: uint_of(last_named(s, "fee"@)),
                tick_spacing: int_of(last_named(s, "tickSpacing"@)),
                pool: addr_of(last_named(s, "pool"@)),
                block_number: block,
            },
        )
    }
}

/// The entry's block number, with absence read as block zero.
pub open spec fn block_or_zero(entry: RawLogEntry) -> u64 {
    match entry.block_number {
        Some(b) => b,
        None => 0,
    }
}

/// The name/value pairs a well-shaped entry decodes to under the
/// schema.
pub open spec fn spec_pairs(schema: EventSchema, entry: RawLogEntry) -> Seq<
    (Seq<char>, TokenValue),
> {
    Seq::new(
        schema.inputs@.len(),
        |j: int|
            (
                schema.inputs@[j].name@,
                spec_value_of(schema.inputs@[j].kind, word_for(schema, entry, j))->Some_0,
            ),
    )
}

/// What decoding one raw entry yields: the shape failure if its topics
/// or payload do not fit the schema, else the projected event with the
/// entry's own block number.
pub open spec fn spec_decode_event(schema: EventSchema, entry: RawLogEntry) -> Result<
    PoolCreatedEvent,
    DecodeError,
> {
    match parse_failure(schema, entry) {
        Some(e) => Err(e),
        None => spec_project(spec_pairs(schema, entry), block_or_zero(entry)),
    }
}

/// The five field names are pairwise distinct.
proof fn lemma_field_names_distinct()
    ensures
        "token0"@ != "token1"@,
        "token0"@ != "fee"@,
        "token0"@ != "tickSpacing"@,
        "token0"@ != "pool"@,
        "token1"@ != "fee"@,
        "token1"@ != "tickSpacing"@,
        "token1"@ != "pool"@,
        "fee"@ != "tickSpacing"@,
        "fee"@ != "pool"@,
        "tickSpacing"@ != "pool"@,
{
    reveal_strlit("token0");
    reveal_strlit("token1");
    reveal_strlit("fee");
    reveal_strlit("tickSpacing");
    reveal_strlit("pool");
    assert("token0"@.len() == 6);
    assert("token1"@.len() == 6);
    assert("fee"@.len() == 3);
    assert("tickSpacing"@.len() == 11);
    assert("pool"@.len() == 4);
    assert("token0"@[5] == '0');
    assert("token1"@[5] == '1');
}

impl PoolCreatedEvent {
    /// Projects decoded named values into the event, by name alone:
    /// unknown names are ignored, a later occurrence of a name
    /// overrides an earlier one, and the block number is left zero for
    /// the caller to fill from the entry.
    pub fn from_log(log: DecodedLog) -> (r: Result<PoolCreatedEvent, DecodeError>)
        ensures
            r == spec_project(log.pairs(), 0u64),
    {
        let ghost prs = log.pairs();
        let name_token0: String = "token0".to_string();
        let name_token1: String = "token1".to_string();
        let name_fee: String = "fee".to_string();
        let name_tick: String = "tickSpacing".to_string();
        let name_pool: String = "pool".to_string();
        let mut token0 = Address::zero();
        let mut token1 = Address::zero();
        let mut fee: u64 = 0;
        let mut tick_spacing: i64 = 0;
        let mut pool = Address::zero();
        let mut seen_token0 = false;
        let mut seen_token1 = false;
        let mut seen_fee = false;
        let mut seen_tick = false;
        let mut seen_pool = false;
        let mut j: usize = 0;
        proof {
            assert(prs.take(0) =~= Seq::<(Seq<char>, TokenValue)>::empty());
        }
        while j < log.params.len()
            invariant
                j <= log.params@.len(),
                prs == log.pairs(),
                prs.len() == log.params@.len(),
                name_token0@ == "token0"@,
                name_token1@ == "token1"@,
                name_fee@ == "fee"@,
                name_tick@ == "tickSpacing"@,
                name_pool@ == "pool"@,
                forall|k: int| 0 <= k < j ==> kind_matches(#[trigger] prs[k]),
                seen_token0 ==> last_named(prs.take(j as int), "token0"@) == Some(
                    TokenValue::AddressVal(token0),
                ),
                !seen_token0 ==> last_named(prs.take(j as int), "token0"@) is None,
                seen_token1 ==> last_named(prs.take(j as int), "token1"@) == Some(
                    TokenValue::AddressVal(token1),
                ),
                !seen_token1 ==> last_named(prs.take(j as int), "token1"@) is None,
                seen_fee ==> last_named(prs.take(j as int), "fee"@) == Some(
                    TokenValue::UintVal(fee),
                ),
                !seen_fee ==> last_named(prs.take(j as int), "fee"@) is None,
                seen_tick ==> last_named(prs.take(j as int), "tickSpacing"@) == Some(
                    TokenValue::IntVal(tick_spacing),
                ),
                !seen_tick ==> last_named(prs.take(j as int), "tickSpacing"@) is None,
                seen_pool ==> last_named(prs.take(j as int), "pool"@) == Some(
                    TokenValue::AddressVal(pool),
                ),
                !seen_pool ==> last_named(prs.take(j as int), "pool"@) is None,
            decreases log.params@.len() - j,
        {
            proof {
                lemma_field_names_distinct();
                assert(prs.take(j + 1).drop_last() =~= prs.take(j as int));
                assert(prs.take(j + 1).last() == prs[j as int]);
                assert(prs[j as int] == (log.params@[j as int].name@, log.params@[j as int].value));
            }
            let nv = &log.params[j];
            if nv.name == name_token0 {
                match nv.value {
                    TokenValue::AddressVal(a) => {
                        token0 = a;
                        seen_token0 = true;
                    },
                    _ => {
                        proof {
                            assert(!kind_matches(prs[j as int]));
                        }
                        return Err(DecodeError::WrongValueKind);
                    },
                }
            } else if nv.name == name_token1 {
                match nv.value {
                    TokenValue::AddressVal(a) => {
                        token1 = a;
                        seen_token1 = true;
                    },
                    _ => {
                        proof {
                            assert(!kind_matches(prs[j as int]));
                        }
                        return Err(DecodeError::WrongValueKind);
                    },
                }
            } else if nv.name == name_fee {
                match nv.value {
                    TokenValue::UintVal(u) => {
                        fee = u;
                        seen_fee = true;
                    },
                    _ => {
                        proof {
                            assert(!kind_matches(prs[j as int]));
                        }
                        return Err(DecodeError::WrongValueKind);
                    },
                }
            } else if nv.name == name_tick {
                match nv.value {
                    TokenValue::IntVal(i) => {
                        tick_spacing = i;
                        seen_tick = true;
                    },
                    _ => {
                        proof {
                            assert(!kind_matches(prs[j as int]));
                        }
                        return Err(DecodeError::WrongValueKind);
                    },
                }
            } else if nv.name == name_pool {
                match nv.value {
                    TokenValue::AddressVal(a) => {
                        pool = a;
                        seen_pool = true;
                    },
                    _ => {
                        proof {
                            assert(!kind_matches(prs[j as int]));
                        }
                        return Err(DecodeError::WrongValueKind);
                    },
                }
            }
            j = j + 1;
        }
        proof {
            assert(prs.take(log.params@.len() as int) =~= prs);
        }
        if !(seen_token0 && seen_token1 && seen_fee && seen_tick && seen_pool) {
            return Err(DecodeError::MissingParam);
        }
        Ok(PoolCreatedEvent { token0, token1, fee, tick_spacing, pool, block_number: 0 })
    }
}

/// Decodes one raw log entry against the schema into the typed event;
/// fails exactly when the entry's shape, a value's width, or a
/// required name does not match.
pub fn decode_event(schema: &EventSchema, entry: &RawLogEntry) -> (r: Result<
    PoolCreatedEvent,
    DecodeError,
>)
    requires
        schema.wf(),
    ensures
        r == spec_decode_event(*schema, *entry),
{
    let decoded = match parse_log(schema, entry) {
        Ok(d) => d,
        Err(e) => {
            return Err(e);
        },
    };
    proof {
        let sp = spec_pairs(*schema, *entry);
        assert forall|j: int| 0 <= j < sp.len() implies decoded.pairs()[j] == sp[j] by {
            assert(crate::decode::param_ok(decoded.params@, *schema, *entry, j));
        }
        assert(decoded.pairs() =~= sp);
    }
    let mut ev = match PoolCreatedEvent::from_log(decoded) {
        Ok(ev) => ev,
        Err(e) => {
            return Err(e);
        },
    };
    ev.block_number = match entry.block_number {
        Some(b) => b,
        None => 0,
    };
    Ok(ev)
}

} // verus!
