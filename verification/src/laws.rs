use vstd::prelude::*;
use crate::address::Address;
use crate::decode::{parse_failure, DecodeError, RawLogEntry, TokenValue};
use crate::event::{
    addr_of, all_kinds_ok, all_present, block_or_zero, int_of, kind_matches, last_named,
    spec_decode_event, spec_pairs, spec_project, uint_of, PoolCreatedEvent,
};
use crate::metadata::{cache_after, fetched_view, resolved_of, MetaView, MetadataFetch};
use crate::schema::EventSchema;

verus! {

/// A name the event reads a field from.
pub open spec fn known_name(n: Seq<char>) -> bool {
    n == "token0"@ || n == "token1"@ || n == "fee"@ || n == "tickSpacing"@ || n == "pool"@
}

/// A well-formed entry decodes to an event whose every field is
/// populated exactly from the value decoded for the matching name,
/// with the block number taken from the entry itself.
pub proof fn lemma_well_formed_entry_decodes(schema: EventSchema, entry: RawLogEntry)
    requires
        parse_failure(schema, entry) is None,
        all_kinds_ok(spec_pairs(schema, entry)),
        all_present(spec_pairs(schema, entry)),
    ensures
        spec_decode_event(schema, entry) == Ok::<PoolCreatedEvent, DecodeError>(
            PoolCreatedEvent {
                token0: addr_of(last_named(spec_pairs(schema, entry), "token0"@)),
                token1: addr_of(last_named(spec_pairs(schema, entry), "token1"@)),
                fee: uint_of(last_named(spec_pairs(schema, entry), "fee"@)),
                tick_spacing: int_of(last_named(spec_pairs(schema, entry), "tickSpacing"@)),
                pool: addr_of(last_named(spec_pairs(schema, entry), "pool"@)),
                block_number: block_or_zero(entry),
            },
        ),
{
}

/// A decoded parameter under a name the event does not use is ignored:
/// it changes neither the projected event nor whether projection
/// succeeds.
pub proof fn lemma_unknown_param_ignored(
    s: Seq<(Seq<char>, TokenValue)>,
    p: (Seq<char>, TokenValue),
    block: u64,
)
    requires
        !known_name(p.0),
    ensures
        spec_project(s.push(p), block) == spec_project(s, block),
{
    let t = s.push(p);
    assert(t.drop_last() =~= s);
    assert(t.last() == p);
    assert(last_named(t, "token0"@) == last_named(s, "token0"@));
    assert(last_named(t, "token1"@) == last_named(s, "token1"@));
    assert(last_named(t, "fee"@) == last_named(s, "fee"@));
    assert(last_named(t, "tickSpacing"@) == last_named(s, "tickSpacing"@));
    assert(last_named(t, "pool"@) == last_named(s, "pool"@));
    assert(kind_matches(p));
    if all_kinds_ok(s) {
        assert forall|j: int| 0 <= j < t.len() implies kind_matches(#[trigger] t[j]) by {
            if j < s.len() {
                assert(t[j] == s[j]);
                assert(kind_matches(s[j]));
            } else {
                assert(t[j] == p);
            }
        }
    }
    if all_kinds_ok(t) {
        assert forall|j: int| 0 <= j < s.len() implies kind_matches(#[trigger] s[j]) by {
            assert(s[j] == t[j]);
            assert(kind_matches(t[j]));
        }
    }
}

/// Projection rejects, with no partial event, any parameter sequence
/// that lacks a required name.
pub proof fn lemma_missing_required_param_fails(s: Seq<(Seq<char>, TokenValue)>, block: u64)
    requires
        all_kinds_ok(s),
        !all_present(s),
    ensures
        spec_project(s, block) == Err::<PoolCreatedEvent, DecodeError>(DecodeError::MissingParam),
{
}

/// Resolving an address that is already cached is idempotent: the
/// cache is left exactly as it is, and a second resolution returns the
/// identical value, whatever either fetch outcome holds.
pub proof fn lemma_resolve_idempotent(
    m: Map<Address, MetaView>,
    a: Address,
    f1: MetadataFetch,
    f2: MetadataFetch,
)
    requires
        m.contains_key(a),
    ensures
        cache_after(m, a, f1) == m,
        resolved_of(m, a, f1) == m[a],
        resolved_of(cache_after(m, a, f1), a, f2) == resolved_of(m, a, f1),
{
}

/// A resolution whose symbol call failed keeps the fetched name and
/// degrades only the symbol to the empty string; resolution itself
/// never fails.
pub proof fn lemma_partial_fetch_defaults(a: Address, f: MetadataFetch)
    requires
        f.name_result matches Some(s) && s@.len() > 0,
        f.symbol_result is None,
    ensures
        fetched_view(a, f).name.len() > 0,
        fetched_view(a, f).symbol.len() == 0,
        fetched_view(a, f).address == a,
{
}

} // verus!
