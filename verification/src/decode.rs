use vstd::prelude::*;
use crate::address::Address;
use crate::codec::{
    address_of_word, int_fits, int_of_word, uint_fits, uint_of_word, word_address, word_int,
    word_uint,
};
use crate::schema::{EventParam, EventSchema, ParamKind};

verus! {

/// A raw entry from the chain's event log: the emitting contract, the
/// indexed topic hashes, the opaque payload, and the block it sits in
/// (absent for a pending entry).
#[derive(Clone, Debug)]
pub struct RawLogEntry {
    pub address: Address,
    pub topics: Vec<Vec<u8>>,
    pub data: Vec<u8>,
    pub block_number: Option<u64>,
}

/// A decoded parameter value.
#[derive(Clone, Copy, PartialEq, Eq, Structural, Debug)]
pub enum TokenValue {
    AddressVal(Address),
    UintVal(u64),
    IntVal(i64),
}

/// One decoded parameter: the schema name and the value found for it.
#[derive(Clone, Debug)]
pub struct NamedValue {
    pub name: String,
    pub value: TokenValue,
}

/// A log entry decoded against a schema: one named value per schema
/// parameter, in schema order.
#[derive(Clone, Debug)]
pub struct DecodedLog {
    pub params: Vec<NamedValue>,
}

/// Why one entry could not be decoded. Such a failure is per-entry:
/// the entry is skipped and the run continues.
#[derive(Clone, Copy, PartialEq, Eq, Structural, Debug)]
pub enum DecodeError {
    /// The entry does not carry one topic per indexed parameter (plus
    /// the signature topic for a non-anonymous event).
    TopicCountMismatch,
    /// A topic is not exactly 32 bytes wide.
    TopicWidthMismatch,
    /// The payload is not exactly one 32-byte word per non-indexed
    /// parameter.
    DataWidthMismatch,
    /// A word does not fit its parameter's declared width.
    ValueOutOfRange,
    /// A required named parameter is absent from the decoded entry.
    MissingParam,
    /// A required named parameter carries a value of the wrong shape.
    WrongValueKind,
}

/// How many of the parameters are indexed.
pub open spec fn n_indexed(s: Seq<EventParam>) -> nat
    decreases s.len(),
{
    if s.len() == 0 {
        0
    } else {
        (n_indexed(s.drop_last()) + if s.last().indexed {
            1nat
        } else {
            0nat
        }) as nat
    }
}

pub proof fn lemma_n_indexed_take_step(s: Seq<EventParam>, j: int)
    requires
        0 <= j < s.len(),
    ensures
        n_indexed(s.take(j + 1)) == n_indexed(s.take(j)) + if s[j].indexed {
            1nat
        } else {
            0nat
        },
{
    assert(s.take(j + 1).drop_last() =~= s.take(j));
    assert(s.take(j + 1).last() == s[j]);
}

pub proof fn lemma_n_indexed_le_len(s: Seq<EventParam>)
    ensures
        n_indexed(s) <= s.len(),
    decreases s.len(),
{
    if s.len() > 0 {
        lemma_n_indexed_le_len(s.drop_last());
    }
}

pub proof fn lemma_n_indexed_take_le(s: Seq<EventParam>, j: int)
    requires
        0 <= j <= s.len(),
    ensures
        n_indexed(s.take(j)) <= n_indexed(s),
    decreases s.len() - j,
{
    if j == s.len() {
        assert(s.take(j) =~= s);
    } else {
        lemma_n_indexed_take_step(s, j);
        lemma_n_indexed_take_le(s, j + 1);
    }
}

pub proof fn lemma_n_indexed_take_ge(s: Seq<EventParam>, j: int)
    requires
        0 <= j <= s.len(),
    ensures
        n_indexed(s) <= n_indexed(s.take(j)) + (s.len() - j),
    decreases s.len() - j,
{
    if j == s.len() {
        assert(s.take(j) =~= s);
    } else {
        lemma_n_indexed_take_step(s, j);
        lemma_n_indexed_take_ge(s, j + 1);
    }
}

/// The value a 32-byte word carries under one parameter kind; `None`
/// when the word does not fit the declared width.
pub open spec fn spec_value_of(kind: ParamKind, w: Seq<u8>) -> Option<TokenValue> {
    match kind {
        ParamKind::Address => Some(TokenValue::AddressVal(address_of_word(w))),
        ParamKind::Uint(bits) => if uint_fits(w, (bits / 8) as nat) {
            Some(TokenValue::UintVal(uint_of_word(w, (bits / 8) as nat) as u64))
        } else {
            None
        },
        ParamKind::Int(bits) => if int_fits(w, (bits / 8) as nat) {
            Some(TokenValue::IntVal(int_of_word(w, (bits / 8) as nat) as i64))
        } else {
            None
        },
    }
}

/// The 32-byte word that parameter `j` is read from: its topic slot for
/// an indexed parameter, its payload word otherwise.
pub open spec fn word_for(schema: EventSchema, entry: RawLogEntry, j: int) -> Seq<u8> {
    let ins = schema.inputs@;
    if ins[j].indexed {
        entry.topics@[schema.topic_base() + n_indexed(ins.take(j))]@
    } else {
        let before = j - n_indexed(ins.take(j));
        entry.data@.subrange(32 * before, 32 * before + 32)
    }
}

/// The shape an entry must have for the schema: the exact topic count,
/// 32-byte topics, and one payload word per non-indexed parameter.
pub open spec fn shape_ok(schema: EventSchema, entry: RawLogEntry) -> bool {
    let ins = schema.inputs@;
    &&& entry.topics@.len() == schema.topic_base() + n_indexed(ins)
    &&& (forall|i: int|
        schema.topic_base() <= i < entry.topics@.len() ==> (#[trigger] entry.topics@[i])@.len()
            == 32)
    &&& entry.data@.len() == 32 * (ins.len() - n_indexed(ins))
}

/// Every parameter's word fits its declared width.
pub open spec fn values_ok(schema: EventSchema, entry: RawLogEntry) -> bool {
    forall|j: int|
        0 <= j < schema.inputs@.len() ==> (#[trigger] spec_value_of(
            schema.inputs@[j].kind,
            word_for(schema, entry, j),
        )) is Some
}

/// The first reason decoding the entry's shape fails, if any.
pub open spec fn parse_failure(schema: EventSchema, entry: RawLogEntry) -> Option<DecodeError> {
    let ins = schema.inputs@;
    if entry.topics@.len() != schema.topic_base() + n_indexed(ins) {
        Some(DecodeError::TopicCountMismatch)
    } else if exists|i: int|
        schema.topic_base() <= i < entry.topics@.len() && (#[trigger] entry.topics@[i])@.len()
            != 32 {
        Some(DecodeError::TopicWidthMismatch)
    } else if entry.data@.len() != 32 * (ins.len() - n_indexed(ins)) {
        Some(DecodeError::DataWidthMismatch)
    } else if !values_ok(schema, entry) {
        Some(DecodeError::ValueOutOfRange)
    } else {
        None
    }
}

/// Parameter `j` of the decoded sequence carries the schema's name and
/// the value read from the entry's matching word.
pub open spec fn param_ok(
    params: Seq<NamedValue>,
    schema: EventSchema,
    entry: RawLogEntry,
    j: int,
) -> bool {
    &&& params[j].name@ == schema.inputs@[j].name@
    &&& Some(params[j].value) == spec_value_of(schema.inputs@[j].kind, word_for(schema, entry, j))
}

/// The whole decoded log matches the schema and entry.
pub open spec fn decoded_ok(d: DecodedLog, schema: EventSchema, entry: RawLogEntry) -> bool {
    &&& d.params@.len() == schema.inputs@.len()
    &&& forall|j: int| 0 <= j < schema.inputs@.len() ==> param_ok(d.params@, schema, entry, j)
}

/// Counts the indexed parameters of the schema.
fn count_indexed(inputs: &Vec<EventParam>) -> (r: usize)
    ensures
        r == n_indexed(inputs@),
{
    let mut r: usize = 0;
    let mut i: usize = 0;
    while i < inputs.len()
        invariant
            i <= inputs@.len(),
            r == n_indexed(inputs@.take(i as int)),
            r <= i,
        decreases inputs@.len() - i,
    {
        proof {
            lemma_n_indexed_take_step(inputs@, i as int);
        }
        if inputs[i].indexed {
            r = r + 1;
        }
        i = i + 1;
    }
    proof {
        assert(inputs@.take(inputs@.len() as int) =~= inputs@);
    }
    r
}

/// Decodes a raw log entry against the schema into named values, one
/// per schema parameter and in schema order. Fails exactly when the
/// entry's topics or payload do not match the schema's shape, or a
/// word does not fit its parameter's width.
pub fn parse_log(schema: &EventSchema, entry: &RawLogEntry) -> (r: Result<DecodedLog, DecodeError>)
    requires
        schema.wf(),
    ensures
        r is Ok <==> parse_failure(*schema, *entry) is None,
        r matches Ok(d) ==> decoded_ok(d, *schema, *entry),
        r matches Err(e) ==> parse_failure(*schema, *entry) == Some(e),
{
    let ghost ins = schema.inputs@;
    let n_ind = count_indexed(&schema.inputs);
    let base: usize = if schema.anonymous {
        0
    } else {
        1
    };
    proof {
        lemma_n_indexed_le_len(ins);
    }
    if entry.topics.len() < base || entry.topics.len() - base != n_ind {
        return Err(DecodeError::TopicCountMismatch);
    }
    let mut i: usize = base;
    while i < entry.topics.len()
        invariant
            base <= i <= entry.topics@.len(),
            base == schema.topic_base(),
            ins == schema.inputs@,
            entry.topics@.len() == schema.topic_base() + n_indexed(ins),
            forall|k: int| base <= k < i ==> (#[trigger] entry.topics@[k])@.len() == 32,
        decreases entry.topics@.len() - i,
    {
        if entry.topics[i].len() != 32 {
            proof {
                assert(schema.topic_base() <= i < entry.topics@.len() && (entry.topics@[
                    i as int])@.len() != 32);
            }
            return Err(DecodeError::TopicWidthMismatch);
        }
        i = i + 1;
    }
    let n_plain = schema.inputs.len() - n_ind;
    if entry.data.len() % 32 != 0 || entry.data.len() / 32 != n_plain {
        return Err(DecodeError::DataWidthMismatch);
    }
    assert(entry.data@.len() == 32 * (ins.len() - n_indexed(ins)));
    assert(shape_ok(*schema, *entry));
    let mut out: Vec<NamedValue> = Vec::new();
    let mut ti: usize = base;
    let mut di: usize = 0;
    let mut j: usize = 0;
    while j < schema.inputs.len()
        invariant
            schema.wf(),
            shape_ok(*schema, *entry),
            ins == schema.inputs@,
            base == schema.topic_base(),
            j <= ins.len(),
            ti == base + n_indexed(ins.take(j as int)),
            di == j - n_indexed(ins.take(j as int)),
            out@.len() == j,
            forall|k: int| 0 <= k < j ==> param_ok(out@, *schema, *entry, k),
            forall|k: int|
                0 <= k < j ==> (#[trigger] spec_value_of(
                    ins[k].kind,
                    word_for(*schema, *entry, k),
                )) is Some,
        decreases ins.len() - j,
    {
        proof {
            lemma_n_indexed_take_step(ins, j as int);
            lemma_n_indexed_take_le(ins, j as int + 1);
            lemma_n_indexed_take_ge(ins, j as int + 1);
            lemma_n_indexed_le_len(ins);
        }
        let p = &schema.inputs[j];
        let ghost w = word_for(*schema, *entry, j as int);
        let value: TokenValue;
        if p.indexed {
            assert(ti < entry.topics@.len());
            let topic = &entry.topics[ti];
            assert(topic@ == w);
            assert(topic@.len() == 32);
            value = match p.kind {
                ParamKind::Address => TokenValue::AddressVal(word_address(topic, 0)),
                ParamKind::Uint(bits) => {
                    match word_uint(topic, 0, bits / 8) {
                        Some(v) => TokenValue::UintVal(v),
                        None => {
                            return Err(DecodeError::ValueOutOfRange);
                        },
                    }
                },
                ParamKind::Int(bits) => {
                    match word_int(topic, 0, bits / 8) {
                        Some(v) => TokenValue::IntVal(v),
                        None => {
                            return Err(DecodeError::ValueOutOfRange);
                        },
                    }
                },
            };
            proof {
                assert(topic@.subrange(0, 32) =~= w);
                assert(ti < entry.topics.len());
            }
            ti = ti + 1;
        } else {
            assert(di < ins.len() - n_indexed(ins));
            proof {
                assert(32 * (di as int) + 32 <= 32 * (ins.len() - n_indexed(ins)));
                assert(32 * (di as int) + 32 <= entry.data.len());
            }
            let off = 32 * di;
            assert(off + 32 <= entry.data@.len());
            proof {
                assert(entry.data@.subrange(off as int, off + 32) == w);
            }
            value = match p.kind {
                ParamKind::Address => TokenValue::AddressVal(word_address(&entry.data, off)),
                ParamKind::Uint(bits) => {
                    match word_uint(&entry.data, off, bits / 8) {
                        Some(v) => TokenValue::UintVal(v),
                        None => {
                            return Err(DecodeError::ValueOutOfRange);
                        },
                    }
                },
                ParamKind::Int(bits) => {
                    match word_int(&entry.data, off, bits / 8) {
                        Some(v) => TokenValue::IntVal(v),
                        None => {
                            return Err(DecodeError::ValueOutOfRange);
                        },
                    }
                },
            };
            di = di + 1;
        }
        assert(Some(value) == spec_value_of(ins[j as int].kind, w));
        let name = p.name.clone();
        let ghost prev = out@;
        out.push(NamedValue { name, value });
        proof {
            assert forall|k: int| 0 <= k < j + 1 implies param_ok(
                out@,
                *schema,
                *entry,
                k,
            ) by {
                if k < j {
                    assert(param_ok(prev, *schema, *entry, k));
                    assert(out@[k] == prev[k]);
                } else {
                    assert(out@[k].name@ == ins[k].name@);
                    assert(out@[k].value == value);
                }
            }
        }
        j = j + 1;
    }
    proof {
        assert(ins.take(ins.len() as int) =~= ins);
        assert(values_ok(*schema, *entry));
    }
    Ok(DecodedLog { params: out })
}

} // verus!
