use vstd::prelude::*;
use crate::address::Address;

verus! {

/// The shape of one event parameter's value.
#[derive(Clone, Copy, PartialEq, Eq, Structural, Debug)]
pub enum ParamKind {
    /// A 20-byte account address.
    Address,
    /// An unsigned integer of the given bit width.
    Uint(usize),
    /// A signed two's-complement integer of the given bit width.
    Int(usize),
}

impl ParamKind {
    /// A kind the decoder supports: whole bytes, unsigned values up to
    /// 64 bits, signed values up to 56 bits.
    pub open spec fn wf(self) -> bool {
        match self {
            ParamKind::Address => true,
            ParamKind::Uint(w) => w % 8 == 0 && 8 <= w <= 64,
            ParamKind::Int(w) => w % 8 == 0 && 8 <= w <= 56,
        }
    }
}

/// One named parameter of an event schema.
#[derive(Clone, Debug)]
pub struct EventParam {
    pub name: String,
    pub kind: ParamKind,
    pub indexed: bool,
}

/// A fixed named-parameter schema for one event signature.
#[derive(Clone, Debug)]
pub struct EventSchema {
    pub name: String,
    pub inputs: Vec<EventParam>,
    pub anonymous: bool,
}

impl EventSchema {
    pub open spec fn wf(self) -> bool {
        forall|j: int| 0 <= j < self.inputs@.len() ==> (#[trigger] self.inputs@[j].kind).wf()
    }

    /// How many topic slots precede the indexed parameters: one for the
    /// signature topic, none for an anonymous event.
    pub open spec fn topic_base(self) -> int {
        if self.anonymous {
            0
        } else {
            1
        }
    }
}

/// The schema of the pool-creation event: two indexed token addresses,
/// an indexed fee tier, then tick spacing and the pool address in the
/// payload.
pub fn pool_created_schema() -> (s: EventSchema)
    ensures
        s.wf(),
        !s.anonymous,
        s.name@ == "PoolCreated"@,
        s.inputs@.len() == 5,
        s.inputs@[0].name@ == "token0"@,
        s.inputs@[0].kind == ParamKind::Address,
        s.inputs@[0].indexed,
        s.inputs@[1].name@ == "token1"@,
        s.inputs@[1].kind == ParamKind::Address,
        s.inputs@[1].indexed,
        s.inputs@[2].name@ == "fee"@,
        s.inputs@[2].kind == ParamKind::Uint(24),
        s.inputs@[2].indexed,
        s.inputs@[3].name@ == "tickSpacing"@,
        s.inputs@[3].kind == ParamKind::Int(24),
        !s.inputs@[3].indexed,
        s.inputs@[4].name@ == "pool"@,
        s.inputs@[4].kind == ParamKind::Address,
        !s.inputs@[4].indexed,
{
    let mut inputs: Vec<EventParam> = Vec::new();
    inputs.push(EventParam { name: "token0".to_string(), kind: ParamKind::Address, indexed: true });
    inputs.push(EventParam { name: "token1".to_string(), kind: ParamKind::Address, indexed: true });
    inputs.push(EventParam { name: "fee".to_string(), kind: ParamKind::Uint(24), indexed: true });
    inputs.push(
        EventParam { name: "tickSpacing".to_string(), kind: ParamKind::Int(24), indexed: false },
    );
    inputs.push(EventParam { name: "pool".to_string(), kind: ParamKind::Address, indexed: false });
    EventSchema { name: "PoolCreated".to_string(), inputs, anonymous: false }
}

/// A query descriptor for the log source: every entry the given
/// contract emitted from the starting block to the chain head.
#[derive(Clone, Copy, PartialEq, Eq, Structural, Debug)]
pub struct LogFilterSpec {
    pub address: Address,
    pub from_block: u64,
}

impl LogFilterSpec {
    /// Builds the open-ended filter for one contract address.
    pub fn new(address: Address, from_block: u64) -> (r: LogFilterSpec)
        ensures
            r.address == address,
            r.from_block == from_block,
    {
        LogFilterSpec { address, from_block }
    }
}

} // verus!
