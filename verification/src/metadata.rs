use vstd::prelude::*;
use crate::address::Address;

verus! {

/// The mathematical content of one token's metadata.
pub ghost struct MetaView {
    pub address: Address,
    pub name: Seq<char>,
    pub symbol: Seq<char>,
}

/// Resolved metadata of one token contract: its display name and
/// ticker symbol. Immutable once resolved.
#[derive(Clone, Debug)]
pub struct TokenMetadata {
    pub address: Address,
    pub name: String,
    pub symbol: String,
}

impl View for TokenMetadata {
    type V = MetaView;

    open spec fn view(&self) -> MetaView {
        MetaView { address: self.address, name: self.name@, symbol: self.symbol@ }
    }
}

/// What the two read-only token-contract calls came back with: `None`
/// marks a call that failed or returned an unusable answer, as opposed
/// to one that resolved to an empty string.
#[derive(Clone, Debug)]
pub struct MetadataFetch {
    pub name_result: Option<String>,
    pub symbol_result: Option<String>,
}

/// A failed or unusable lookup degrades to the empty string; it never
/// aborts a resolution.
pub open spec fn field_or_empty(o: Option<String>) -> Seq<char> {
    match o {
        Some(s) => s@,
        None => Seq::<char>::empty(),
    }
}

/// The metadata a fetch outcome resolves to, best effort per field.
pub open spec fn fetched_view(a: Address, f: MetadataFetch) -> MetaView {
    MetaView {
        address: a,
        name: field_or_empty(f.name_result),
        symbol: field_or_empty(f.symbol_result),
    }
}

impl TokenMetadata {
    /// Builds the metadata for one fetch outcome, substituting the
    /// empty string for each field whose call failed.
    pub fn from_fetch(address: Address, fetch: MetadataFetch) -> (m: TokenMetadata)
        ensures
            m@ == fetched_view(address, fetch),
    {
        let name = match fetch.name_result {
            Some(s) => s,
            None => String::new(),
        };
        let symbol = match fetch.symbol_result {
            Some(s) => s,
            None => String::new(),
        };
        TokenMetadata { address, name, symbol }
    }

    /// A field-for-field copy.
    pub fn duplicate(&self) -> (m: TokenMetadata)
        ensures
            m@ == self@,
            m.address == self.address,
    {
        TokenMetadata { address: self.address, name: self.name.clone(), symbol: self.symbol.clone() }
    }
}

/// The mapping the entries stand for, a later entry overriding an
/// earlier one of the same address (which well-formedness rules out).
pub open spec fn map_of(s: Seq<TokenMetadata>) -> Map<Address, MetaView>
    decreases s.len(),
{
    if s.len() == 0 {
        Map::empty()
    } else {
        map_of(s.drop_last()).insert(s.last().address, s.last()@)
    }
}

/// No two entries resolve the same address.
pub open spec fn distinct_addrs(s: Seq<TokenMetadata>) -> bool {
    forall|i: int, j: int| 0 <= i < j < s.len() ==> s[i].address != s[j].address
}

pub proof fn lemma_map_of_key(s: Seq<TokenMetadata>, a: Address)
    ensures
        map_of(s).contains_key(a) <==> exists|i: int| 0 <= i < s.len() && s[i].address == a,
    decreases s.len(),
{
    if s.len() > 0 {
        lemma_map_of_key(s.drop_last(), a);
        if s.last().address == a {
            assert(s[s.len() - 1].address == a);
        } else if map_of(s).contains_key(a) {
            let i = choose|i: int| 0 <= i < s.len() - 1 && s.drop_last()[i].address == a;
            assert(s[i].address == a);
        } else if exists|i: int| 0 <= i < s.len() && s[i].address == a {
            let i = choose|i: int| 0 <= i < s.len() && s[i].address == a;
            assert(s.drop_last()[i].address == a);
        }
    }
}

pub proof fn lemma_map_of_get(s: Seq<TokenMetadata>, a: Address, i: int)
    requires
        distinct_addrs(s),
        0 <= i < s.len(),
        s[i].address == a,
    ensures
        map_of(s).contains_key(a),
        map_of(s)[a] == s[i]@,
    decreases s.len(),
{
    if i == s.len() - 1 {
    } else {
        assert(s[i].address != s[s.len() - 1].address);
        assert(distinct_addrs(s.drop_last())) by {
            assert forall|x: int, y: int|
                0 <= x < y < s.len() - 1 implies s.drop_last()[x].address != s.drop_last()[
                y].address by {
                assert(s[x].address != s[y].address);
            }
        }
        assert(s.drop_last()[i].address == a);
        lemma_map_of_get(s.drop_last(), a, i);
    }
}

/// A memoizing map from token address to resolved metadata: each
/// address is resolved at most once per run, and entries are never
/// evicted.
pub struct TokenMetadataCache {
    entries: Vec<TokenMetadata>,
}

impl View for TokenMetadataCache {
    type V = Map<Address, MetaView>;

    closed spec fn view(&self) -> Map<Address, MetaView> {
        map_of(self.entries@)
    }
}

/// What the cache holds after one resolution: unchanged on a hit, the
/// fetched metadata added on a miss.
pub open spec fn cache_after(m: Map<Address, MetaView>, a: Address, f: MetadataFetch) -> Map<
    Address,
    MetaView,
> {
    if m.contains_key(a) {
        m
    } else {
        m.insert(a, fetched_view(a, f))
    }
}

/// What one resolution returns: the cached value on a hit, the fetched
/// metadata on a miss.
pub open spec fn resolved_of(m: Map<Address, MetaView>, a: Address, f: MetadataFetch) -> MetaView {
    if m.contains_key(a) {
        m[a]
    } else {
        fetched_view(a, f)
    }
}

impl TokenMetadataCache {
    pub closed spec fn wf(self) -> bool {
        distinct_addrs(self.entries@)
    }

    /// An empty cache: nothing resolved yet.
    pub fn new() -> (c: TokenMetadataCache)
        ensures
            c.wf(),
            c@ == Map::<Address, MetaView>::empty(),
    {
        TokenMetadataCache { entries: Vec::new() }
    }

    /// Whether the address is already resolved.
    pub fn contains(&self, a: Address) -> (r: bool)
        requires
            self.wf(),
        ensures
            r == self@.contains_key(a),
    {
        proof {
            lemma_map_of_key(self.entries@, a);
        }
        let mut i: usize = 0;
        while i < self.entries.len()
            invariant
                i <= self.entries@.len(),
                forall|k: int| 0 <= k < i ==> (#[trigger] self.entries@[k]).address != a,
            decreases self.entries@.len() - i,
        {
            if self.entries[i].address == a {
                proof {
                    lemma_map_of_key(self.entries@, a);
                }
                return true;
            }
            i = i + 1;
        }
        proof {
            lemma_map_of_key(self.entries@, a);
        }
        false
    }

    /// The cached metadata for the address, if resolved.
    pub fn get(&self, a: Address) -> (r: Option<&TokenMetadata>)
        requires
            self.wf(),
        ensures
            match r {
                Some(m) => self@.contains_key(a) && m@ == self@[a] && m.address == a,
                None => !self@.contains_key(a),
            },
    {
        let mut i: usize = 0;
        while i < self.entries.len()
            invariant
                self.wf(),
                i <= self.entries@.len(),
                forall|k: int| 0 <= k < i ==> (#[trigger] self.entries@[k]).address != a,
            decreases self.entries@.len() - i,
        {
            if self.entries[i].address == a {
                proof {
                    lemma_map_of_get(self.entries@, a, i as int);
                }
                return Some(&self.entries[i]);
            }
            i = i + 1;
        }
        proof {
            lemma_map_of_key(self.entries@, a);
        }
        None
    }

    /// Resolves one address against a fetch outcome: a hit returns the
    /// cached value and ignores the fetch, so an address is resolved
    /// at most once; a miss stores and returns the fetched metadata,
    /// each failed field degraded to the empty string.
    pub fn resolve(&mut self, a: Address, fetch: MetadataFetch) -> (m: TokenMetadata)
        requires
            old(self).wf(),
        ensures
            final(self).wf(),
            final(self)@ == cache_after(old(self)@, a, fetch),
            m@ == resolved_of(old(self)@, a, fetch),
            final(self)@.contains_key(a),
    {
        let mut i: usize = 0;
        while i < self.entries.len()
            invariant
                self.wf(),
                i <= self.entries@.len(),
                forall|k: int| 0 <= k < i ==> (#[trigger] self.entries@[k]).address != a,
            decreases self.entries@.len() - i,
        {
            if self.entries[i].address == a {
                proof {
                    lemma_map_of_get(self.entries@, a, i as int);
                }
                return self.entries[i].duplicate();
            }
            i = i + 1;
        }
        proof {
            lemma_map_of_key(self.entries@, a);
        }
        let fresh = TokenMetadata::from_fetch(a, fetch);
        let out = fresh.duplicate();
        let ghost prev = self.entries@;
        self.entries.push(fresh);
        proof {
            assert(self.entries@.drop_last() =~= prev);
            assert(forall|k: int| 0 <= k < prev.len() ==> (#[trigger] prev[k]).address != a);
            assert forall|x: int, y: int|
                0 <= x < y < self.entries@.len() implies self.entries@[x].address
                != self.entries@[y].address by {
                if y < self.entries@.len() - 1 {
                    assert(prev[x].address != prev[y].address);
                } else {
                    assert(prev[x].address != a);
                }
            }
        }
        out
    }
}

} // verus!
