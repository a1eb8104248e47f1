//! The signature registry: a concurrent map from transaction signature to
//! its last-known forwarding state, safe for insertion from many forwarding
//! tasks at once. The map itself is dashmap's sharded `DashMap`, taken on
//! trust through the contracts below; everything done with it is verified.

use dashmap::DashMap;
use vstd::prelude::*;

verus! {

/// Confidence tier of a transaction's confirmation.
#[derive(Clone, Copy, PartialEq, Eq, Structural, Debug)]
pub enum ConfirmationStatus {
    Processed,
    Confirmed,
    Finalized,
}

/// Last-known forwarding state of one signature: an optional confirmation
/// status and the time the transaction was last forwarded.
#[derive(Clone, Copy, PartialEq, Eq, Debug)]
pub struct TxProps {
    pub status: Option<ConfirmationStatus>,
    pub sent_at: u64,
}

impl TxProps {
    /// A fresh entry for a just-forwarded transaction: no confirmation yet.
    pub fn new(sent_at: u64) -> (r: Self)
        ensures
            r.status is None,
            r.sent_at == sent_at,
    {
        TxProps { status: None, sent_at }
    }
}

#[verifier::external_type_specification]
#[verifier::external_body]
#[verifier::reject_recursive_types(K)]
#[verifier::reject_recursive_types(V)]
#[verifier::reject_recursive_types(S)]
pub struct ExDashMap<K, V, S>(DashMap<K, V, S>);

/// The registry's backing map type.
pub type SignatureMap = DashMap<String, TxProps>;

/// What the registry's map holds: signature (as its character sequence) to
/// forwarding state.
pub uninterp spec fn registry_contents(m: SignatureMap) -> Map<Seq<char>, TxProps>;

/// The contents of a registry that holds nothing.
pub open spec fn empty_contents() -> Map<Seq<char>, TxProps> {
    Map::empty()
}

/// Relies on dashmap's `DashMap::new`: creates an empty map.
#[verifier::external_body]
fn empty_registry() -> (r: SignatureRegistry)
    ensures
        r.contents() == empty_contents(),
{
    SignatureRegistry { map: DashMap::new() }
}

/// Relies on dashmap's `DashMap::insert`: maps the key to the value,
/// replacing any previous mapping of that key.
#[verifier::external_body]
fn dashmap_insert(m: &mut SignatureMap, key: String, value: TxProps)
    ensures
        registry_contents(*final(m)) == registry_contents(*old(m)).insert(key@, value),
{
    m.insert(key, value);
}

/// Relies on dashmap's `DashMap::get`: returns the value mapped to the key,
/// or `None` when the key is absent.
#[verifier::external_body]
fn dashmap_get(m: &SignatureMap, key: &str) -> (r: Option<TxProps>)
    ensures
        r == if registry_contents(*m).dom().contains(key@) {
            Some(registry_contents(*m)[key@])
        } else {
            None::<TxProps>
        },
{
    match m.get(key) {
        Some(entry) => Some(*entry.value()),
        None => None,
    }
}

/// Registry of forwarded transactions, keyed by signature; the last writer
/// for a signature wins.
pub struct SignatureRegistry {
    map: SignatureMap,
}

impl SignatureRegistry {
    /// The registry's contents as a mathematical map.
    pub closed spec fn contents(&self) -> Map<Seq<char>, TxProps> {
        registry_contents(self.map)
    }

    pub fn new() -> (r: Self)
        ensures
            r.contents() == Map::<Seq<char>, TxProps>::empty(),
    {
        empty_registry()
    }

    /// Creates or overwrites the entry for `signature`.
    pub fn insert(&mut self, signature: String, props: TxProps)
        ensures
            final(self).contents() == old(self).contents().insert(signature@, props),
    {
        dashmap_insert(&mut self.map, signature, props);
    }

    /// The forwarding state recorded for `signature`, if any.
    pub fn get(&self, signature: &str) -> (r: Option<TxProps>)
        ensures
            r == if self.contents().dom().contains(signature@) {
                Some(self.contents()[signature@])
            } else {
                None::<TxProps>
            },
    {
        dashmap_get(&self.map, signature)
    }

    /// Whether `signature` has ever been recorded as forwarded.
    pub fn contains(&self, signature: &str) -> (r: bool)
        ensures
            r == self.contents().dom().contains(signature@),
    {
        self.get(signature).is_some()
    }
}

} // verus!
