//! The registry of source texts that reports point into: a slot map from
//! stable keys to source descriptions.

use vstd::prelude::*;

use slotmap::{DefaultKey, Key, KeyData, SlotMap};

verus! {

/// The slot storage itself, held opaquely: a `slotmap::SlotMap` from its
/// default keys to source descriptions.
#[derive(Debug)]
#[verifier::external_body]
pub struct SourceSlots(SlotMap<DefaultKey, SourceDescription>);

/// What the slot storage holds: each live key, in its packed 64-bit form,
/// mapped to the value stored under it.
pub uninterp spec fn slot_map_contents(m: SourceSlots) -> Map<u64, SourceDescription>;

/// A stable identifier for one registered source: the packed form of the
/// slot-map key that was handed out for it.
#[derive(Debug, Clone, Copy, PartialEq, Eq, Hash, Structural)]
pub struct SourceKey {
    pub raw: u64,
}

/// One registered source: where it came from and its text.
#[derive(Debug, Clone)]
pub struct SourceDescription {
    pub url: SourceUrl,
    pub source_code: String,
}

#[verifier::external_type_specification]
#[verifier::external_body]
pub struct ExPathBuf(std::path::PathBuf);

/// Relies on `PathBuf::clone` handing back an equal path.
pub assume_specification[ <std::path::PathBuf as Clone>::clone ](p: &std::path::PathBuf) -> (r:
    std::path::PathBuf)
    ensures
        r == *p,
;

/// Where a source came from: a filesystem path, a bare name, or nowhere.
#[derive(Debug, Clone)]
pub enum SourceUrl {
    PathBuf(std::path::PathBuf),
    Sparse(String),
    Anonymous,
}

/// The empty registry contents.
pub open spec fn empty_contents() -> Map<u64, SourceDescription> {
    Map::empty()
}

/// Relies on `SlotMap::new`: a freshly created slot map is empty.
#[verifier::external_body]
fn slot_map_new() -> (m: SourceSlots)
    ensures
        slot_map_contents(m) == empty_contents(),
{
    SourceSlots(SlotMap::new())
}

/// Relies on `SlotMap::insert`, which stores the value under a key that is
/// unique among the live keys, and on `Key::data` / `KeyData::as_ffi` for
/// the key's packed form.  `insert` panics on a full map; the slot at
/// index 0 is a sentinel that is never handed out, so at most 2^32 - 2
/// values can be live at once.  A live key's version word is odd, so its
/// packed form always has bit 32 set.
#[verifier::external_body]
fn slot_map_insert(m: &mut SourceSlots, value: SourceDescription) -> (k:
    u64)
    requires
        slot_map_contents(*old(m)).dom().finite(),
        slot_map_contents(*old(m)).dom().len() < 4294967294,
    ensures
        !slot_map_contents(*old(m)).dom().contains(k),
        slot_map_contents(*final(m)) == slot_map_contents(*old(m)).insert(k, value),
        k | 0x1_0000_0000 == k,
{
    let key = m.0.insert(value);
    key.data().as_ffi()
}

/// Relies on `SlotMap::get`, which returns the stored value exactly for a
/// live key, and on `KeyData::from_ffi` / `DefaultKey::from` to unpack the
/// key.  `from_ffi` forces the version word odd by setting bit 32, so the
/// lookup sees the normalized form `key | 0x1_0000_0000`: a packed form
/// whose normalization denotes no live key finds nothing.
#[verifier::external_body]
fn slot_map_get<'s>(m: &'s SourceSlots, key: u64) -> (r: Option<
    &'s SourceDescription,
>)
    ensures
        match r {
            Some(d) => slot_map_contents(*m).dom().contains(key | 0x1_0000_0000) && *d
                == slot_map_contents(*m)[key | 0x1_0000_0000],
            None => !slot_map_contents(*m).dom().contains(key | 0x1_0000_0000),
        },
{
    m.0.get(DefaultKey::from(KeyData::from_ffi(key)))
}

/// The source registry: source keys to source descriptions.
#[derive(Debug)]
pub struct SourceMap(pub SourceSlots);

impl SourceMap {
    /// The registered sources, each under its key's packed form.
    pub closed spec fn contents(&self) -> Map<u64, SourceDescription> {
        slot_map_contents(self.0)
    }

    /// An empty registry.
    pub fn new() -> (m: SourceMap)
        ensures
            m.contents() == Map::<u64, SourceDescription>::empty(),
    {
        SourceMap(slot_map_new())
    }

    /// Register one source and hand back its fresh key.
    pub fn insert(&mut self, description: SourceDescription) -> (k: SourceKey)
        requires
            old(self).contents().dom().finite(),
            old(self).contents().dom().len() < 4294967294,
        ensures
            !old(self).contents().dom().contains(k.raw),
            final(self).contents() == old(self).contents().insert(k.raw, description),
            k.raw | 0x1_0000_0000 == k.raw,
    {
        let raw = slot_map_insert(&mut self.0, description);
        SourceKey { raw }
    }

    /// Look a source up by its key.  The slot storage normalizes a key's
    /// version word to odd, so lookup goes by `raw | 0x1_0000_0000`; keys
    /// handed out by `insert` already carry that bit.
    pub fn get(&self, key: SourceKey) -> (r: Option<&SourceDescription>)
        ensures
            match r {
                Some(d) => self.contents().dom().contains(key.raw | 0x1_0000_0000) && *d
                    == self.contents()[key.raw | 0x1_0000_0000],
                None => !self.contents().dom().contains(key.raw | 0x1_0000_0000),
            },
    {
        slot_map_get(&self.0, key.raw)
    }
}

impl Default for SourceMap {
    /// An empty registry.
    fn default() -> (m: SourceMap)
        ensures
            m.contents() == Map::<u64, SourceDescription>::empty(),
    {
        SourceMap::new()
    }
}

} // verus!
