//! The in-memory store: three concurrent keyspaces (strings, hashes,
//! sets) shared by reference count across connection tasks.
//!
//! The maps are `dashmap` concurrent containers reached only through the
//! trusted wrappers below.  Because the store is shared and may be
//! written from other tasks between any two calls, no wrapper promises
//! anything about the stored contents; the command layer treats every
//! returned value as arbitrary and is verified for all of them.

use vstd::prelude::*;

verus! {

use crate::resp::frame::RespFrame;

/// The three keyspaces.  Holds `dashmap` collections, which Verus cannot
/// model; the struct is opaque and every access is a trusted wrapper.
#[verifier::external_body]
pub struct BackendInner {
    map: dashmap::DashMap<Vec<u8>, RespFrame>,
    hmap: dashmap::DashMap<Vec<u8>, dashmap::DashMap<Vec<u8>, RespFrame>>,
    set: dashmap::DashMap<Vec<u8>, dashmap::DashSet<RespFrame>>,
}

/// A reference-counted handle to the store; clones share the same maps.
#[verifier::external_body]
pub struct Backend {
    inner: std::sync::Arc<BackendInner>,
}

impl Clone for Backend {
    /// Relies on `Arc::clone`: another handle to the same store.
    #[verifier::external_body]
    fn clone(&self) -> (r: Backend) {
        Backend { inner: self.inner.clone() }
    }
}

impl Backend {
    /// Relies on `dashmap::DashMap::new`: a fresh store with empty
    /// keyspaces.
    #[verifier::external_body]
    pub fn new() -> (r: Backend) {
        Backend {
            inner: std::sync::Arc::new(
                BackendInner {
                    map: dashmap::DashMap::new(),
                    hmap: dashmap::DashMap::new(),
                    set: dashmap::DashMap::new(),
                },
            ),
        }
    }

    /// Relies on `dashmap::DashMap::get`: the value stored under `key`
    /// in the string keyspace, if any.
    #[verifier::external_body]
    pub fn get(&self, key: &[u8]) -> (r: Option<RespFrame>) {
        self.inner.map.get(key).map(|v| v.value().clone())
    }

    /// Relies on `dashmap::DashMap::insert`: stores `value` under `key`
    /// in the string keyspace and hands back the previous value, if any.
    #[verifier::external_body]
    pub fn set(&self, key: &[u8], value: RespFrame) -> (r: Option<RespFrame>) {
        self.inner.map.insert(key.to_vec(), value)
    }

    /// Relies on `dashmap::DashMap::get` on the outer and inner hash
    /// maps: the value of `field` in the hash at `key`, if both exist.
    #[verifier::external_body]
    pub fn hget(&self, key: &[u8], field: &[u8]) -> (r: Option<RespFrame>) {
        self.inner.hmap.get(key).and_then(|m| m.get(field).map(|v| v.value().clone()))
    }

    /// Relies on `dashmap::DashMap::get` and `iter`: a snapshot of the
    /// hash at `key` as field/value pairs, in no particular order, if
    /// the key exists.
    #[verifier::external_body]
    pub fn hget_all(&self, key: &[u8]) -> (r: Option<Vec<(Vec<u8>, RespFrame)>>) {
        self.inner.hmap.get(key).map(
            |m| m.iter().map(|e| (e.key().clone(), e.value().clone())).collect(),
        )
    }

    /// Relies on `dashmap::DashMap::entry` and `insert`: creates the
    /// hash at `key` on first use, stores `value` under `field`, and
    /// hands back the previous field value, if any.
    #[verifier::external_body]
    pub fn hset(&self, key: &[u8], field: &[u8], value: RespFrame) -> (r: Option<RespFrame>) {
        let map = self.inner.hmap.entry(key.to_vec()).or_default();
        map.insert(field.to_vec(), value)
    }

    /// Relies on `dashmap::DashMap::entry` and `dashmap::DashSet::insert`:
    /// creates the set at `key` on first use and unions the members into
    /// it.
    #[verifier::external_body]
    pub fn sadd(&self, key: &[u8], members: Vec<RespFrame>) {
        let set = self.inner.set.entry(key.to_vec()).or_default();
        for m in members {
            set.insert(m);
        }
    }

    /// Relies on `dashmap::DashMap::get` and `dashmap::DashSet::contains`:
    /// membership of `member` in the set at `key`; false if the key is
    /// missing.
    #[verifier::external_body]
    pub fn sismembers(&self, key: &[u8], member: &RespFrame) -> (r: bool) {
        match self.inner.set.get(key) {
            Some(set) => set.contains(member),
            None => false,
        }
    }
}

} // verus!
