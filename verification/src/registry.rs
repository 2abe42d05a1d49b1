//! The scan registry: an injectable store of scan results keyed by scan
//! identifier.  The shell guards a registry with its own lock; the
//! registry itself is plain state, so several independent stores can
//! exist side by side.

use vstd::prelude::*;

use crate::scanner::{ScanResult, ScanResultView};

verus! {

/// One stored scan.
#[derive(Debug)]
pub struct ScanEntry {
    pub id: String,
    pub result: ScanResult,
}

/// The store of scan results, keyed by scan identifier.
#[derive(Debug)]
pub struct ScanState {
    pub scans: Vec<ScanEntry>,
}

/// Why a registry request failed.
#[derive(Clone, Copy, Debug, PartialEq, Eq, Structural)]
pub enum RegistryError {
    /// No scan carries the requested identifier.
    NotFound,
}

impl RegistryError {
    /// The human-readable message of this error.
    pub fn message(&self) -> (r: String)
        ensures
            r@ == "Scan ID not found"@,
    {
        "Scan ID not found".to_owned()
    }
}

/// Index of the first entry with the given identifier at or after `i`.
pub open spec fn first_entry_named(es: Seq<ScanEntry>, id: Seq<char>, i: int) -> Option<int>
    decreases es.len() - i when 0 <= i
{
    if i >= es.len() {
        None
    } else if es[i].id@ == id {
        Some(i)
    } else {
        first_entry_named(es, id, i + 1)
    }
}

impl ScanState {
    /// The identifiers and results this store holds, in insertion
    /// order.
    pub open spec fn entries(&self) -> Seq<(Seq<char>, ScanResultView)> {
        self.scans@.map_values(|e: ScanEntry| (e.id@, e.result@))
    }

    /// The stored result of the given identifier, if any: the first
    /// entry carrying it.
    pub open spec fn spec_get(&self, id: Seq<char>) -> Option<ScanResultView> {
        match first_entry_named(self.scans@, id, 0) {
            Some(i) => Some(self.scans@[i].result@),
            None => None,
        }
    }

    /// An empty store.
    pub fn new() -> (r: ScanState)
        ensures
            r.entries() == Seq::<(Seq<char>, ScanResultView)>::empty(),
    {
        let r = ScanState { scans: Vec::new() };
        proof {
            assert(r.entries() =~= Seq::<(Seq<char>, ScanResultView)>::empty());
        }
        r
    }

    /// Finds the index of the entry with the given identifier.
    fn find_index(&self, id: &str) -> (r: Option<usize>)
        ensures
            match r {
                Some(i) => first_entry_named(self.scans@, id@, 0) == Some(i as int) && i
                    < self.scans@.len(),
                None => first_entry_named(self.scans@, id@, 0) is None,
            },
    {
        let ghost es = self.scans@;
        let mut i: usize = 0;
        while i < self.scans.len()
            invariant
                es == self.scans@,
                i <= es.len(),
                first_entry_named(es, id@, 0) == first_entry_named(es, id@, i as int),
            decreases es.len() - i,
        {
            if crate::strutil::str_eq(self.scans[i].id.as_str(), id) {
                proof {
                    assert(first_entry_named(es, id@, i as int) == Some(i as int));
                }
                return Some(i);
            }
            i += 1;
        }
        None
    }

    /// Stores a finished scan under its identifier, replacing any
    /// earlier result stored under the same identifier.
    pub fn insert(&mut self, id: String, result: ScanResult)
        ensures
            match first_entry_named(old(self).scans@, id@, 0) {
                Some(i) => final(self).entries() == old(self).entries().update(
                    i,
                    (id@, result@),
                ),
                None => final(self).entries() == old(self).entries().push((id@, result@)),
            },
    {
        proof {
            broadcast use Seq::lemma_push_map_commute;

        }
        let ghost idv = id@;
        let ghost rv = result@;
        match self.find_index(id.as_str()) {
            Some(i) => {
                self.scans.set(i, ScanEntry { id, result });
                proof {
                    assert(final(self).entries() =~= old(self).entries().update(
                        i as int,
                        (idv, rv),
                    ));
                }
            },
            None => {
                self.scans.push(ScanEntry { id, result });
                proof {
                    assert(final(self).entries() =~= old(self).entries().push((idv, rv)));
                }
            },
        }
    }

    /// The stored result of the given identifier, or a not-found
    /// error.
    pub fn get(&self, id: &str) -> (r: Result<&ScanResult, RegistryError>)
        ensures
            match r {
                Ok(res) => self.spec_get(id@) == Some(res@),
                Err(e) => e == RegistryError::NotFound && self.spec_get(id@) is None,
            },
    {
        match self.find_index(id) {
            Some(i) => Ok(&self.scans[i].result),
            None => Err(RegistryError::NotFound),
        }
    }

    /// Marks the stored scan as ended; advisory only, the walk itself
    /// is not interrupted.  Fails, with the registry unchanged, when no
    /// scan carries the identifier or the stored scan already has an
    /// end stamp.
    pub fn cancel(&mut self, id: &str, now: &str) -> (r: Result<(), RegistryError>)
        ensures
            match first_entry_named(old(self).scans@, id@, 0) {
                Some(i) => {
                    if old(self).entries()[i].1.end_time is Some {
                        r == Err::<(), RegistryError>(RegistryError::NotFound) && *final(self)
                            == *old(self)
                    } else {
                        r == Ok::<(), RegistryError>(()) && final(self).entries() == old(
                            self,
                        ).entries().update(
                            i,
                            (
                                old(self).entries()[i].0,
                                ScanResultView {
                                    end_time: Some(now@),
                                    ..old(self).entries()[i].1
                                },
                            ),
                        )
                    }
                },
                None => r == Err::<(), RegistryError>(RegistryError::NotFound) && *final(self)
                    == *old(self),
            },
    {
        proof {
            broadcast use Seq::lemma_push_map_commute;

        }
        let i = match self.find_index(id) {
            Some(i) => i,
            None => {
                return Err(RegistryError::NotFound);
            },
        };
        if self.scans[i].result.end_time.is_some() {
            return Err(RegistryError::NotFound);
        }
        let entry = self.scans.remove(i);
        let mut result = entry.result;
        result.end_time = Some(now.to_owned());
        self.scans.insert(i, ScanEntry { id: entry.id, result });
        proof {
            assert(final(self).entries() =~= old(self).entries().update(
                i as int,
                (
                    old(self).entries()[i as int].0,
                    ScanResultView {
                        end_time: Some(now@),
                        ..old(self).entries()[i as int].1
                    },
                ),
            ));
        }
        Ok(())
    }
}

} // verus!
