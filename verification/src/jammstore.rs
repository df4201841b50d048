//! The chunk store: a single-file transactional key-value engine
//! (jammdb) holding one bucket named `chunks`, keyed by the raw 20
//! digest bytes, valued by the raw payload bytes.
//!
//! The engine itself is outside what is verified here.  The store's view
//! is the map of entries that this handle has committed; each `put`
//! extends it, and the contracts pin the key to the chunk's own
//! identifier bytes, which is the content-addressing guarantee.

use crate::chunk::Chunk;
use vstd::prelude::*;

verus! {

#[verifier::external_type_specification]
#[verifier::external_body]
pub struct ExDB(jammdb::DB);

/// Failure of the backing engine, by the phase it struck in.
#[derive(Copy, Clone, Debug, PartialEq, Eq)]
pub enum StoreError {
    /// The backing file could not be created, opened or locked.  (A
    /// file that exists but is not a valid database never reaches this
    /// variant: the engine panics on it; see `Jammstore::new`.)
    EngineOpenFailure,
    /// A write transaction could not begin, write or commit; the
    /// engine's atomicity leaves the persisted state as it was.
    EngineTransactionFailure,
}

/// Relies on jammdb::DB::open: opens the single-file database at
/// `path`, creating it if absent; the outcome depends on the file
/// system, so nothing more is stated of it.  The engine's error value
/// carries no contract here and is dropped.
///
/// Caution: `Err` covers only what the engine itself reports (the file
/// cannot be created, opened or locked).  When a file already exists at
/// `path` but is not a database the engine wrote with its expected page
/// size, the engine does not err: it panics while looking for its meta
/// pages (jammdb's `Page::meta` asserts the page-type byte, and its
/// open path asserts the stored page size and panics when no valid meta
/// page is found).  That abort cannot be excluded by a `requires`,
/// since it depends on what is on disk, and nothing here may probe the
/// file first or catch the unwind.
#[verifier::external_body]
fn db_open(path: &str) -> Result<jammdb::DB, ()> {
    jammdb::DB::open(path).map_err(|_| ())
}

/// Relies on jammdb's DB::tx, Tx::get_or_create_bucket, Bucket::put and
/// Tx::commit: one writable transaction that stores `value` under `key`
/// in the bucket named `bucket` and commits.  On `Ok` the entry is
/// durably written; on `Err` the transaction is dropped unfinished and
/// jammdb rolls its effects back.  The transaction and bucket are fresh
/// and writable here, so on a database the engine itself wrote none of
/// the calls panics; on a crafted file whose meta pages are valid but
/// whose tree pages are not, the engine can still panic while walking
/// them.  The engine's error value carries no contract here and is
/// dropped.
#[verifier::external_body]
fn db_put(db: &jammdb::DB, bucket: &str, key: &[u8], value: &[u8]) -> Result<(), ()> {
    let tx = db.tx(true).map_err(|_| ())?;
    let b = tx.get_or_create_bucket(bucket).map_err(|_| ())?;
    b.put(key, value).map_err(|_| ())?;
    tx.commit().map_err(|_| ())
}

/// A content-addressable chunk store over one open engine handle, bound
/// to one backing file for its lifetime.
pub struct Jammstore {
    db: jammdb::DB,
    entries: Ghost<Map<Seq<u8>, Seq<u8>>>,
}

impl View for Jammstore {
    type V = Map<Seq<u8>, Seq<u8>>;

    /// The entries this handle has committed: digest bytes to payload
    /// bytes.  Entries already in the backing file when it was opened
    /// are not modelled.
    closed spec fn view(&self) -> Map<Seq<u8>, Seq<u8>> {
        self.entries@
    }
}

impl Jammstore {
    /// Opens (or creates) the backing file at `path`.  On success no
    /// entry has been committed through the new handle yet.
    ///
    /// `EngineOpenFailure` covers exactly the failures the engine
    /// reports: a path that cannot be created, opened or locked.  An
    /// existing file that is corrupt or not a database of the engine's
    /// page size does not come back as an error: the engine panics on
    /// it (see `db_open`), so that input class aborts the process
    /// instead of returning `Err`.
    pub fn new(path: &str) -> (r: Result<Jammstore, StoreError>)
        ensures
            r matches Ok(s) ==> s@ == Map::<Seq<u8>, Seq<u8>>::empty(),
            r matches Err(e) ==> e == StoreError::EngineOpenFailure,
    {
        match db_open(path) {
            Ok(db) => Ok(Jammstore { db, entries: Ghost(Map::empty()) }),
            Err(_) => Err(StoreError::EngineOpenFailure),
        }
    }

    /// Commits one chunk: one writable transaction writes the entry
    /// keyed by the chunk's raw 20 digest bytes, valued by its payload,
    /// and commits.  Re-putting an equal pair overwrites it with equal
    /// bytes, so the committed contents do not change.  On failure
    /// nothing is retried and the committed contents are unchanged.
    pub fn put(&mut self, chunk: Chunk) -> (r: Result<(), StoreError>)
        ensures
            r matches Ok(u) ==> final (self)@ == old(self)@.insert(chunk@.hash, chunk@.data),
            r matches Err(e) ==> final (self)@ == old(self)@ && e
                == StoreError::EngineTransactionFailure,
    {
        let key: &[u8] = chunk.hash().sum.as_slice();
        let value: &[u8] = chunk.data();
        match db_put(&self.db, "chunks", key, value) {
            Ok(_) => {
                proof {
                    assert(key@ == chunk@.hash);
                }
                self.entries = Ghost(self.entries@.insert(chunk@.hash, chunk@.data));
                Ok(())
            },
            Err(_) => Err(StoreError::EngineTransactionFailure),
        }
    }
}

/// Committing the same (identifier, payload) entry twice leaves the
/// store's contents exactly as after committing it once.
pub proof fn lemma_put_idempotent(m: Map<Seq<u8>, Seq<u8>>, k: Seq<u8>, v: Seq<u8>)
    ensures
        m.insert(k, v).insert(k, v) == m.insert(k, v),
{
    assert(m.insert(k, v).insert(k, v) =~= m.insert(k, v));
}

} // verus!
