// Tests of the chunk store against the real backing engine: a put is
// durably committed under the raw digest bytes, and re-putting the same
// pair changes nothing.

#[test]
fn put_then_reopen_reads_back() {
    let path = "/tmp/chunkstore_test_reopen.db";
    {
        let mut store = chunkstore::jammstore::Jammstore::new(path).unwrap();
        let chunk = chunkstore::chunk::Chunk::new(b"abc".to_vec());
        store.put(chunk).unwrap();
    }
    let h = chunkstore::hash::Hash::of(b"abc");
    let db = jammdb::DB::open(path).unwrap();
    let tx = db.tx(false).unwrap();
    let bucket = tx.get_bucket("chunks").unwrap();
    let data = bucket.get(&h.sum[..]).unwrap();
    assert!(data.is_kv());
    assert_eq!(data.kv().key(), &h.sum[..]);
    assert_eq!(data.kv().value(), b"abc");
}

#[test]
fn put_twice_is_idempotent() {
    let path = "/tmp/chunkstore_test_idempotent.db";
    {
        let mut store = chunkstore::jammstore::Jammstore::new(path).unwrap();
        let first = chunkstore::chunk::Chunk::new(b"same payload".to_vec());
        let second = chunkstore::chunk::Chunk::new(b"same payload".to_vec());
        assert_eq!(store.put(first), Ok(()));
        assert_eq!(store.put(second), Ok(()));
    }
    let h = chunkstore::hash::Hash::of(b"same payload");
    let db = jammdb::DB::open(path).unwrap();
    let tx = db.tx(false).unwrap();
    let bucket = tx.get_bucket("chunks").unwrap();
    let data = bucket.get(&h.sum[..]).unwrap();
    assert_eq!(data.kv().value(), b"same payload");
    // exactly one entry under that key, with the payload unchanged
    let mut n = 0;
    for d in bucket.cursor() {
        if d.key() == &h.sum[..] {
            n += 1;
        }
    }
    assert_eq!(n, 1);
}

#[test]
fn open_fails_on_an_impossible_path() {
    let r = chunkstore::jammstore::Jammstore::new("/tmp/no_such_dir_for_chunkstore/x/y/z.db");
    assert_eq!(r.err(), Some(chunkstore::jammstore::StoreError::EngineOpenFailure));
}

#[test]
fn chunk_accessors_expose_the_pair() {
    let chunk = chunkstore::chunk::Chunk::new(b"abc".to_vec());
    assert_eq!(chunk.hash().sum, chunkstore::hash::Hash::of(b"abc").sum);
    assert_eq!(chunk.data(), b"abc");

    let h = chunkstore::hash::Hash::of(b"other");
    let rebuilt = chunkstore::chunk::Chunk::with_hash(h, b"payload".to_vec());
    assert_eq!(rebuilt.hash().sum, chunkstore::hash::Hash::of(b"other").sum);
    assert_eq!(rebuilt.data(), b"payload");
}
