use lv2_state::access::{CommitError, RetrieveHandle, StoreHandle};
use lv2_state::backend::{MemoryBackend, StorageBackend, STATE_ERR_UNKNOWN};
use lv2_state::codec::{AtomKind, AtomValue};
use lv2_state::ident::IdentifierCache;

struct Tags {
    int: u32,
    float: u32,
    vector: u32,
}

fn make_tags() -> Tags {
    let mut cache = IdentifierCache::new();
    Tags {
        int: cache.map_uri(b"http://lv2plug.in/ns/ext/atom#Int"),
        float: cache.map_uri(b"http://lv2plug.in/ns/ext/atom#Float"),
        vector: cache.map_uri(b"http://lv2plug.in/ns/ext/atom#Vector"),
    }
}

fn store(store_handle: &mut StoreHandle<MemoryBackend>, tags: &Tags) {
    let p1 = store_handle.draft(1);
    assert!(p1.init(store_handle, tags.int, &AtomValue::Int32(17)));
    let p2 = store_handle.draft(2);
    assert!(p2.init(
        store_handle,
        tags.float,
        &AtomValue::Float32Bits(1.0f32.to_bits())
    ));

    store_handle.commit(1).unwrap().unwrap();

    let vector_writer = store_handle.draft(3);
    assert!(vector_writer.init(
        store_handle,
        tags.vector,
        &AtomValue::VectorInt32 { elem_tag: tags.int, elems: vec![] }
    ));
    assert!(vector_writer.append_int32(store_handle, &[1, 2, 3, 4]));

    store_handle.commit_all().unwrap();

    let p4 = store_handle.draft(4);
    assert!(p4.init(store_handle, tags.int, &AtomValue::Int32(0)));
}

fn retrieve(backend: MemoryBackend, tags: &Tags) {
    let retrieve_handle = RetrieveHandle::new(Some(backend));

    assert_eq!(
        Some(AtomValue::Int32(17)),
        retrieve_handle.retrieve(1, tags.int, AtomKind::Int32)
    );
    match retrieve_handle.retrieve(2, tags.float, AtomKind::Float32) {
        Some(AtomValue::Float32Bits(bits)) => assert_eq!(1.0, f32::from_bits(bits)),
        other => panic!("unexpected float read: {:?}", other),
    }
    assert_eq!(
        Some(AtomValue::VectorInt32 { elem_tag: tags.int, elems: vec![1, 2, 3, 4] }),
        retrieve_handle.retrieve(3, tags.vector, AtomKind::VectorInt32 { elem_tag: tags.int })
    );
    assert!(retrieve_handle
        .retrieve(4, tags.int, AtomKind::Int32)
        .is_none());
}

#[test]
fn test_storage() {
    let tags = make_tags();
    let mut store_handle = StoreHandle::new(Some(MemoryBackend::new()));

    store(&mut store_handle, &tags);

    let backend = store_handle.into_backend().unwrap();
    assert_eq!(3, backend.entry_count());
    for key in backend.keys() {
        let (type_tag, value) = backend.retrieve(key).unwrap();
        match key {
            1 => {
                assert_eq!(tags.int, type_tag);
                assert_eq!(17i32.to_le_bytes().to_vec(), value);
            }
            2 => {
                assert_eq!(tags.float, type_tag);
                assert_eq!(1.0f32.to_bits().to_le_bytes().to_vec(), value);
            }
            3 => {
                assert_eq!(tags.vector, type_tag);
                let mut expected = tags.int.to_le_bytes().to_vec();
                for e in [1i32, 2, 3, 4] {
                    expected.extend_from_slice(&e.to_le_bytes());
                }
                assert_eq!(expected, value);
            }
            _ => panic!("Invalid key!"),
        }
    }

    retrieve(backend, &tags);
}

#[test]
fn commit_consumes_and_queries() {
    let tags = make_tags();
    let mut sh = StoreHandle::new(Some(MemoryBackend::new()));

    // no prior draft: None, and nothing reaches the backend
    assert!(sh.commit(7).is_none());

    let p = sh.draft(7);
    assert!(p.init(&mut sh, tags.int, &AtomValue::Int32(5)));
    assert_eq!(Some(Ok(())), sh.commit(7));
    // the entry was consumed: committing again finds no draft
    assert!(sh.commit(7).is_none());
    assert!(!sh.is_drafted(7));

    let backend = sh.into_backend().unwrap();
    assert_eq!(1, backend.entry_count());
}

#[test]
fn commit_all_clears_the_buffer() {
    let tags = make_tags();
    let mut sh = StoreHandle::new(Some(MemoryBackend::new()));

    let pa = sh.draft(1);
    assert!(pa.init(&mut sh, tags.int, &AtomValue::Int32(1)));
    let pb = sh.draft(2);
    assert!(pb.init(&mut sh, tags.int, &AtomValue::Int32(2)));
    assert_eq!(2, sh.pending_count());

    assert_eq!(Ok(()), sh.commit_all());
    assert_eq!(0, sh.pending_count());

    // a second commit_all on the empty buffer is a no-op success
    assert_eq!(Ok(()), sh.commit_all());
    let backend = sh.into_backend().unwrap();
    assert_eq!(2, backend.entry_count());
}

#[test]
fn discard_keeps_the_backend_untouched() {
    let tags = make_tags();
    let mut sh = StoreHandle::new(Some(MemoryBackend::new()));

    let p = sh.draft(9);
    assert!(p.init(&mut sh, tags.int, &AtomValue::Int32(3)));
    assert!(sh.is_drafted(9));
    sh.discard(9);
    assert!(!sh.is_drafted(9));
    // discarding an absent key is a no-op
    sh.discard(9);

    assert!(sh.commit(9).is_none());
    assert_eq!(Ok(()), sh.commit_all());

    let backend = sh.into_backend().unwrap();
    assert_eq!(0, backend.entry_count());
    assert!(backend.retrieve(9).is_none());
}

#[test]
fn discard_all_drops_every_draft() {
    let tags = make_tags();
    let mut sh = StoreHandle::new(Some(MemoryBackend::new()));
    let pa = sh.draft(1);
    assert!(pa.init(&mut sh, tags.int, &AtomValue::Int32(1)));
    let pb = sh.draft(2);
    assert!(pb.init(&mut sh, tags.int, &AtomValue::Int32(2)));
    sh.discard_all();
    assert_eq!(0, sh.pending_count());
    assert_eq!(Ok(()), sh.commit_all());
    assert_eq!(0, sh.into_backend().unwrap().entry_count());
}

#[test]
fn redraft_replaces_the_pending_value() {
    let tags = make_tags();
    let mut sh = StoreHandle::new(Some(MemoryBackend::new()));
    let p1 = sh.draft(4);
    assert!(p1.init(&mut sh, tags.int, &AtomValue::Int32(17)));
    let p2 = sh.draft(4);
    assert!(p2.init(&mut sh, tags.int, &AtomValue::Int32(42)));
    assert_eq!(1, sh.pending_count());
    assert_eq!(Some(Ok(())), sh.commit(4));

    let rh = RetrieveHandle::new(sh.into_backend());
    assert_eq!(
        Some(AtomValue::Int32(42)),
        rh.retrieve(4, tags.int, AtomKind::Int32)
    );
}

#[test]
fn type_mismatch_reads_as_absent() {
    let tags = make_tags();
    let mut sh = StoreHandle::new(Some(MemoryBackend::new()));
    let p = sh.draft(1);
    assert!(p.init(&mut sh, tags.int, &AtomValue::Int32(17)));
    assert_eq!(Some(Ok(())), sh.commit(1));

    let rh = RetrieveHandle::new(sh.into_backend());
    // stored under the int tag, asked for under the float tag
    assert!(rh.retrieve(1, tags.float, AtomKind::Float32).is_none());
    // right tag, but a shape the payload cannot decode as
    assert!(rh
        .retrieve(1, tags.int, AtomKind::Int64)
        .is_none());
    // right tag and shape still works
    assert_eq!(
        Some(AtomValue::Int32(17)),
        rh.retrieve(1, tags.int, AtomKind::Int32)
    );
}

#[test]
fn missing_backend_fails_commits_and_retrievals() {
    let tags = make_tags();
    let mut sh: StoreHandle<MemoryBackend> = StoreHandle::new(None);
    let p = sh.draft(1);
    assert!(p.init(&mut sh, tags.int, &AtomValue::Int32(17)));
    assert_eq!(
        Some(Err(CommitError::BackendUnavailable)),
        sh.commit(1)
    );

    let p2 = sh.draft(2);
    assert!(p2.init(&mut sh, tags.int, &AtomValue::Int32(18)));
    assert_eq!(Err(CommitError::BackendUnavailable), sh.commit_all());

    let rh: RetrieveHandle<MemoryBackend> = RetrieveHandle::new(None);
    assert!(rh.retrieve(1, tags.int, AtomKind::Int32).is_none());
}

#[test]
fn rejecting_backend_surfaces_its_status() {
    let tags = make_tags();
    let mut sh = StoreHandle::new(Some(MemoryBackend::rejecting()));
    let pa = sh.draft(1);
    assert!(pa.init(&mut sh, tags.int, &AtomValue::Int32(1)));
    let pb = sh.draft(2);
    assert!(pb.init(&mut sh, tags.int, &AtomValue::Int32(2)));

    // commit_all stops at the first error: the failed draft is consumed,
    // the draft not yet attempted stays pending
    assert_eq!(
        Err(CommitError::BackendRejected(STATE_ERR_UNKNOWN)),
        sh.commit_all()
    );
    assert!(!sh.is_drafted(1));
    assert!(sh.is_drafted(2));

    assert_eq!(
        Some(Err(CommitError::BackendRejected(STATE_ERR_UNKNOWN))),
        sh.commit(2)
    );
    assert_eq!(0, sh.into_backend().unwrap().entry_count());
}

#[test]
fn committing_an_empty_draft_is_malformed() {
    let mut sh = StoreHandle::new(Some(MemoryBackend::new()));
    sh.draft(1);
    // never initialized: no header was ever written
    assert_eq!(Some(Err(CommitError::MalformedAtom)), sh.commit(1));
    assert_eq!(0, sh.into_backend().unwrap().entry_count());
}

#[test]
fn writer_is_void_after_discard() {
    let tags = make_tags();
    let mut sh = StoreHandle::new(Some(MemoryBackend::new()));
    let p = sh.draft(1);
    sh.discard(1);
    assert!(!p.init(&mut sh, tags.int, &AtomValue::Int32(17)));
    assert!(!p.append_int32(&mut sh, &[1]));
    assert_eq!(0, sh.pending_count());
}
