use atuin_core::kv::KvStore;
use atuin_core::record::{AdditionalData, DecryptedData};
use atuin_core::store::MemStore;
use atuin_core::sync::{sync_download, sync_upload, HistoryEntry, MemDatabase, MemRelay};
use atuin_core::encryption::PASETO_V4;
use atuin_core::Error;

const KEY: [u8; 32] = [0x42; 32];
const HOST: &str = "host1";

#[test]
fn kv_chain_resolution() {
    let mut store = MemStore::new();
    let kv = KvStore::new();

    kv.set(&mut store, "a", "1", HOST, &KEY).unwrap();
    kv.set(&mut store, "b", "2", HOST, &KEY).unwrap();
    kv.set(&mut store, "a", "3", HOST, &KEY).unwrap();

    let got = kv.get(&store, "a", HOST, &KEY).unwrap().unwrap();
    assert_eq!(got.key, "a");
    assert_eq!(got.value, "3");

    let got_b = kv.get(&store, "b", HOST, &KEY).unwrap().unwrap();
    assert_eq!(got_b.value, "2");

    assert!(kv.get(&store, "c", HOST, &KEY).unwrap().is_none());
}

#[test]
fn kv_get_on_empty_store_is_unset() {
    let store = MemStore::new();
    let kv = KvStore::new();
    assert!(kv.get(&store, "a", HOST, &KEY).unwrap().is_none());
}

#[test]
fn kv_set_links_parents() {
    let mut store = MemStore::new();
    let kv = KvStore::new();

    kv.set(&mut store, "a", "1", HOST, &KEY).unwrap();
    kv.set(&mut store, "b", "2", HOST, &KEY).unwrap();

    assert_eq!(store.records.len(), 2);
    assert!(store.records[0].parent.is_none());
    assert_eq!(
        store.records[1].parent.as_ref().unwrap(),
        &store.records[0].id
    );
    assert_eq!(store.records[0].tag, "kv");
    assert_eq!(store.records[0].version, "v0");
    assert_eq!(store.records[0].host, HOST);
}

#[test]
fn kv_get_rejects_undecodable_records() {
    let mut store = MemStore::new();
    let kv = KvStore::new();

    // A record whose payload is not a serialized pair at all.
    let ad = AdditionalData {
        id: "r1".to_string(),
        version: "v0".to_string(),
        tag: "kv".to_string(),
        host: HOST.to_string(),
    };
    let blob = PASETO_V4::encrypt(&DecryptedData(vec![0xff, 0xff]), &ad, &KEY);
    store.records.push(atuin_core::record::Record {
        id: "r1".to_string(),
        host: HOST.to_string(),
        version: "v0".to_string(),
        tag: "kv".to_string(),
        timestamp: 1,
        parent: None,
        data: blob,
    });

    assert_eq!(
        kv.get(&store, "a", HOST, &KEY).unwrap_err(),
        Error::SerializationFailure
    );
}

#[test]
fn sync_convergence() {
    let mut db = MemDatabase::new();
    for i in 0..5u64 {
        db.items.push(HistoryEntry {
            id: format!("id-{i}"),
            timestamp: i + 1,
            data: vec![i as u8; 4],
        });
    }
    let mut relay = MemRelay::new();

    let (downloaded, total) = sync_download(&mut db, &relay, &KEY).unwrap();
    assert_eq!(downloaded, 0);
    assert_eq!(total, 5);

    sync_upload(&db, &mut relay, &KEY, 1000).unwrap();

    assert_eq!(relay.items.len(), 5);
    for i in 0..5u64 {
        let id = format!("id-{i}");
        assert!(relay.items.iter().any(|e| e.id == id));
    }
}

#[test]
fn sync_upload_is_idempotent() {
    let mut db = MemDatabase::new();
    for i in 0..3u64 {
        db.items.push(HistoryEntry {
            id: format!("id-{i}"),
            timestamp: i + 1,
            data: vec![7],
        });
    }
    let mut relay = MemRelay::new();
    sync_upload(&db, &mut relay, &KEY, 1000).unwrap();
    sync_upload(&db, &mut relay, &KEY, 1000).unwrap();
    assert_eq!(relay.items.len(), 3);
}

#[test]
fn sync_download_round_trips_payloads() {
    // Fill one database, upload everything, then download into a
    // fresh database: the plaintext payloads must survive the trip.
    let mut db = MemDatabase::new();
    for i in 0..4u64 {
        db.items.push(HistoryEntry {
            id: format!("id-{i}"),
            timestamp: i + 1,
            data: vec![i as u8, 10, 20],
        });
    }
    let mut relay = MemRelay::new();
    sync_upload(&db, &mut relay, &KEY, 1000).unwrap();

    let mut fresh = MemDatabase::new();
    let (downloaded, total) = sync_download(&mut fresh, &relay, &KEY).unwrap();
    assert_eq!(downloaded, 4);
    assert_eq!(total, 4);
    for i in 0..4u64 {
        let id = format!("id-{i}");
        let entry = fresh.items.iter().find(|e| e.id == id).unwrap();
        assert_eq!(entry.data, vec![i as u8, 10, 20]);
    }
}

#[test]
fn sync_upload_pages_through_large_histories() {
    // Insertion order is the reverse of timestamp order, and there is
    // more than one batch worth of entries: paging by newest-first
    // batches must still upload every entry.
    let mut db = MemDatabase::new();
    for i in 0..120u64 {
        db.items.push(HistoryEntry {
            id: format!("id-{i}"),
            timestamp: 1000 - i,
            data: vec![1],
        });
    }
    let mut relay = MemRelay::new();
    sync_upload(&db, &mut relay, &KEY, 5000).unwrap();
    assert_eq!(relay.items.len(), 120);
    for i in 0..120u64 {
        let id = format!("id-{i}");
        assert!(relay.items.iter().any(|e| e.id == id));
    }
}

#[test]
fn sync_download_pages_through_large_relays() {
    let mut db = MemDatabase::new();
    for i in 0..120u64 {
        db.items.push(HistoryEntry {
            id: format!("id-{i}"),
            timestamp: i + 1,
            data: vec![2],
        });
    }
    let mut relay = MemRelay::new();
    sync_upload(&db, &mut relay, &KEY, 5000).unwrap();

    let mut fresh = MemDatabase::new();
    let (downloaded, total) = sync_download(&mut fresh, &relay, &KEY).unwrap();
    assert_eq!(downloaded, 120);
    assert_eq!(total, 120);
}
