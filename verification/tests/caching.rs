use imaginator::cache::{
    cache_path, decode_entry, encode_entry, encode_meta, fingerprint, parse_meta, read_entry,
    save_entry, CacheMetadata,
};
use imaginator::error::FilterError;
use imaginator::filter::{Decimal, FilterArg};
use imaginator::lru::LruCache;

fn b(s: &str) -> Vec<u8> {
    s.as_bytes().to_vec()
}

#[test]
fn cache_path_nests_the_sha1_hex() {
    // sha1("abc") = a9993e364706816aba3e25717850c26c9cd0d89d
    assert_eq!(
        cache_path(b"abc"),
        b("a9/99/3e/364706816aba3e25717850c26c9cd0d89d")
    );
}

#[test]
fn fingerprint_hashes_the_rendered_argument() {
    let arg = FilterArg::Str(b("s3:a.jpg"));
    assert_eq!(fingerprint(&arg), cache_path(b"s3:a.jpg"));
}

#[test]
fn entry_framing_round_trips() {
    let meta = b("{}");
    let payload = vec![0u8, 1, 2, 250, 255];
    let blob = encode_entry(&meta, &payload);
    let (m2, p2) = decode_entry(&blob).unwrap();
    assert_eq!(m2, meta);
    assert_eq!(p2, payload);
    assert!(decode_entry(&blob[0..3]).is_none());
}

#[test]
fn metadata_renders_fixed_json() {
    let m = CacheMetadata {
        content_type: b("image/png"),
        dpi: Some((
            Decimal { mantissa: 3000, scale: 1 },
            Decimal { mantissa: 3000, scale: 1 },
        )),
    };
    assert_eq!(
        encode_meta(&m),
        b("{\"content_type\":\"image/png\",\"dpi\":[300.0,300.0]}")
    );
    let none = CacheMetadata { content_type: b("text/plain"), dpi: None };
    assert_eq!(
        encode_meta(&none),
        b("{\"content_type\":\"text/plain\",\"dpi\":null}")
    );
}

#[test]
fn metadata_round_trips_through_json() {
    let m = CacheMetadata {
        content_type: b("image/jpeg"),
        dpi: Some((
            Decimal { mantissa: 1205, scale: 2 },
            Decimal { mantissa: 3000, scale: 1 },
        )),
    };
    assert_eq!(parse_meta(&encode_meta(&m)), Some(m.clone()));
    let none = CacheMetadata { content_type: b("application/pdf"), dpi: None };
    assert_eq!(parse_meta(&encode_meta(&none)), Some(none));
    assert_eq!(parse_meta(b"{\"content_type\":\"x"), None);
}

#[test]
fn insert_sums_sizes_and_evicts_in_insertion_order() {
    let mut c = LruCache::new(b("/tmp/t"), 10);
    assert_eq!(c.insert_bytes(b("a"), &[0; 4]).unwrap(), Vec::<Vec<u8>>::new());
    assert_eq!(c.insert_bytes(b("b"), &[0; 4]).unwrap(), Vec::<Vec<u8>>::new());
    assert_eq!(c.size(), 8);
    // a third entry exceeds the capacity: the oldest leaves first
    let evicted = c.insert_bytes(b("c"), &[0; 4]).unwrap();
    assert_eq!(evicted, vec![b("a")]);
    assert_eq!(c.size(), 8);
    assert_eq!(c.keys(), vec![b("b"), b("c")]);
    assert_eq!(c.values(), vec![4, 4]);
    assert_eq!(c.len(), 2);
}

#[test]
fn get_refreshes_and_later_eviction_prefers_the_new_oldest() {
    let mut c = LruCache::new(b("/tmp/t"), 10);
    c.insert_bytes(b("a"), &[0; 4]).unwrap();
    c.insert_bytes(b("b"), &[0; 4]).unwrap();
    assert_eq!(c.get(&b("a")).unwrap(), 4);
    assert_eq!(c.keys(), vec![b("b"), b("a")]);
    let evicted = c.insert_bytes(b("c"), &[0; 4]).unwrap();
    assert_eq!(evicted, vec![b("b")]);
    assert_eq!(c.keys(), vec![b("a"), b("c")]);
    assert_eq!(c.get(&b("missing")), Err(FilterError::NotInCache));
}

#[test]
fn oversized_value_fails_and_leaves_the_store_alone() {
    let mut c = LruCache::new(b("/tmp/t"), 10);
    c.insert_bytes(b("a"), &[0; 4]).unwrap();
    let r = c.insert_bytes(b("big"), &[0; 11]);
    assert_eq!(r, Err(FilterError::DataTooBig(11, 10)));
    assert_eq!(c.keys(), vec![b("a")]);
    assert_eq!(c.size(), 4);
}

#[test]
fn overwriting_a_key_reclaims_its_previous_size() {
    let mut c = LruCache::new(b("/tmp/t"), 10);
    c.insert_bytes(b("a"), &[0; 6]).unwrap();
    c.insert_bytes(b("a"), &[0; 2]).unwrap();
    assert_eq!(c.size(), 2);
    assert_eq!(c.keys(), vec![b("a")]);
}

#[test]
fn export_then_import_restores_every_entry() {
    let mut c = LruCache::new(b("/var/cache/thumbs"), 100);
    c.insert_bytes(b("aa/bb"), &[0; 10]).unwrap();
    c.insert_bytes(b("cc/dd"), &[0; 20]).unwrap();
    c.get(&b("aa/bb")).unwrap();
    let bytes = c.export();
    let c2 = LruCache::import_bytes(&bytes, Some(100)).unwrap();
    assert_eq!(c2.size(), c.size());
    assert_eq!(c2.capacity(), 100);
    assert_eq!(c2.root(), c.root());
    assert_eq!(c2.keys(), c.keys());
    assert_eq!(c2.values(), c.values());
    let mut c3 = LruCache::import_bytes(&bytes, None).unwrap();
    assert_eq!(c3.capacity(), 100);
    assert_eq!(c3.get(&b("cc/dd")).unwrap(), 20);
}

#[test]
fn read_entry_restores_what_save_entry_stored() {
    let mut c = LruCache::new(b("/tmp/t"), 1000);
    let meta = CacheMetadata {
        content_type: b("image/png"),
        dpi: Some((
            Decimal { mantissa: 720, scale: 1 },
            Decimal { mantissa: 720, scale: 1 },
        )),
    };
    let payload = vec![9u8, 8, 7];
    let (evicted, blob) = save_entry(&mut c, b("k"), &meta, &payload).unwrap();
    assert!(evicted.is_empty());
    assert_eq!(c.get(&b("k")).unwrap(), blob.len());
    assert!(c.contains(&b("k")));
    assert!(!c.contains(&b("other")));
    let entry = read_entry(&blob).unwrap();
    assert_eq!(entry.metadata, meta);
    assert_eq!(entry.content(), payload);
    assert_eq!(entry.content_type(), b("image/png"));
    assert_eq!(entry.dpi(), meta.dpi);
    assert_eq!(entry.status_code(), 200);
}

#[test]
fn rebuilt_entries_register_their_sizes() {
    let mut c = LruCache::new(b("/tmp/t"), 10);
    assert!(c.record(b("x"), 7));
    assert!(c.record(b("y"), 6));
    // a walk does not evict: the rebuilt index may exceed its bound
    assert_eq!(c.size(), 13);
    assert!(c.record(b("x"), 2));
    assert_eq!(c.size(), 8);
}

#[test]
fn corrupt_sidecar_is_rejected() {
    let mut c = LruCache::new(b("/tmp/t"), 10);
    c.insert_bytes(b("a"), &[0; 4]).unwrap();
    let mut bytes = c.export();
    bytes.pop();
    assert!(LruCache::import_bytes(&bytes, None).is_none());
    assert!(LruCache::import_bytes(&[1, 2, 3], None).is_none());
}
