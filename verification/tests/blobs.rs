use bufkit_data::{BlobStore, BufkitDataErr};

#[test]
fn test_store_and_load_a_blob() {
    let mut store = BlobStore::new();
    assert!(store.names().is_empty());
    assert!(!store.contains("a.gz"));

    let source = b"The quick brown fox jumps over the lazy dog, over and over and over again.";
    store.store(source, "a.gz").unwrap();

    assert!(store.contains("a.gz"));
    assert_eq!(store.names(), vec!["a.gz".to_owned()]);
    // What the store keeps is compressed: a gzip stream, not the source.
    let packed = store.get("a.gz").unwrap();
    assert_eq!(&packed[..2], [0x1f, 0x8b]);
    assert_ne!(packed, source);
    assert_eq!(store.load("a.gz").unwrap(), source);
}

#[test]
fn test_store_replaces_the_blob_of_the_same_name() {
    let mut store = BlobStore::new();
    store.store(b"first", "a.gz").unwrap();
    store.store(b"other", "b.gz").unwrap();
    store.store(b"second", "a.gz").unwrap();

    assert_eq!(store.names(), vec!["b.gz".to_owned(), "a.gz".to_owned()]);
    assert_eq!(store.load("a.gz").unwrap(), b"second");
    assert_eq!(store.load("b.gz").unwrap(), b"other");
}

#[test]
fn test_put_takes_the_bytes_as_they_are() {
    let mut store = BlobStore::new();
    store.store(b"payload", "a.gz").unwrap();
    let packed = store.get("a.gz").unwrap().to_vec();

    let mut copy = BlobStore::new();
    copy.put("b.gz".to_owned(), packed.clone());
    assert_eq!(copy.get("b.gz"), Some(&packed[..]));
    assert_eq!(copy.load("b.gz").unwrap(), b"payload");

    copy.put("c.gz".to_owned(), vec![1, 2, 3]);
    assert_eq!(copy.get("c.gz"), Some(&[1u8, 2, 3][..]));
    assert!(matches!(copy.load("c.gz"), Err(BufkitDataErr::Io(_))));
    // A stream that was cut short is no blob either.
    copy.put("d.gz".to_owned(), packed[..packed.len() - 1].to_vec());
    assert!(matches!(copy.load("d.gz"), Err(BufkitDataErr::Io(_))));
}

#[test]
fn test_delete_a_blob() {
    let mut store = BlobStore::new();
    store.store(b"first", "a.gz").unwrap();
    store.store(b"second", "b.gz").unwrap();

    assert!(store.delete("a.gz"));
    assert!(!store.delete("a.gz"));
    assert!(!store.contains("a.gz"));
    assert_eq!(store.get("a.gz"), None);
    match store.load("a.gz") {
        Err(BufkitDataErr::MissingBlob(name)) => assert_eq!(name, "a.gz"),
        other => panic!("unexpected: {:?}", other),
    }
    assert_eq!(store.names(), vec!["b.gz".to_owned()]);
    assert_eq!(store.load("b.gz").unwrap(), b"second");
}
