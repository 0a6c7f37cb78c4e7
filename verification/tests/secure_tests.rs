use wayclip::codec::encode_history;
use wayclip::item::{ImageItem, Item, ItemData, TextItem};
use wayclip::secure::{persist_history, resolve_key, restore_history};

fn key() -> Vec<u8> {
    b"a user passphrase".to_vec()
}

fn seed() -> Vec<u8> {
    vec![7u8; 32]
}

fn sample() -> Vec<Item> {
    vec![
        Item {
            id: "offer-1".to_owned(),
            data: ItemData::Text(TextItem {
                text: "first".to_owned(),
                mime: "text/plain".to_owned(),
            }),
        },
        Item {
            id: "offer-2".to_owned(),
            data: ItemData::Image(ImageItem {
                image: vec![0x89, 0x50, 0x4E, 0x47],
                mime: "image/png".to_owned(),
            }),
        },
    ]
}

#[test]
fn persist_restore_round_trip() {
    let h = sample();
    let blob = persist_history(&h, &key(), &seed()).expect("sealing must succeed");
    let back = restore_history(&blob, &key(), &seed()).expect("own container must restore");
    assert_eq!(back, h);
}

#[test]
fn persist_restore_round_trip_empty() {
    let h: Vec<Item> = vec![];
    let blob = persist_history(&h, &key(), &seed()).expect("sealing must succeed");
    let back = restore_history(&blob, &key(), &seed()).expect("own container must restore");
    assert!(back.is_empty());
}

#[test]
fn container_is_not_the_plain_encoding() {
    let h = sample();
    let blob = persist_history(&h, &key(), &seed()).expect("sealing must succeed");
    assert_ne!(blob, encode_history(&h));
}

#[test]
fn wrong_key_is_rejected() {
    let h = sample();
    let blob = persist_history(&h, &key(), &seed()).expect("sealing must succeed");
    assert!(restore_history(&blob, &b"another key".to_vec(), &seed()).is_none());
}

#[test]
fn wrong_seed_is_rejected() {
    let h = sample();
    let blob = persist_history(&h, &key(), &seed()).expect("sealing must succeed");
    assert!(restore_history(&blob, &key(), &vec![8u8; 32]).is_none());
}

#[test]
fn unsealed_bytes_are_rejected() {
    // The plain encoding is not a sealed container; restoring it must fail
    // rather than hand the bytes through.
    let h = sample();
    let plain = encode_history(&h);
    assert!(restore_history(&plain, &key(), &seed()).is_none());
}

#[test]
fn corrupt_container_is_rejected() {
    let h = sample();
    let mut blob = persist_history(&h, &key(), &seed()).expect("sealing must succeed");
    let last = blob.len() - 1;
    blob[last] ^= 0xFF;
    assert!(restore_history(&blob, &key(), &seed()).is_none());
}

#[test]
fn resolve_key_prefers_configured_key() {
    assert_eq!(
        resolve_key(Some("secret".to_owned()), "machine".to_owned()),
        "secret"
    );
}

#[test]
fn resolve_key_falls_back_on_empty_or_absent() {
    assert_eq!(resolve_key(Some("".to_owned()), "machine".to_owned()), "machine");
    assert_eq!(resolve_key(None, "machine".to_owned()), "machine");
}

#[test]
fn short_blob_is_rejected() {
    assert!(restore_history(&vec![1, 2, 3], &key(), &seed()).is_none());
    assert!(restore_history(&vec![0u8; 35], &key(), &seed()).is_none());
}

#[test]
fn oversized_declared_length_is_rejected() {
    // A container whose header declares a payload far beyond the container
    // itself must surface as an error, not a panic.
    let mut blob = vec![0u8; 40];
    for i in 12..20 {
        blob[i] = 0xFF;
    }
    assert!(restore_history(&blob, &key(), &seed()).is_none());
}

#[test]
fn slightly_oversized_declared_length_is_rejected() {
    // 40 bytes leave room for a 4-byte payload; the header declares 5.
    let mut blob = vec![0u8; 40];
    blob[19] = 5;
    assert!(restore_history(&blob, &key(), &seed()).is_none());
}
