use wayclip::config::{BeMenuConfig, Config, Data, Encryption, General};
use wayclip::history::{Clipboard, LiveClipboard};
use wayclip::item::{ImageItem, Item, ItemData, TextItem};

fn test_config(max_history: usize, dedupe: bool, allow_images: bool) -> Config {
    Config {
        general: General {
            max_history,
            menu: "bemenu".to_owned(),
            allow_images,
        },
        data: Data {
            mime: "text/plain".to_owned(),
            dedupe,
        },
        encryption: Encryption {
            encrypt: true,
            key: None,
        },
        bemenu: BeMenuConfig {
            font: "monospace 12".to_owned(),
            title: "search >".to_owned(),
            lines: 15,
            grab_focus: true,
            monitor: -1,
        },
    }
}

fn text_item(id: &str, text: &str) -> Item {
    Item {
        id: id.to_owned(),
        data: ItemData::Text(TextItem {
            text: text.to_owned(),
            mime: "text/plain".to_owned(),
        }),
    }
}

fn image_item(id: &str, bytes: &[u8]) -> Item {
    Item {
        id: id.to_owned(),
        data: ItemData::Image(ImageItem {
            image: bytes.to_vec(),
            mime: "image/png".to_owned(),
        }),
    }
}

fn texts(cb: &Clipboard) -> Vec<String> {
    cb.dump()
        .into_iter()
        .map(|it| match it.data {
            ItemData::Text(t) => t.text,
            ItemData::Image(_) => "<image>".to_owned(),
        })
        .collect()
}

#[test]
fn commit_idempotent() {
    let mut cb = Clipboard::init(test_config(0, true, false), None);
    let changed = cb.commit(text_item("1", "a"));
    assert!(changed);
    assert_eq!(cb.hist.len(), 1);
    // A content-equal repeat, even under a new offer id, changes nothing.
    let changed = cb.commit(text_item("2", "a"));
    assert!(!changed);
    assert_eq!(cb.hist.len(), 1);
    assert_eq!(cb.hist[0].id, "1");
}

#[test]
fn tail_repeat_guard_is_independent_of_dedupe_flag() {
    let mut cb = Clipboard::init(test_config(0, false, false), None);
    assert!(cb.commit(text_item("1", "a")));
    assert!(!cb.commit(text_item("2", "a")));
    assert_eq!(cb.hist.len(), 1);
}

#[test]
fn dedupe_keeps_newest_occurrence() {
    let mut cb = Clipboard::init(test_config(0, true, false), None);
    assert!(cb.commit(text_item("1", "a")));
    assert!(cb.commit(text_item("2", "b")));
    assert!(cb.commit(text_item("3", "a")));
    assert_eq!(texts(&cb), vec!["b".to_owned(), "a".to_owned()]);
    // The surviving "a" is the most recently committed occurrence.
    assert_eq!(cb.hist[1].id, "3");
}

#[test]
fn dedupe_disabled_keeps_both() {
    let mut cb = Clipboard::init(test_config(0, false, false), None);
    assert!(cb.commit(text_item("1", "a")));
    assert!(cb.commit(text_item("2", "b")));
    assert!(cb.commit(text_item("3", "a")));
    assert_eq!(
        texts(&cb),
        vec!["a".to_owned(), "b".to_owned(), "a".to_owned()]
    );
}

#[test]
fn image_dedupe_by_content_on_commit() {
    let mut cb = Clipboard::init(test_config(0, true, true), None);
    assert!(cb.commit(image_item("1", &[1, 2, 3])));
    assert!(cb.commit(text_item("2", "x")));
    assert!(cb.commit(image_item("3", &[1, 2, 3])));
    assert_eq!(cb.hist.len(), 2);
    assert_eq!(cb.hist[1].id, "3");
}

#[test]
fn text_and_image_never_content_equal() {
    let mut cb = Clipboard::init(test_config(0, true, true), None);
    assert!(cb.commit(text_item("1", "abc")));
    assert!(cb.commit(image_item("2", "abc".as_bytes())));
    assert_eq!(cb.hist.len(), 2);
}

#[test]
fn capacity_evicts_oldest() {
    let mut cb = Clipboard::init(test_config(2, false, false), None);
    assert!(cb.commit(text_item("1", "a")));
    assert!(cb.commit(text_item("2", "b")));
    assert!(cb.commit(text_item("3", "c")));
    assert_eq!(texts(&cb), vec!["b".to_owned(), "c".to_owned()]);
}

#[test]
fn capacity_zero_is_unbounded() {
    let mut cb = Clipboard::init(test_config(0, false, false), None);
    for i in 0..50 {
        assert!(cb.commit(text_item(&i.to_string(), &format!("t{}", i))));
    }
    assert_eq!(cb.hist.len(), 50);
}

#[test]
fn end_to_end_scenario() {
    // Fresh store, {maxHistory: 2, dedupe: true}; commit "a", "b", "a".
    let mut cb = Clipboard::init(test_config(2, true, false), None);
    assert!(cb.commit(text_item("1", "a")));
    assert!(cb.commit(text_item("2", "b")));
    assert!(cb.commit(text_item("3", "a")));
    assert_eq!(texts(&cb), vec!["b".to_owned(), "a".to_owned()]);
}

#[test]
fn recall_promotes_to_tail() {
    // History [A, B, C] oldest to newest; the picker shows [C, B, A].
    let mut cb = Clipboard::init(test_config(0, false, false), None);
    assert!(cb.commit(text_item("1", "A")));
    assert!(cb.commit(text_item("2", "B")));
    assert!(cb.commit(text_item("3", "C")));
    // Display index 1 is B.
    let payload = cb.pasted_idx(1);
    assert_eq!(texts(&cb), vec!["A".to_owned(), "C".to_owned(), "B".to_owned()]);
    match payload {
        Some(ItemData::Text(t)) => assert_eq!(t.text, "B"),
        _ => panic!("expected B's payload back"),
    }
}

#[test]
fn recall_out_of_bounds_is_noop() {
    let mut cb = Clipboard::init(test_config(0, false, false), None);
    assert!(cb.commit(text_item("1", "a")));
    let payload = cb.pasted_idx(5);
    assert!(payload.is_none());
    assert_eq!(texts(&cb), vec!["a".to_owned()]);
}

#[test]
fn clear_empties_history() {
    let mut cb = Clipboard::init(test_config(0, false, false), None);
    assert!(cb.commit(text_item("1", "a")));
    cb.clear();
    assert!(cb.hist.is_empty());
}

#[test]
fn commit_clears_live_offer() {
    let mut cb = Clipboard::init(test_config(0, false, false), None);
    cb.new_offer("offer-1".to_owned());
    assert!(cb.live.is_some());
    assert!(cb.commit(text_item("1", "a")));
    assert!(cb.live.is_none());
}

#[test]
fn rejected_repeat_keeps_live_offer() {
    let mut cb = Clipboard::init(test_config(0, false, false), None);
    assert!(cb.commit(text_item("1", "a")));
    cb.new_offer("offer-2".to_owned());
    assert!(!cb.commit(text_item("2", "a")));
    assert!(cb.live.is_some());
}

#[test]
fn new_offer_supersedes_previous() {
    let mut cb = Clipboard::init(test_config(0, false, false), None);
    cb.new_offer("first".to_owned());
    cb.new_offer("second".to_owned());
    assert_eq!(cb.live.as_ref().unwrap().id, "second");
    assert!(cb.live.as_ref().unwrap().mime_types.is_empty());
}

#[test]
fn live_offer_mimes_first_seen_order_no_repeats() {
    let mut live = LiveClipboard::new("o".to_owned());
    assert!(live.handle_offer("text/plain".to_owned()));
    assert!(!live.handle_offer("image/png".to_owned()));
    assert!(!live.handle_offer("text/plain".to_owned()));
    assert_eq!(live.mime_types, vec!["text/plain".to_owned(), "image/png".to_owned()]);
}

#[test]
fn restore_filters_images_when_not_retained() {
    let existing = vec![
        text_item("1", "a"),
        image_item("2", &[9, 9]),
        text_item("3", "b"),
    ];
    let cb = Clipboard::init(test_config(0, false, false), Some(existing));
    assert_eq!(texts(&cb), vec!["a".to_owned(), "b".to_owned()]);
}

#[test]
fn restore_keeps_images_when_retained() {
    let existing = vec![text_item("1", "a"), image_item("2", &[9, 9])];
    let cb = Clipboard::init(test_config(0, false, true), Some(existing));
    assert_eq!(cb.hist.len(), 2);
}

#[test]
fn restore_dedupe_keeps_first_text_occurrence() {
    let existing = vec![
        text_item("1", "a"),
        text_item("2", "b"),
        text_item("3", "a"),
    ];
    let cb = Clipboard::init(test_config(0, true, false), Some(existing));
    assert_eq!(texts(&cb), vec!["a".to_owned(), "b".to_owned()]);
    assert_eq!(cb.hist[0].id, "1");
}

#[test]
fn restore_dedupes_images_by_id_not_content() {
    let existing = vec![
        image_item("same", &[1]),
        image_item("same", &[2]),
        image_item("other", &[1]),
    ];
    let cb = Clipboard::init(test_config(0, true, true), Some(existing));
    // Same id collapses; same content under another id survives.
    assert_eq!(cb.hist.len(), 2);
    assert_eq!(cb.hist[0].id, "same");
    assert_eq!(cb.hist[1].id, "other");
}

#[test]
fn restore_none_starts_empty() {
    let cb = Clipboard::init(test_config(0, true, false), None);
    assert!(cb.hist.is_empty());
    assert!(cb.live.is_none());
}

#[test]
fn serialized_recalls_lose_nothing() {
    // Two queued recalls, as the toggle bridge serialises them: entries are
    // reordered, never lost or duplicated.
    let mut cb = Clipboard::init(test_config(0, false, false), None);
    assert!(cb.commit(text_item("1", "a")));
    assert!(cb.commit(text_item("2", "b")));
    assert!(cb.commit(text_item("3", "c")));
    cb.pasted_idx(2);
    cb.pasted_idx(1);
    let mut got = texts(&cb);
    got.sort();
    assert_eq!(got, vec!["a".to_owned(), "b".to_owned(), "c".to_owned()]);
    assert_eq!(cb.hist.len(), 3);
}
