//! Clipboard history entries and their mathematical models.

use vstd::prelude::*;

verus! {

/// A text entry: the decoded payload and the mime type it was requested under.
#[derive(Clone, Debug, PartialEq)]
pub struct TextItem {
    pub text: String,
    pub mime: String,
}

/// An image entry: the raw payload bytes and the mime type they arrived under.
#[derive(Clone, Debug, PartialEq)]
pub struct ImageItem {
    pub image: Vec<u8>,
    pub mime: String,
}

/// The payload of one history entry.
#[derive(Clone, Debug, PartialEq)]
pub enum ItemData {
    Text(TextItem),
    Image(ImageItem),
}

/// One committed history entry.  `id` is the per-offer identifier assigned by
/// the protocol layer; it is not stable across restarts.
#[derive(Clone, Debug, PartialEq)]
pub struct Item {
    pub id: String,
    pub data: ItemData,
}

/// Model of a text payload: character and byte sequences only.
pub struct TextModel {
    pub text: Seq<char>,
    pub mime: Seq<char>,
}

/// Model of an image payload.
pub struct ImageModel {
    pub image: Seq<u8>,
    pub mime: Seq<char>,
}

/// Model of a payload.
pub enum ItemDataModel {
    Text(TextModel),
    Image(ImageModel),
}

/// Model of a history entry.
pub struct ItemModel {
    pub id: Seq<char>,
    pub data: ItemDataModel,
}

impl View for TextItem {
    type V = TextModel;

    open spec fn view(&self) -> TextModel {
        TextModel { text: self.text@, mime: self.mime@ }
    }
}

impl DeepView for TextItem {
    type V = TextModel;

    open spec fn deep_view(&self) -> TextModel {
        self@
    }
}

impl View for ImageItem {
    type V = ImageModel;

    open spec fn view(&self) -> ImageModel {
        ImageModel { image: self.image@, mime: self.mime@ }
    }
}

impl DeepView for ImageItem {
    type V = ImageModel;

    open spec fn deep_view(&self) -> ImageModel {
        self@
    }
}

impl View for ItemData {
    type V = ItemDataModel;

    open spec fn view(&self) -> ItemDataModel {
        match self {
            ItemData::Text(t) => ItemDataModel::Text(t@),
            ItemData::Image(i) => ItemDataModel::Image(i@),
        }
    }
}

impl DeepView for ItemData {
    type V = ItemDataModel;

    open spec fn deep_view(&self) -> ItemDataModel {
        self@
    }
}

impl View for Item {
    type V = ItemModel;

    open spec fn view(&self) -> ItemModel {
        ItemModel { id: self.id@, data: self.data@ }
    }
}

impl DeepView for Item {
    type V = ItemModel;

    open spec fn deep_view(&self) -> ItemModel {
        self@
    }
}

/// Two payloads hold the same content: equal text for text entries, equal
/// bytes for image entries.  Payloads of different kinds never match.
pub open spec fn content_eq(a: ItemDataModel, b: ItemDataModel) -> bool {
    match (a, b) {
        (ItemDataModel::Text(x), ItemDataModel::Text(y)) => x.text == y.text,
        (ItemDataModel::Image(x), ItemDataModel::Image(y)) => x.image == y.image,
        _ => false,
    }
}

/// Compares two byte vectors for equality of contents.
pub fn bytes_eq(a: &Vec<u8>, b: &Vec<u8>) -> (r: bool)
    ensures
        r == (a@ == b@),
{
    if a.len() != b.len() {
        assert(a@ != b@) by {
            assert(a@.len() != b@.len());
        }
        return false;
    }
    let mut i: usize = 0;
    while i < a.len()
        invariant
            i <= a.len(),
            a@.len() == b@.len(),
            forall|j: int| 0 <= j < i ==> a@[j] == b@[j],
        decreases a.len() - i,
    {
        if a[i] != b[i] {
            return false;
        }
        i += 1;
    }
    proof {
        assert(a@ =~= b@);
    }
    true
}

/// Decides content equality of two entries' payloads.
pub fn item_content_eq(a: &Item, b: &Item) -> (r: bool)
    ensures
        r == content_eq(a@.data, b@.data),
{
    match (&a.data, &b.data) {
        (ItemData::Text(x), ItemData::Text(y)) => x.text == y.text,
        (ItemData::Image(x), ItemData::Image(y)) => bytes_eq(&x.image, &y.image),
        _ => false,
    }
}

/// Copies one entry; the copy has the same model.
pub fn clone_item(it: &Item) -> (r: Item)
    ensures
        r@ == it@,
{
    Item { id: it.id.clone(), data: clone_item_data(&it.data) }
}

/// Copies one payload; the copy has the same model.
pub fn clone_item_data(d: &ItemData) -> (r: ItemData)
    ensures
        r@ == d@,
{
    match d {
        ItemData::Text(t) => ItemData::Text(TextItem { text: t.text.clone(), mime: t.mime.clone() }),
        ItemData::Image(i) => ItemData::Image(
            ImageItem { image: clone_bytes(&i.image), mime: i.mime.clone() },
        ),
    }
}

/// Copies a byte vector.
pub fn clone_bytes(b: &Vec<u8>) -> (r: Vec<u8>)
    ensures
        r@ == b@,
{
    let mut out: Vec<u8> = Vec::new();
    let mut i: usize = 0;
    while i < b.len()
        invariant
            i <= b.len(),
            out@ == b@.subrange(0, i as int),
        decreases b.len() - i,
    {
        out.push(b[i]);
        proof {
            assert(out@ =~= b@.subrange(0, i + 1 as int));
        }
        i += 1;
    }
    proof {
        assert(b@.subrange(0, b@.len() as int) =~= b@);
    }
    out
}

/// Copies a history vector; the copy has the same deep model.
pub fn clone_items(v: &Vec<Item>) -> (r: Vec<Item>)
    ensures
        r.deep_view() == v.deep_view(),
{
    let mut out: Vec<Item> = Vec::new();
    let mut i: usize = 0;
    while i < v.len()
        invariant
            i <= v.len(),
            out@.len() == i,
            forall|j: int| 0 <= j < i ==> out@[j]@ == v@[j]@,
        decreases v.len() - i,
    {
        out.push(clone_item(&v[i]));
        i += 1;
    }
    proof {
        assert(out.deep_view() =~= v.deep_view());
    }
    out
}

} // verus!
