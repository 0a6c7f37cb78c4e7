//! The byte-level persistence codec for the history.
//!
//! A history is stored as a count followed by each entry; strings carry a
//! byte length and UTF-8 bytes, blobs a byte length and raw bytes, and every
//! length is eight bytes little-endian.  Encoding and parsing are verified
//! against the same specification, and parsing an encoding is proved to give
//! back exactly the encoded history.

use vstd::bytes::{
    lemma_auto_spec_u64_to_from_le_bytes, spec_u64_from_le_bytes, spec_u64_to_le_bytes,
    u64_from_le_bytes, u64_to_le_bytes,
};
use vstd::prelude::*;
use vstd::slice::{slice_subrange, slice_to_vec};
use vstd::utf8::{
    decode_utf8, encode_utf8, encode_utf8_decode_utf8, encode_utf8_valid_utf8, valid_utf8,
};

use crate::item::{ImageItem, ImageModel, Item, ItemData, ItemDataModel, ItemModel, TextItem, TextModel};

verus! {

/// Tag byte introducing a text payload.
pub const TAG_TEXT: u8 = 0;

/// Tag byte introducing an image payload.
pub const TAG_IMAGE: u8 = 1;

/// Encoding of one length or count.
pub open spec fn enc_u64(x: u64) -> Seq<u8> {
    spec_u64_to_le_bytes(x)
}

/// Encoding of a length-prefixed blob.
pub open spec fn enc_chunk(d: Seq<u8>) -> Seq<u8> {
    enc_u64(d.len() as u64) + d
}

/// Encoding of a length-prefixed UTF-8 string.
pub open spec fn enc_str(s: Seq<char>) -> Seq<u8> {
    enc_chunk(encode_utf8(s))
}

/// Encoding of one history entry.
pub open spec fn enc_item(m: ItemModel) -> Seq<u8> {
    match m.data {
        ItemDataModel::Text(t) => enc_str(m.id) + seq![TAG_TEXT] + enc_str(t.text) + enc_str(
            t.mime,
        ),
        ItemDataModel::Image(im) => enc_str(m.id) + seq![TAG_IMAGE] + enc_chunk(im.image)
            + enc_str(im.mime),
    }
}

/// Encoding of a run of history entries.
pub open spec fn enc_items(h: Seq<ItemModel>) -> Seq<u8>
    decreases h.len(),
{
    if h.len() == 0 {
        Seq::empty()
    } else {
        enc_item(h[0]) + enc_items(h.drop_first())
    }
}

/// Encoding of a whole history: the count, then the entries.
pub open spec fn spec_encode_history(h: Seq<ItemModel>) -> Seq<u8> {
    enc_u64(h.len() as u64) + enc_items(h)
}

/// The string's UTF-8 form fits the format's length field.
pub open spec fn str_fits(s: Seq<char>) -> bool {
    encode_utf8(s).len() <= u64::MAX
}

/// Every length in the entry fits the format's length fields.
pub open spec fn wf_item(m: ItemModel) -> bool {
    str_fits(m.id) && match m.data {
        ItemDataModel::Text(t) => str_fits(t.text) && str_fits(t.mime),
        ItemDataModel::Image(im) => im.image.len() <= u64::MAX && str_fits(im.mime),
    }
}

/// Every length in the history fits the format's length fields.  Histories
/// held in memory always satisfy this; it bounds the spec-level statements.
pub open spec fn wf_history(h: Seq<ItemModel>) -> bool {
    h.len() <= u64::MAX && forall|i: int| 0 <= i < h.len() ==> wf_item(#[trigger] h[i])
}

/// Parses one length or count at `i`.
pub open spec fn dec_u64(b: Seq<u8>, i: int) -> Option<(u64, int)> {
    if 0 <= i && i + 8 <= b.len() {
        Some((spec_u64_from_le_bytes(b.subrange(i, i + 8)), i + 8))
    } else {
        None
    }
}

/// Parses one length-prefixed blob at `i`.
pub open spec fn dec_chunk(b: Seq<u8>, i: int) -> Option<(Seq<u8>, int)> {
    match dec_u64(b, i) {
        Some((n, j)) => if j + n <= b.len() {
            Some((b.subrange(j, j + n), j + n))
        } else {
            None
        },
        None => None,
    }
}

/// Parses one length-prefixed UTF-8 string at `i`.
pub open spec fn dec_str(b: Seq<u8>, i: int) -> Option<(Seq<char>, int)> {
    match dec_chunk(b, i) {
        Some((d, j)) => if valid_utf8(d) {
            Some((decode_utf8(d), j))
        } else {
            None
        },
        None => None,
    }
}

/// Parses one history entry at `i`.
pub open spec fn dec_item(b: Seq<u8>, i: int) -> Option<(ItemModel, int)> {
    match dec_str(b, i) {
        Some((id, j)) => if j < b.len() && b[j] == TAG_TEXT {
            match dec_str(b, j + 1) {
                Some((text, k)) => match dec_str(b, k) {
                    Some((mime, l)) => Some(
                        (ItemModel { id, data: ItemDataModel::Text(TextModel { text, mime }) }, l),
                    ),
                    None => None,
                },
                None => None,
            }
        } else if j < b.len() && b[j] == TAG_IMAGE {
            match dec_chunk(b, j + 1) {
                Some((image, k)) => match dec_str(b, k) {
                    Some((mime, l)) => Some(
                        (
                            ItemModel { id, data: ItemDataModel::Image(ImageModel { image, mime }) },
                            l,
                        ),
                    ),
                    None => None,
                },
                None => None,
            }
        } else {
            None
        },
        None => None,
    }
}

/// Parses a run of `n` history entries at `i`.
pub open spec fn dec_items(b: Seq<u8>, i: int, n: nat) -> Option<(Seq<ItemModel>, int)>
    decreases n,
{
    if n == 0 {
        Some((Seq::empty(), i))
    } else {
        match dec_item(b, i) {
            Some((m, j)) => match dec_items(b, j, (n - 1) as nat) {
                Some((rest, k)) => Some((seq![m] + rest, k)),
                None => None,
            },
            None => None,
        }
    }
}

/// Parses a whole history blob; every byte must be consumed.
pub open spec fn spec_parse_history(b: Seq<u8>) -> Option<Seq<ItemModel>> {
    match dec_u64(b, 0) {
        Some((n, i)) => match dec_items(b, i, n as nat) {
            Some((items, j)) => if j == b.len() {
                Some(items)
            } else {
                None
            },
            None => None,
        },
        None => None,
    }
}

/// Relies on String::from_utf8: `Ok` exactly on valid UTF-8 input, returning
/// the string holding the decoded characters.
#[verifier::external_body]
fn string_from_utf8(bytes: Vec<u8>) -> (r: Option<String>)
    ensures
        (r is Some) == valid_utf8(bytes@),
        r matches Some(s) ==> s@ == decode_utf8(bytes@) && encode_utf8(s@) == bytes@,
{
    match String::from_utf8(bytes) {
        Ok(s) => Some(s),
        Err(_) => None,
    }
}

fn push_u64(out: &mut Vec<u8>, x: u64)
    ensures
        final(out)@ == old(out)@ + enc_u64(x),
{
    let mut b = u64_to_le_bytes(x);
    out.append(&mut b);
}

fn push_chunk(out: &mut Vec<u8>, d: &Vec<u8>)
    ensures
        final(out)@ == old(out)@ + enc_chunk(d@),
        d@.len() <= u64::MAX,
{
    let ghost start = out@;
    push_u64(out, d.len() as u64);
    let ghost mid = out@;
    let mut i: usize = 0;
    while i < d.len()
        invariant
            i <= d.len(),
            out@ == mid + d@.subrange(0, i as int),
        decreases d.len() - i,
    {
        out.push(d[i]);
        proof {
            assert(out@ =~= mid + d@.subrange(0, i + 1));
        }
        i += 1;
    }
    proof {
        assert(d@.subrange(0, d@.len() as int) =~= d@);
        assert(out@ =~= start + enc_chunk(d@));
    }
}

fn push_string(out: &mut Vec<u8>, s: &String)
    ensures
        final(out)@ == old(out)@ + enc_str(s@),
        str_fits(s@),
{
    let bytes = s.as_str().as_bytes_vec();
    push_chunk(out, &bytes);
}

fn push_item(out: &mut Vec<u8>, it: &Item)
    ensures
        final(out)@ == old(out)@ + enc_item(it@),
        wf_item(it@),
{
    let ghost start = out@;
    push_string(out, &it.id);
    match &it.data {
        ItemData::Text(t) => {
            let ghost before_tag = out@;
            out.push(TAG_TEXT);
            proof {
                assert(out@ =~= before_tag + seq![TAG_TEXT]);
            }
            push_string(out, &t.text);
            push_string(out, &t.mime);
            proof {
                assert(out@ =~= start + enc_item(it@));
            }
        },
        ItemData::Image(im) => {
            let ghost before_tag = out@;
            out.push(TAG_IMAGE);
            proof {
                assert(out@ =~= before_tag + seq![TAG_IMAGE]);
            }
            push_chunk(out, &im.image);
            push_string(out, &im.mime);
            proof {
                assert(out@ =~= start + enc_item(it@));
            }
        },
    }
}

proof fn lemma_enc_items_push(s: Seq<ItemModel>, m: ItemModel)
    ensures
        enc_items(s.push(m)) == enc_items(s) + enc_item(m),
    decreases s.len(),
{
    if s.len() == 0 {
        assert(s.push(m).drop_first() =~= Seq::<ItemModel>::empty());
        assert(enc_items(Seq::<ItemModel>::empty()) == Seq::<u8>::empty());
        assert(s.push(m)[0] == m);
        assert(enc_items(s.push(m)) =~= enc_item(m) + Seq::<u8>::empty());
        assert(enc_item(m) + Seq::<u8>::empty() =~= enc_item(m));
        assert(enc_items(s) + enc_item(m) =~= enc_item(m));
    } else {
        assert(s.push(m).drop_first() =~= s.drop_first().push(m));
        lemma_enc_items_push(s.drop_first(), m);
        assert(enc_item(s[0]) + (enc_items(s.drop_first()) + enc_item(m)) =~= (enc_item(s[0])
            + enc_items(s.drop_first())) + enc_item(m));
    }
}

/// Encodes a history into the persistence format.
pub fn encode_history(hist: &Vec<Item>) -> (r: Vec<u8>)
    ensures
        r@ == spec_encode_history(hist.deep_view()),
        wf_history(hist.deep_view()),
{
    let ghost h = hist.deep_view();
    let mut out: Vec<u8> = Vec::new();
    push_u64(&mut out, hist.len() as u64);
    let ghost head = out@;
    proof {
        assert(head =~= enc_u64(h.len() as u64));
        assert(h.subrange(0, 0) =~= Seq::<ItemModel>::empty());
    }
    let mut i: usize = 0;
    while i < hist.len()
        invariant
            i <= hist.len(),
            h == hist.deep_view(),
            head == enc_u64(h.len() as u64),
            out@ == head + enc_items(h.subrange(0, i as int)),
            forall|j: int| 0 <= j < i ==> wf_item(#[trigger] h[j]),
        decreases hist.len() - i,
    {
        push_item(&mut out, &hist[i]);
        proof {
            assert(h[i as int] == hist@[i as int]@);
            lemma_enc_items_push(h.subrange(0, i as int), h[i as int]);
            assert(h.subrange(0, i + 1) =~= h.subrange(0, i as int).push(h[i as int]));
            assert(out@ =~= head + enc_items(h.subrange(0, i + 1)));
        }
        i += 1;
    }
    proof {
        assert(h.subrange(0, h.len() as int) =~= h);
    }
    out
}

fn read_u64(b: &Vec<u8>, pos: usize) -> (r: Option<(u64, usize)>)
    ensures
        (r is Some) == (dec_u64(b@, pos as int) is Some),
        r matches Some(p) ==> dec_u64(b@, pos as int) == Some((p.0, p.1 as int)) && p.1 <= b@.len(),
{
    if b.len() >= 8 && pos <= b.len() - 8 {
        let sl = slice_subrange(b.as_slice(), pos, pos + 8);
        let x = u64_from_le_bytes(sl);
        Some((x, pos + 8))
    } else {
        None
    }
}

fn read_chunk(b: &Vec<u8>, pos: usize) -> (r: Option<(Vec<u8>, usize)>)
    ensures
        (r is Some) == (dec_chunk(b@, pos as int) is Some),
        r matches Some(p) ==> dec_chunk(b@, pos as int) == Some((p.0@, p.1 as int)) && p.1
            <= b@.len(),
{
    match read_u64(b, pos) {
        Some((n, j)) => {
            let rem = b.len() - j;
            if n > rem as u64 {
                None
            } else {
                let nn = n as usize;
                let sl = slice_subrange(b.as_slice(), j, j + nn);
                let v = slice_to_vec(sl);
                Some((v, j + nn))
            }
        },
        None => None,
    }
}

fn read_str(b: &Vec<u8>, pos: usize) -> (r: Option<(String, usize)>)
    ensures
        (r is Some) == (dec_str(b@, pos as int) is Some),
        r matches Some(p) ==> dec_str(b@, pos as int) == Some((p.0@, p.1 as int)) && p.1
            <= b@.len(),
{
    match read_chunk(b, pos) {
        Some((d, j)) => match string_from_utf8(d) {
            Some(s) => Some((s, j)),
            None => None,
        },
        None => None,
    }
}

fn read_item(b: &Vec<u8>, pos: usize) -> (r: Option<(Item, usize)>)
    ensures
        (r is Some) == (dec_item(b@, pos as int) is Some),
        r matches Some(p) ==> dec_item(b@, pos as int) == Some((p.0@, p.1 as int)) && p.1
            <= b@.len(),
{
    match read_str(b, pos) {
        Some((id, j)) => {
            if j >= b.len() {
                return None;
            }
            let tag = b[j];
            if tag == TAG_TEXT {
                match read_str(b, j + 1) {
                    Some((text, k)) => match read_str(b, k) {
                        Some((mime, l)) => Some(
                            (Item { id, data: ItemData::Text(TextItem { text, mime }) }, l),
                        ),
                        None => None,
                    },
                    None => None,
                }
            } else if tag == TAG_IMAGE {
                match read_chunk(b, j + 1) {
                    Some((image, k)) => match read_str(b, k) {
                        Some((mime, l)) => Some(
                            (Item { id, data: ItemData::Image(ImageItem { image, mime }) }, l),
                        ),
                        None => None,
                    },
                    None => None,
                }
            } else {
                None
            }
        },
        None => None,
    }
}

/// Parses a history blob back into entries.  Succeeds exactly on blobs the
/// format accepts, giving back the entries the blob encodes.
pub fn parse_history(b: &Vec<u8>) -> (r: Option<Vec<Item>>)
    ensures
        (r is Some) == (spec_parse_history(b@) is Some),
        r matches Some(v) ==> spec_parse_history(b@) == Some(v.deep_view()),
{
    let (n, start) = match read_u64(b, 0) {
        Some(p) => p,
        None => {
            return None;
        },
    };
    let mut items: Vec<Item> = Vec::new();
    let mut cur: usize = start;
    let mut k: u64 = 0;
    proof {
        assert(items.deep_view() =~= Seq::<ItemModel>::empty());
        assert(Seq::<ItemModel>::empty() + Seq::<ItemModel>::empty()
            =~= Seq::<ItemModel>::empty());
    }
    while k < n
        invariant
            k <= n,
            cur <= b@.len(),
            items.deep_view().len() == k,
            dec_u64(b@, 0) == Some((n, start as int)),
            match dec_items(b@, cur as int, (n - k) as nat) {
                Some((rest, e)) => dec_items(b@, start as int, n as nat) == Some(
                    (items.deep_view() + rest, e),
                ),
                None => dec_items(b@, start as int, n as nat) is None,
            },
        decreases n - k,
    {
        let ghost before = items.deep_view();
        match read_item(b, cur) {
            Some((it, nxt)) => {
                proof {
                    let m = it@;
                    let rest_n = (n - k) as nat;
                    assert(dec_item(b@, cur as int) == Some((m, nxt as int)));
                    match dec_items(b@, nxt as int, (rest_n - 1) as nat) {
                        Some((rest2, e2)) => {
                            assert(dec_items(b@, cur as int, rest_n) == Some(
                                (seq![m] + rest2, e2),
                            ));
                            assert(before + (seq![m] + rest2) =~= before.push(m) + rest2);
                        },
                        None => {
                            assert(dec_items(b@, cur as int, rest_n) is None);
                        },
                    }
                }
                items.push(it);
                proof {
                    assert(items.deep_view() =~= before.push(it@));
                }
                cur = nxt;
            },
            None => {
                proof {
                    assert(dec_items(b@, cur as int, (n - k) as nat) is None);
                }
                return None;
            },
        }
        k = k + 1;
    }
    proof {
        assert(dec_items(b@, cur as int, 0) == Some((Seq::<ItemModel>::empty(), cur as int)));
        assert(items.deep_view() + Seq::<ItemModel>::empty() =~= items.deep_view());
    }
    if cur == b.len() {
        Some(items)
    } else {
        None
    }
}

proof fn lemma_embedded_subrange(b: Seq<u8>, i: int, e: Seq<u8>, lo: int, hi: int)
    requires
        0 <= i,
        i + e.len() <= b.len(),
        b.subrange(i, i + e.len()) == e,
        0 <= lo <= hi <= e.len(),
    ensures
        b.subrange(i + lo, i + hi) =~= e.subrange(lo, hi),
{
    assert forall|k: int| 0 <= k < hi - lo implies b.subrange(i + lo, i + hi)[k] == e.subrange(
        lo,
        hi,
    )[k] by {
        assert(b.subrange(i, i + e.len())[lo + k] == e[lo + k]);
    }
}

proof fn lemma_dec_u64_enc(b: Seq<u8>, i: int, x: u64)
    requires
        0 <= i,
        i + 8 <= b.len(),
        b.subrange(i, i + 8) == enc_u64(x),
    ensures
        dec_u64(b, i) == Some((x, i + 8)),
{
    lemma_auto_spec_u64_to_from_le_bytes();
}

proof fn lemma_dec_chunk_enc(b: Seq<u8>, i: int, d: Seq<u8>)
    requires
        0 <= i,
        d.len() <= u64::MAX,
        i + enc_chunk(d).len() <= b.len(),
        b.subrange(i, i + enc_chunk(d).len()) == enc_chunk(d),
    ensures
        enc_chunk(d).len() == 8 + d.len(),
        dec_chunk(b, i) == Some((d, i + 8 + d.len())),
{
    lemma_auto_spec_u64_to_from_le_bytes();
    let e = enc_chunk(d);
    let lenpart = enc_u64(d.len() as u64);
    assert(lenpart.len() == 8);
    assert(b.subrange(i, i + 8) =~= lenpart) by {
        lemma_embedded_subrange(b, i, e, 0, 8);
        assert forall|k: int| 0 <= k < 8 implies e.subrange(0, 8)[k] == lenpart[k] by {
            assert(e[k] == lenpart[k]);
        }
    }
    lemma_dec_u64_enc(b, i, d.len() as u64);
    assert(b.subrange(i + 8, i + 8 + d.len()) =~= d) by {
        lemma_embedded_subrange(b, i, e, 8, e.len() as int);
        assert forall|k: int| 0 <= k < d.len() implies e.subrange(8, e.len() as int)[k] == d[k] by {
            assert(e[8 + k] == d[k]);
        }
    }
}

proof fn lemma_dec_str_enc(b: Seq<u8>, i: int, s: Seq<char>)
    requires
        0 <= i,
        str_fits(s),
        i + enc_str(s).len() <= b.len(),
        b.subrange(i, i + enc_str(s).len()) == enc_str(s),
    ensures
        enc_str(s).len() == 8 + encode_utf8(s).len(),
        dec_str(b, i) == Some((s, i + enc_str(s).len())),
{
    let d = encode_utf8(s);
    lemma_dec_chunk_enc(b, i, d);
    encode_utf8_valid_utf8(s);
    encode_utf8_decode_utf8(s);
}

proof fn lemma_dec_item_enc(b: Seq<u8>, i: int, m: ItemModel)
    requires
        0 <= i,
        wf_item(m),
        i + enc_item(m).len() <= b.len(),
        b.subrange(i, i + enc_item(m).len()) == enc_item(m),
    ensures
        dec_item(b, i) == Some((m, i + enc_item(m).len())),
{
    lemma_auto_spec_u64_to_from_le_bytes();
    let e = enc_item(m);
    let e_id = enc_str(m.id);
    match m.data {
        ItemDataModel::Text(t) => {
            let e_tx = enc_str(t.text);
            let e_mi = enc_str(t.mime);
            let o1 = i + e_id.len();
            let o2 = o1 + 1;
            let o3 = o2 + e_tx.len();
            let o4 = o3 + e_mi.len();
            assert(e =~= e_id + seq![TAG_TEXT] + e_tx + e_mi);
            assert(e.len() == e_id.len() + 1 + e_tx.len() + e_mi.len());
            assert(b.subrange(i, o1) =~= e_id) by {
                lemma_embedded_subrange(b, i, e, 0, e_id.len() as int);
                assert forall|k: int| 0 <= k < e_id.len() implies e.subrange(
                    0,
                    e_id.len() as int,
                )[k] == e_id[k] by {
                    assert(e[k] == e_id[k]);
                }
            }
            lemma_dec_str_enc(b, i, m.id);
            assert(b[o1] == TAG_TEXT) by {
                assert(b.subrange(i, i + e.len())[e_id.len() as int] == e[e_id.len() as int]);
                assert(e[e_id.len() as int] == TAG_TEXT);
            }
            assert(b.subrange(o2, o3) =~= e_tx) by {
                lemma_embedded_subrange(b, i, e, e_id.len() + 1 as int, e_id.len() + 1 + e_tx.len() as int);
                assert forall|k: int| 0 <= k < e_tx.len() implies e.subrange(
                    e_id.len() + 1 as int,
                    e_id.len() + 1 + e_tx.len() as int,
                )[k] == e_tx[k] by {
                    assert(e[e_id.len() + 1 + k] == e_tx[k]);
                }
            }
            lemma_dec_str_enc(b, o2, t.text);
            assert(b.subrange(o3, o4) =~= e_mi) by {
                lemma_embedded_subrange(b, i, e, e_id.len() + 1 + e_tx.len() as int, e.len() as int);
                assert forall|k: int| 0 <= k < e_mi.len() implies e.subrange(
                    e_id.len() + 1 + e_tx.len() as int,
                    e.len() as int,
                )[k] == e_mi[k] by {
                    assert(e[e_id.len() + 1 + e_tx.len() + k] == e_mi[k]);
                }
            }
            lemma_dec_str_enc(b, o3, t.mime);
            assert(TextModel { text: t.text, mime: t.mime } == t);
            assert(ItemModel { id: m.id, data: ItemDataModel::Text(t) } == m);
        },
        ItemDataModel::Image(im) => {
            let e_im = enc_chunk(im.image);
            let e_mi = enc_str(im.mime);
            let o1 = i + e_id.len();
            let o2 = o1 + 1;
            let o3 = o2 + e_im.len();
            let o4 = o3 + e_mi.len();
            assert(e =~= e_id + seq![TAG_IMAGE] + e_im + e_mi);
            assert(e.len() == e_id.len() + 1 + e_im.len() + e_mi.len());
            assert(b.subrange(i, o1) =~= e_id) by {
                lemma_embedded_subrange(b, i, e, 0, e_id.len() as int);
                assert forall|k: int| 0 <= k < e_id.len() implies e.subrange(
                    0,
                    e_id.len() as int,
                )[k] == e_id[k] by {
                    assert(e[k] == e_id[k]);
                }
            }
            lemma_dec_str_enc(b, i, m.id);
            assert(b[o1] == TAG_IMAGE) by {
                assert(b.subrange(i, i + e.len())[e_id.len() as int] == e[e_id.len() as int]);
                assert(e[e_id.len() as int] == TAG_IMAGE);
            }
            assert(b.subrange(o2, o3) =~= e_im) by {
                lemma_embedded_subrange(b, i, e, e_id.len() + 1 as int, e_id.len() + 1 + e_im.len() as int);
                assert forall|k: int| 0 <= k < e_im.len() implies e.subrange(
                    e_id.len() + 1 as int,
                    e_id.len() + 1 + e_im.len() as int,
                )[k] == e_im[k] by {
                    assert(e[e_id.len() + 1 + k] == e_im[k]);
                }
            }
            lemma_dec_chunk_enc(b, o2, im.image);
            assert(b.subrange(o3, o4) =~= e_mi) by {
                lemma_embedded_subrange(b, i, e, e_id.len() + 1 + e_im.len() as int, e.len() as int);
                assert forall|k: int| 0 <= k < e_mi.len() implies e.subrange(
                    e_id.len() + 1 + e_im.len() as int,
                    e.len() as int,
                )[k] == e_mi[k] by {
                    assert(e[e_id.len() + 1 + e_im.len() + k] == e_mi[k]);
                }
            }
            lemma_dec_str_enc(b, o3, im.mime);
            assert(ImageModel { image: im.image, mime: im.mime } == im);
            assert(ItemModel { id: m.id, data: ItemDataModel::Image(im) } == m);
        },
    }
}

proof fn lemma_dec_items_enc(b: Seq<u8>, i: int, h: Seq<ItemModel>)
    requires
        0 <= i,
        forall|j: int| 0 <= j < h.len() ==> wf_item(#[trigger] h[j]),
        i + enc_items(h).len() <= b.len(),
        b.subrange(i, i + enc_items(h).len()) == enc_items(h),
    ensures
        dec_items(b, i, h.len()) == Some((h, i + enc_items(h).len())),
    decreases h.len(),
{
    if h.len() == 0 {
        assert(h =~= Seq::<ItemModel>::empty());
    } else {
        let e = enc_items(h);
        let e0 = enc_item(h[0]);
        let rest = h.drop_first();
        let er = enc_items(rest);
        assert(e == e0 + er);
        assert(b.subrange(i, i + e0.len()) =~= e0) by {
            lemma_embedded_subrange(b, i, e, 0, e0.len() as int);
            assert forall|k: int| 0 <= k < e0.len() implies e.subrange(0, e0.len() as int)[k]
                == e0[k] by {
                assert(e[k] == e0[k]);
            }
        }
        lemma_dec_item_enc(b, i, h[0]);
        assert(b.subrange(i + e0.len(), i + e.len()) =~= er) by {
            lemma_embedded_subrange(b, i, e, e0.len() as int, e.len() as int);
            assert forall|k: int| 0 <= k < er.len() implies e.subrange(
                e0.len() as int,
                e.len() as int,
            )[k] == er[k] by {
                assert(e[e0.len() + k] == er[k]);
            }
        }
        assert forall|j: int| 0 <= j < rest.len() implies wf_item(#[trigger] rest[j]) by {
            assert(rest[j] == h[j + 1]);
        }
        lemma_dec_items_enc(b, i + e0.len(), rest);
        assert(seq![h[0]] + rest =~= h);
    }
}

/// Parsing an encoded history gives back exactly the encoded entries: the
/// persistence format round-trips.
pub proof fn lemma_parse_encode_round_trip(h: Seq<ItemModel>)
    requires
        wf_history(h),
    ensures
        spec_parse_history(spec_encode_history(h)) == Some(h),
{
    lemma_auto_spec_u64_to_from_le_bytes();
    let b = spec_encode_history(h);
    let head = enc_u64(h.len() as u64);
    assert(head.len() == 8);
    assert(b.subrange(0, 8) =~= head) by {
        assert forall|k: int| 0 <= k < 8 implies b.subrange(0, 8)[k] == head[k] by {
            assert(b[k] == head[k]);
        }
    }
    lemma_dec_u64_enc(b, 0, h.len() as u64);
    assert((h.len() as u64) as nat == h.len());
    assert(b.subrange(8, b.len() as int) =~= enc_items(h)) by {
        assert forall|k: int| 0 <= k < enc_items(h).len() implies b.subrange(
            8,
            b.len() as int,
        )[k] == enc_items(h)[k] by {
            assert(b[8 + k] == enc_items(h)[k]);
        }
    }
    lemma_dec_items_enc(b, 8, h);
}

} // verus!
