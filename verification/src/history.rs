//! The clipboard history store: commit, dedupe, eviction, recall-promotion,
//! and restoration of a previously persisted history.
//!
//! All operations are given exact models over sequences of [`ItemModel`];
//! the store's laws (idempotent repeat-commits, the dedupe invariant, the
//! capacity bound, permutation-only recalls) are proved over those models.

use vstd::prelude::*;

use crate::config::{clone_config, Config, ConfigModel};
use crate::item::{
    clone_item_data, clone_items, content_eq, item_content_eq, Item, ItemData, ItemDataModel,
    ItemModel,
};

verus! {

/// The in-flight selection being received: the offer's identifier and the
/// mime types announced for it so far, in first-seen order without repeats.
#[derive(Clone, Debug)]
pub struct LiveClipboard {
    pub id: String,
    pub mime_types: Vec<String>,
}

/// Model of an in-flight selection.
pub struct LiveModel {
    pub id: Seq<char>,
    pub mime_types: Seq<Seq<char>>,
}

impl View for LiveClipboard {
    type V = LiveModel;

    open spec fn view(&self) -> LiveModel {
        LiveModel { id: self.id@, mime_types: self.mime_types.deep_view() }
    }
}

impl LiveClipboard {
    /// A fresh in-flight selection with no mime candidates yet.
    pub fn new(id: String) -> (r: Self)
        ensures
            r@.id == id@,
            r@.mime_types =~= Seq::<Seq<char>>::empty(),
    {
        let r = LiveClipboard { id, mime_types: Vec::new() };
        proof {
            assert(r@.mime_types =~= Seq::<Seq<char>>::empty());
        }
        r
    }

    /// Records one announced mime candidate: appended if not already present,
    /// preserving first-seen order.  Returns whether this was the first
    /// announcement, which is the one the offer handle is bound on.
    pub fn handle_offer(&mut self, mime_type: String) -> (first: bool)
        ensures
            first == (old(self)@.mime_types.len() == 0),
            final(self)@.id == old(self)@.id,
            final(self)@.mime_types == if old(self)@.mime_types.contains(mime_type@) {
                old(self)@.mime_types
            } else {
                old(self)@.mime_types.push(mime_type@)
            },
    {
        let first = self.mime_types.len() == 0;
        let mut i: usize = 0;
        let mut present = false;
        while i < self.mime_types.len()
            invariant
                i <= self.mime_types.len(),
                present == exists|j: int| 0 <= j < i && self.mime_types@[j]@ == mime_type@,
            decreases self.mime_types.len() - i,
        {
            if self.mime_types[i] == mime_type {
                present = true;
            }
            i += 1;
        }
        proof {
            assert(present == self@.mime_types.contains(mime_type@)) by {
                if present {
                    let j = choose|j: int|
                        0 <= j < self.mime_types@.len() && self.mime_types@[j]@ == mime_type@;
                    assert(self@.mime_types[j] == mime_type@);
                }
                if self@.mime_types.contains(mime_type@) {
                    let j = choose|j: int|
                        0 <= j < self@.mime_types.len() && self@.mime_types[j] == mime_type@;
                    assert(self.mime_types@[j]@ == mime_type@);
                }
            }
        }
        if !present {
            let ghost before = self@.mime_types;
            self.mime_types.push(mime_type);
            proof {
                assert(self@.mime_types =~= before.push(mime_type@));
            }
        }
        first
    }
}

/// The committed entry at the tail has the same content as `m`: the always-on
/// "ignore an immediate repeat" guard.
pub open spec fn tail_repeat(h: Seq<ItemModel>, m: ItemModel) -> bool {
    h.len() > 0 && content_eq(h.last().data, m.data)
}

/// The least index at or after `i` whose entry has the same content as `m`,
/// or `h.len()` when there is none.
pub open spec fn first_dup_from(h: Seq<ItemModel>, m: ItemModel, i: int) -> int
    decreases h.len() - i,
    when 0 <= i <= h.len()
{
    if i >= h.len() {
        h.len() as int
    } else if content_eq(h[i].data, m.data) {
        i
    } else {
        first_dup_from(h, m, i + 1)
    }
}

/// The least index whose entry has the same content as `m`, or `h.len()`.
pub open spec fn first_dup(h: Seq<ItemModel>, m: ItemModel) -> int {
    first_dup_from(h, m, 0)
}

proof fn lemma_first_dup_from_props(h: Seq<ItemModel>, m: ItemModel, i: int)
    requires
        0 <= i <= h.len(),
    ensures
        i <= first_dup_from(h, m, i) <= h.len(),
        first_dup_from(h, m, i) < h.len() ==> content_eq(h[first_dup_from(h, m, i)].data, m.data),
        forall|j: int| i <= j < first_dup_from(h, m, i) ==> !content_eq(h[j].data, m.data),
    decreases h.len() - i,
{
    if i < h.len() && !content_eq(h[i].data, m.data) {
        lemma_first_dup_from_props(h, m, i + 1);
    }
}

/// What `first_dup` finds: the entry there matches `m`'s content, and no
/// earlier entry does.
pub proof fn lemma_first_dup_props(h: Seq<ItemModel>, m: ItemModel)
    ensures
        0 <= first_dup(h, m) <= h.len(),
        first_dup(h, m) < h.len() ==> content_eq(h[first_dup(h, m)].data, m.data),
        forall|j: int| 0 <= j < first_dup(h, m) ==> !content_eq(h[j].data, m.data),
{
    lemma_first_dup_from_props(h, m, 0);
}

proof fn lemma_first_dup_skip(h: Seq<ItemModel>, m: ItemModel, i: int)
    requires
        0 <= i <= h.len(),
        forall|j: int| 0 <= j < i ==> !content_eq(h[j].data, m.data),
    ensures
        first_dup(h, m) == first_dup_from(h, m, i),
    decreases i,
{
    if i > 0 {
        lemma_first_dup_skip(h, m, i - 1);
    }
}

/// The history with the first entry content-equal to `m` removed, if any:
/// the scan a dedupe-enabled commit makes before appending.
pub open spec fn spec_dedupe(h: Seq<ItemModel>, m: ItemModel) -> Seq<ItemModel> {
    if first_dup(h, m) < h.len() {
        h.remove(first_dup(h, m))
    } else {
        h
    }
}

/// Oldest entries dropped until the bound `max` is met; zero means unbounded.
pub open spec fn spec_evict(h: Seq<ItemModel>, max: usize) -> Seq<ItemModel> {
    if max > 0 && h.len() > max {
        h.subrange(h.len() - max, h.len() as int)
    } else {
        h
    }
}

/// One commit: an immediate repeat of the tail is rejected; otherwise the
/// prior duplicate (under dedupe) is removed, the entry appended, and the
/// oldest entries evicted down to the bound.
pub open spec fn spec_commit(h: Seq<ItemModel>, m: ItemModel, dedupe: bool, max: usize) -> Seq<
    ItemModel,
> {
    if tail_repeat(h, m) {
        h
    } else {
        let d = if dedupe {
            spec_dedupe(h, m)
        } else {
            h
        };
        spec_evict(d.push(m), max)
    }
}

/// One recall: `idx` indexes the picker's newest-first view; the chosen entry
/// moves to the most-recently-used position.  Out of bounds is a no-op.
pub open spec fn spec_promote(h: Seq<ItemModel>, idx: int) -> Seq<ItemModel> {
    if 0 <= idx < h.len() {
        let i = h.len() - idx - 1;
        h.remove(i).push(h[i])
    } else {
        h
    }
}

/// Entries that survive a restore with image retention off: text only, in order.
pub open spec fn spec_keep_text(h: Seq<ItemModel>) -> Seq<ItemModel>
    decreases h.len(),
{
    if h.len() == 0 {
        Seq::empty()
    } else {
        let rest = spec_keep_text(h.drop_last());
        if h.last().data is Text {
            rest.push(h.last())
        } else {
            rest
        }
    }
}

/// The key a restore collapses on: text entries by their text, image entries
/// by their identifier (image content is deliberately not hashed).
pub open spec fn restore_key(m: ItemModel) -> (bool, Seq<char>) {
    match m.data {
        ItemDataModel::Text(t) => (true, t.text),
        ItemDataModel::Image(_) => (false, m.id),
    }
}

/// Entries that survive a restore with dedupe on: the first occurrence of
/// each key, in order.
pub open spec fn spec_unique(h: Seq<ItemModel>) -> Seq<ItemModel>
    decreases h.len(),
{
    if h.len() == 0 {
        Seq::empty()
    } else {
        let rest = spec_unique(h.drop_last());
        if exists|j: int| 0 <= j < h.len() - 1 && restore_key(h[j]) == restore_key(h.last()) {
            rest
        } else {
            rest.push(h.last())
        }
    }
}

/// What a persisted history restores to under the given configuration.
pub open spec fn spec_restore(h: Seq<ItemModel>, allow_images: bool, dedupe: bool) -> Seq<
    ItemModel,
> {
    let f = if allow_images {
        h
    } else {
        spec_keep_text(h)
    };
    if dedupe {
        spec_unique(f)
    } else {
        f
    }
}

/// The shared history store.
#[derive(Debug)]
pub struct Clipboard {
    pub live: Option<LiveClipboard>,
    pub hist: Vec<Item>,
    pub config: Config,
}

impl Clipboard {
    /// The configuration snapshot this store was initialised with.
    pub open spec fn spec_config(&self) -> ConfigModel {
        self.config@
    }

    /// The model of the stored history, oldest first.
    pub open spec fn hist_model(&self) -> Seq<ItemModel> {
        self.hist.deep_view()
    }

    /// Builds the store from its configuration and a previously persisted
    /// history, applying the restore policy: drop images unless retained,
    /// then collapse to the first occurrence per key when dedupe is on.
    pub fn init(config: Config, existing: Option<Vec<Item>>) -> (r: Clipboard)
        ensures
            r.spec_config() == config@,
            r.live is None,
            r.hist_model() == match existing {
                Some(v) => spec_restore(
                    v.deep_view(),
                    config@.general.allow_images,
                    config@.data.dedupe,
                ),
                None => Seq::<ItemModel>::empty(),
            },
    {
        let hist: Vec<Item> = match existing {
            Some(v) => restore_items(v, config.general.allow_images, config.data.dedupe),
            None => Vec::new(),
        };
        proof {
            if existing is None {
                assert(hist.deep_view() =~= Seq::<ItemModel>::empty());
            }
        }
        Clipboard { live: None, hist, config }
    }

    /// Starts a fresh in-flight selection, superseding any unfinished one.
    pub fn new_offer(&mut self, id: String)
        ensures
            final(self).live matches Some(l) && l@.id == id@ && l@.mime_types.len() == 0,
            final(self).hist_model() == old(self).hist_model(),
            final(self).spec_config() == old(self).spec_config(),
    {
        self.live = Some(LiveClipboard::new(id));
    }

    /// Commits one completed entry.  Returns whether the history changed, so
    /// the caller knows to persist it; an immediate repeat of the tail
    /// changes nothing and keeps the in-flight selection.
    pub fn commit(&mut self, data: Item) -> (changed: bool)
        ensures
            final(self).hist_model() == spec_commit(
                old(self).hist_model(),
                data@,
                old(self).spec_config().data.dedupe,
                old(self).spec_config().general.max_history,
            ),
            changed == !tail_repeat(old(self).hist_model(), data@),
            changed ==> final(self).live is None,
            !changed ==> final(self).live == old(self).live,
            final(self).spec_config() == old(self).spec_config(),
    {
        let ghost h0 = self.hist.deep_view();
        let n = self.hist.len();
        if n > 0 && item_content_eq(&self.hist[n - 1], &data) {
            return false;
        }
        if self.config.data.dedupe {
            let k = find_first_dup(&self.hist, &data);
            if k < self.hist.len() {
                self.hist.remove(k);
                proof {
                    assert(self.hist.deep_view() =~= h0.remove(k as int));
                }
            }
        }
        let ghost d = self.hist.deep_view();
        self.hist.push(data);
        proof {
            assert(self.hist.deep_view() =~= d.push(data@));
        }
        let ghost p = self.hist.deep_view();
        let ghost cfg0 = self.config;
        let ghost live0 = self.live;
        let max = self.config.general.max_history;
        if max > 0 {
            while self.hist.len() > max
                invariant
                    self.config == cfg0,
                    self.live == live0,
                    max == cfg0@.general.max_history,
                    p.len() > max ==> max <= self.hist@.len() <= p.len(),
                    p.len() <= max ==> self.hist@.len() == p.len(),
                    self.hist.deep_view() =~= p.subrange(
                        p.len() - self.hist@.len(),
                        p.len() as int,
                    ),
                decreases self.hist@.len(),
            {
                let ghost before = self.hist.deep_view();
                self.hist.remove(0);
                proof {
                    assert(self.hist.deep_view() =~= before.remove(0));
                    assert(self.hist.deep_view() =~= p.subrange(
                        p.len() - self.hist@.len(),
                        p.len() as int,
                    ));
                }
            }
        }
        proof {
            assert(p.subrange(0, p.len() as int) =~= p);
            assert(self.hist.deep_view() == spec_evict(p, max));
        }
        self.live = None;
        true
    }

    /// The configured preferred text mime type.
    pub fn preferred_text_mime(&self) -> (r: String)
        ensures
            r@ == self.spec_config().data.mime,
    {
        self.config.data.mime.clone()
    }

    /// A copy of the configuration snapshot.
    pub fn get_config(&self) -> (r: Config)
        ensures
            r@ == self.spec_config(),
    {
        clone_config(&self.config)
    }

    /// A read-only copy of the current history, oldest first.
    pub fn dump(&self) -> (r: Vec<Item>)
        ensures
            r.deep_view() == self.hist_model(),
    {
        clone_items(&self.hist)
    }

    /// Empties the history.
    pub fn clear(&mut self)
        ensures
            final(self).hist_model() =~= Seq::<ItemModel>::empty(),
            final(self).live == old(self).live,
            final(self).spec_config() == old(self).spec_config(),
    {
        self.hist.clear();
        proof {
            assert(self.hist.deep_view() =~= Seq::<ItemModel>::empty());
        }
    }

    /// Handles one recall from the picker: the entry at newest-first index
    /// `idx` moves to the most-recently-used position, and its payload is
    /// returned for re-injection.  Out of bounds is a no-op.
    pub fn pasted_idx(&mut self, idx: usize) -> (r: Option<ItemData>)
        ensures
            final(self).hist_model() == spec_promote(old(self).hist_model(), idx as int),
            idx < old(self).hist_model().len() ==> (r matches Some(d) && d@ == old(
                self,
            ).hist_model()[old(self).hist_model().len() - idx - 1].data),
            idx >= old(self).hist_model().len() ==> r is None,
            final(self).live == old(self).live,
            final(self).spec_config() == old(self).spec_config(),
    {
        let ghost h0 = self.hist.deep_view();
        if idx >= self.hist.len() {
            return None;
        }
        let i = self.hist.len() - idx - 1;
        let it = self.hist.remove(i);
        proof {
            assert(self.hist.deep_view() =~= h0.remove(i as int));
        }
        let payload = clone_item_data(&it.data);
        let ghost d = self.hist.deep_view();
        self.hist.push(it);
        proof {
            assert(self.hist.deep_view() =~= d.push(it@));
        }
        Some(payload)
    }
}

/// Finds the first stored entry content-equal to `data`, as an index, or the
/// history's length when there is none.
fn find_first_dup(hist: &Vec<Item>, data: &Item) -> (r: usize)
    ensures
        r as int == first_dup(hist.deep_view(), data@),
{
    let ghost h = hist.deep_view();
    let mut i: usize = 0;
    while i < hist.len()
        invariant
            i <= hist.len(),
            h == hist.deep_view(),
            forall|j: int| 0 <= j < i ==> !content_eq(h[j].data, data@.data),
        decreases hist.len() - i,
    {
        if item_content_eq(&hist[i], data) {
            proof {
                lemma_first_dup_skip(h, data@, i as int);
            }
            return i;
        }
        i += 1;
    }
    proof {
        lemma_first_dup_skip(h, data@, h.len() as int);
    }
    i
}

/// Applies the restore policy to a decoded history: drop images unless
/// retained, then keep the first occurrence per key when dedupe is on.
pub fn restore_items(existing: Vec<Item>, allow_images: bool, dedupe: bool) -> (r: Vec<Item>)
    ensures
        r.deep_view() == spec_restore(existing.deep_view(), allow_images, dedupe),
{
    let filtered: Vec<Item> = if allow_images {
        existing
    } else {
        keep_text_items(existing)
    };
    if dedupe {
        unique_items(filtered)
    } else {
        filtered
    }
}

fn keep_text_items(v: Vec<Item>) -> (r: Vec<Item>)
    ensures
        r.deep_view() == spec_keep_text(v.deep_view()),
{
    let ghost h = v.deep_view();
    let mut out: Vec<Item> = Vec::new();
    let mut i: usize = 0;
    proof {
        assert(h.subrange(0, 0) =~= Seq::<ItemModel>::empty());
        assert(out.deep_view() =~= Seq::<ItemModel>::empty());
    }
    while i < v.len()
        invariant
            i <= v.len(),
            h == v.deep_view(),
            out.deep_view() == spec_keep_text(h.subrange(0, i as int)),
        decreases v.len() - i,
    {
        let ghost before = out.deep_view();
        let keep = match &v[i].data {
            ItemData::Text(_) => true,
            ItemData::Image(_) => false,
        };
        if keep {
            out.push(crate::item::clone_item(&v[i]));
            proof {
                assert(out.deep_view() =~= before.push(h[i as int]));
            }
        }
        proof {
            let pre = h.subrange(0, i as int);
            let cur = h.subrange(0, i + 1);
            assert(cur.drop_last() =~= pre);
            assert(cur.last() == h[i as int]);
        }
        i += 1;
    }
    proof {
        assert(h.subrange(0, h.len() as int) =~= h);
    }
    out
}

/// Decides whether two entries share a restore key.
fn same_restore_key(a: &Item, b: &Item) -> (r: bool)
    ensures
        r == (restore_key(a@) == restore_key(b@)),
{
    match (&a.data, &b.data) {
        (ItemData::Text(x), ItemData::Text(y)) => x.text == y.text,
        (ItemData::Image(_), ItemData::Image(_)) => a.id == b.id,
        _ => false,
    }
}

fn unique_items(v: Vec<Item>) -> (r: Vec<Item>)
    ensures
        r.deep_view() == spec_unique(v.deep_view()),
{
    let ghost h = v.deep_view();
    let mut out: Vec<Item> = Vec::new();
    let mut i: usize = 0;
    proof {
        assert(h.subrange(0, 0) =~= Seq::<ItemModel>::empty());
        assert(out.deep_view() =~= Seq::<ItemModel>::empty());
    }
    while i < v.len()
        invariant
            i <= v.len(),
            h == v.deep_view(),
            out.deep_view() == spec_unique(h.subrange(0, i as int)),
        decreases v.len() - i,
    {
        let ghost before = out.deep_view();
        let mut j: usize = 0;
        let mut seen = false;
        while j < i
            invariant
                j <= i < v.len(),
                h == v.deep_view(),
                seen == exists|k: int| 0 <= k < j && restore_key(h[k]) == restore_key(h[i as int]),
            decreases i - j,
        {
            let eq = same_restore_key(&v[j], &v[i]);
            proof {
                assert(h[j as int] == v@[j as int]@);
                assert(h[i as int] == v@[i as int]@);
            }
            if eq {
                seen = true;
            }
            j += 1;
        }
        if !seen {
            out.push(crate::item::clone_item(&v[i]));
            proof {
                assert(out.deep_view() =~= before.push(h[i as int]));
            }
        }
        proof {
            let pre = h.subrange(0, i as int);
            let cur = h.subrange(0, i + 1);
            assert(cur.drop_last() =~= pre);
            assert(cur.last() == h[i as int]);
            assert forall|k: int| 0 <= k < cur.len() - 1 implies cur[k] == h[k] by {}
            assert((exists|k: int|
                0 <= k < cur.len() - 1 && restore_key(cur[k]) == restore_key(cur.last())) == seen);
        }
        i += 1;
    }
    proof {
        assert(h.subrange(0, h.len() as int) =~= h);
    }
    out
}

/// No two entries at different positions have the same content.
pub open spec fn no_dup_contents(h: Seq<ItemModel>) -> bool {
    forall|i: int, j: int| 0 <= i < j < h.len() ==> !content_eq(h[i].data, h[j].data)
}

/// Content equality is symmetric and carries across a shared match.
pub proof fn lemma_content_eq_trans(a: ItemDataModel, b: ItemDataModel, c: ItemDataModel)
    requires
        content_eq(a, c),
        content_eq(b, c),
    ensures
        content_eq(a, b),
{
}

/// Committing the same content twice in a row changes nothing the second
/// time: the history after the second commit is the history after the first.
pub proof fn lemma_commit_idempotent(h: Seq<ItemModel>, m: ItemModel, dedupe: bool, max: usize)
    ensures
        spec_commit(spec_commit(h, m, dedupe, max), m, dedupe, max) == spec_commit(
            h,
            m,
            dedupe,
            max,
        ),
{
    let h1 = spec_commit(h, m, dedupe, max);
    if !tail_repeat(h, m) {
        let d = if dedupe {
            spec_dedupe(h, m)
        } else {
            h
        };
        let p = d.push(m);
        assert(p.last() == m);
        assert(h1.len() > 0 && h1.last() == m);
        assert(content_eq(m.data, m.data));
        assert(tail_repeat(h1, m));
    }
}

/// With dedupe on, a commit preserves the dedupe invariant, and the entry
/// that survives a duplicate is the most recently committed occurrence (it
/// stands at the tail).
pub proof fn lemma_commit_preserves_dedupe(h: Seq<ItemModel>, m: ItemModel, max: usize)
    requires
        no_dup_contents(h),
    ensures
        no_dup_contents(spec_commit(h, m, true, max)),
        !tail_repeat(h, m) ==> spec_commit(h, m, true, max).len() > 0 && spec_commit(
            h,
            m,
            true,
            max,
        ).last() == m,
{
    if !tail_repeat(h, m) {
        let k = first_dup(h, m);
        lemma_first_dup_props(h, m);
        let d = spec_dedupe(h, m);
        assert forall|x: int| 0 <= x < d.len() implies !content_eq(d[x].data, m.data) by {
            if k < h.len() {
                let orig: int = if x < k {
                    x
                } else {
                    x + 1
                };
                assert(d[x] == h[orig]);
                if content_eq(h[orig].data, m.data) {
                    assert(orig > k);
                    lemma_content_eq_trans(h[k].data, h[orig].data, m.data);
                    assert(content_eq(h[k].data, h[orig].data));
                }
            }
        }
        assert(no_dup_contents(d)) by {
            if k < h.len() {
                assert forall|x: int, y: int| 0 <= x < y < d.len() implies !content_eq(
                    d[x].data,
                    d[y].data,
                ) by {
                    let ox: int = if x < k {
                        x
                    } else {
                        x + 1
                    };
                    let oy: int = if y < k {
                        y
                    } else {
                        y + 1
                    };
                    assert(d[x] == h[ox] && d[y] == h[oy]);
                }
            }
        }
        let p = d.push(m);
        assert(no_dup_contents(p)) by {
            assert forall|x: int, y: int| 0 <= x < y < p.len() implies !content_eq(
                p[x].data,
                p[y].data,
            ) by {
                if y == p.len() - 1 {
                    assert(p[x] == d[x] && p[y] == m);
                }
            }
        }
        let r = spec_evict(p, max);
        assert(no_dup_contents(r)) by {
            if max > 0 && p.len() > max {
                assert forall|x: int, y: int| 0 <= x < y < r.len() implies !content_eq(
                    r[x].data,
                    r[y].data,
                ) by {
                    assert(r[x] == p[x + p.len() - max] && r[y] == p[y + p.len() - max]);
                }
            }
        }
        assert(r.len() > 0 && r.last() == m);
    }
}

/// With a positive bound, a commit keeps the history within the bound.
pub proof fn lemma_commit_capacity(h: Seq<ItemModel>, m: ItemModel, dedupe: bool, max: usize)
    requires
        max > 0,
        h.len() <= max,
    ensures
        spec_commit(h, m, dedupe, max).len() <= max,
{
}

/// The history after committing each entry of `items`, in order.
pub open spec fn spec_commit_all(
    h: Seq<ItemModel>,
    items: Seq<ItemModel>,
    dedupe: bool,
    max: usize,
) -> Seq<ItemModel>
    decreases items.len(),
{
    if items.len() == 0 {
        h
    } else {
        spec_commit_all(spec_commit(h, items[0], dedupe, max), items.drop_first(), dedupe, max)
    }
}

/// The dedupe invariant over any sequence of commits: starting from a
/// history with no duplicate contents — the empty one included — no two
/// entries at different positions are ever content-equal.
pub proof fn lemma_commit_all_preserves_dedupe(
    h: Seq<ItemModel>,
    items: Seq<ItemModel>,
    max: usize,
)
    requires
        no_dup_contents(h),
    ensures
        no_dup_contents(spec_commit_all(h, items, true, max)),
    decreases items.len(),
{
    if items.len() > 0 {
        lemma_commit_preserves_dedupe(h, items[0], max);
        lemma_commit_all_preserves_dedupe(
            spec_commit(h, items[0], true, max),
            items.drop_first(),
            max,
        );
    }
}

/// The capacity bound over any sequence of commits: with a positive bound,
/// a history within the bound stays within it.
pub proof fn lemma_commit_all_capacity(
    h: Seq<ItemModel>,
    items: Seq<ItemModel>,
    dedupe: bool,
    max: usize,
)
    requires
        max > 0,
        h.len() <= max,
    ensures
        spec_commit_all(h, items, dedupe, max).len() <= max,
    decreases items.len(),
{
    if items.len() > 0 {
        lemma_commit_capacity(h, items[0], dedupe, max);
        lemma_commit_all_capacity(spec_commit(h, items[0], dedupe, max), items.drop_first(), dedupe, max);
    }
}

/// A recall permutes the history: no entry is lost and none is duplicated.
pub proof fn lemma_promote_preserves_items(h: Seq<ItemModel>, idx: int)
    ensures
        spec_promote(h, idx).to_multiset() == h.to_multiset(),
{
    broadcast use vstd::seq_lib::group_to_multiset_ensures;
    broadcast use vstd::multiset::group_multiset_axioms;

    if 0 <= idx < h.len() {
        let i = h.len() - idx - 1;
        let e = h[i as int];
        assert(h.remove(i as int).to_multiset() =~= h.to_multiset().remove(e));
        assert(h.remove(i as int).push(e).to_multiset() =~= h.to_multiset().remove(e).insert(e));
        assert(h.contains(e));
        assert(h.to_multiset().count(e) > 0);
        assert(h.to_multiset().remove(e).insert(e) =~= h.to_multiset());
    }
}

/// Two recalls, in whatever order the store serialises them, still permute
/// the history: concurrent toggles can reorder entries but never lose or
/// duplicate one.
pub proof fn lemma_serialized_recalls_preserve_items(h: Seq<ItemModel>, idx1: int, idx2: int)
    ensures
        spec_promote(spec_promote(h, idx1), idx2).to_multiset() == h.to_multiset(),
{
    lemma_promote_preserves_items(h, idx1);
    lemma_promote_preserves_items(spec_promote(h, idx1), idx2);
}

} // verus!
