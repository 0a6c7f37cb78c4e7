//! The picker boundary: the trait a menu back end implements, the display
//! list handed to it, and the policy on its outcome.

use vstd::prelude::*;

use crate::error::Error;
use crate::item::{Item, ItemDataModel, ItemModel};

verus! {

/// A menu back end.  Showing it presents the history and yields either a
/// selection — the chosen text and its newest-first display index — a
/// cancellation, or a failure of the back end's own.
pub trait Menu {
    fn show(&mut self) -> Result<Option<(String, usize)>, Error>;
}

/// Wraps back-end discovery: an available back end is handed through, none
/// at all is the distinguishable no-menu error.
pub fn init<M: Menu>(backend: Option<M>) -> (r: Result<M, Error>)
    ensures
        (r is Ok) == (backend is Some),
        r matches Err(e) ==> e is NoMenu,
{
    match backend {
        Some(m) => Ok(m),
        None => Err(Error::NoMenu),
    }
}

/// The display list from position `idx` of the newest-first view on: each
/// text entry's text with its display index; image entries are skipped but
/// keep their index.
pub open spec fn display_from(h: Seq<ItemModel>, idx: int) -> Seq<(Seq<char>, usize)>
    decreases h.len() - idx,
    when 0 <= idx <= h.len()
{
    if idx >= h.len() {
        Seq::empty()
    } else {
        let rest = display_from(h, idx + 1);
        match h[h.len() - idx - 1].data {
            ItemDataModel::Text(t) => seq![(t.text, idx as usize)] + rest,
            ItemDataModel::Image(_) => rest,
        }
    }
}

/// The picker's display list: text entries only, newest first, each under
/// the display index that recall translates back to a history position.
pub open spec fn spec_display_list(h: Seq<ItemModel>) -> Seq<(Seq<char>, usize)> {
    display_from(h, 0)
}

/// Builds the display list the picker presents.
pub fn presentable_items(hist: &Vec<Item>) -> (r: Vec<(String, usize)>)
    ensures
        r.deep_view() == spec_display_list(hist.deep_view()),
{
    let ghost h = hist.deep_view();
    let mut out: Vec<(String, usize)> = Vec::new();
    let mut idx: usize = 0;
    let n = hist.len();
    proof {
        assert(out.deep_view() =~= Seq::<(Seq<char>, usize)>::empty());
    }
    while idx < n
        invariant
            idx <= n,
            n == hist@.len(),
            h == hist.deep_view(),
            out.deep_view() + display_from(h, idx as int) == spec_display_list(h),
        decreases n - idx,
    {
        let ghost before = out.deep_view();
        let pos = n - idx - 1;
        proof {
            assert(h[pos as int] == hist@[pos as int]@);
        }
        match &hist[pos].data {
            crate::item::ItemData::Text(t) => {
                out.push((t.text.clone(), idx));
                proof {
                    assert(out.deep_view() =~= before.push((t.text@, idx as usize)));
                    assert(display_from(h, idx as int) =~= seq![(t.text@, idx as usize)]
                        + display_from(h, idx + 1));
                    assert(out.deep_view() + display_from(h, idx + 1) =~= before + display_from(
                        h,
                        idx as int,
                    ));
                }
            },
            crate::item::ItemData::Image(_) => {
                proof {
                    assert(display_from(h, idx as int) == display_from(h, idx + 1));
                }
            },
        }
        idx += 1;
    }
    proof {
        assert(display_from(h, n as int) =~= Seq::<(Seq<char>, usize)>::empty());
        assert(out.deep_view() + Seq::<(Seq<char>, usize)>::empty() =~= out.deep_view());
    }
    out
}

/// The toggle policy on a picker outcome: a selection is handed on for
/// injection, a cancellation is a no-op, and any other failure aborts the
/// toggle — neither mutates history here.
pub fn handle_pick(outcome: Result<Option<(String, usize)>, Error>) -> (r: Option<(String, usize)>)
    ensures
        r == match outcome {
            Ok(Some(sel)) => Some(sel),
            Ok(None) => None,
            Err(_) => None,
        },
{
    match outcome {
        Ok(Some(sel)) => Some(sel),
        Ok(None) => None,
        Err(_) => None,
    }
}

} // verus!
