//! The protocol-side decisions of the clipboard watcher: the connection
//! state machine, registry classification, mime negotiation, and payload
//! classification.
//!
//! The compositor connection itself lives outside the library; it feeds
//! events in and performs the returned actions.

use vstd::prelude::*;

use crate::item::{ImageItem, ImageModel, Item, ItemData, ItemDataModel, ItemModel, TextItem, TextModel};

verus! {

/// Which global a registry announcement binds.
#[derive(Clone, Copy, Debug, PartialEq, Eq, Structural)]
pub enum GlobalBind {
    Seat,
    Manager,
    Other,
}

/// Classifies one registry announcement by its interface name: the seat and
/// the data-control manager are bound, everything else is ignored.
pub fn classify_global(interface: &String) -> (r: GlobalBind)
    ensures
        (r is Seat) == (interface@ == "wl_seat"@),
        (r is Manager) == (interface@ == "ext_data_control_manager_v1"@),
{
    proof {
        broadcast use vstd::string::group_string_axioms;

        reveal_strlit("wl_seat");
        reveal_strlit("ext_data_control_manager_v1");
        assert("wl_seat"@.len() == 7);
        assert("ext_data_control_manager_v1"@.len() == 27);
    }
    let seat_name: String = "wl_seat".to_owned();
    let manager_name: String = "ext_data_control_manager_v1".to_owned();
    if *interface == seat_name {
        GlobalBind::Seat
    } else if *interface == manager_name {
        GlobalBind::Manager
    } else {
        GlobalBind::Other
    }
}

/// The connection's phase.
#[derive(Clone, Copy, Debug, PartialEq, Eq, Structural)]
pub enum Phase {
    /// Discovering globals; the seat and manager are not yet guaranteed.
    Connecting,
    /// Seat and manager resolved and the data-control device created.
    Bound,
    /// Listening, with no selection in flight.
    Idle,
    /// A new offer announced; mime candidates are accumulating.
    OfferAnnounced,
    /// A selection chosen; the payload transfer is in progress.
    Selecting,
}

/// One event fed into the state machine.
#[derive(Clone, Copy, Debug, PartialEq, Eq, Structural)]
pub enum ProtocolEvent {
    /// A registry announcement, already classified.
    Global(GlobalBind),
    /// One synchronous round-trip with the compositor completed.
    RoundtripComplete,
    /// The data-control device was created.
    DeviceCreated,
    /// The compositor announced a new offer.
    NewOffer,
    /// A selection event arrived; the flag says whether it carries an offer.
    SelectionChanged(bool),
    /// The payload transfer ended; the flag says whether an entry was
    /// classified successfully.
    TransferFinished(bool),
}

/// What the driver must do after a step.
#[derive(Clone, Copy, Debug, PartialEq, Eq, Structural)]
pub enum ProtocolAction {
    /// Bind the announced seat global.
    BindSeat,
    /// Bind the announced data-control manager global.
    BindManager,
    /// Create the data-control device; issued only once the seat and the
    /// manager are both bound, after the second round-trip.
    CreateDevice,
    /// Start a fresh in-flight offer, superseding any unfinished one.
    NewLiveOffer,
    /// Negotiate a mime type and pull the payload through a pipe.
    StartTransfer,
    /// Commit the classified entry into the history store.
    CommitPending,
    /// Abandon the in-flight offer without committing.
    DropLiveOffer,
    /// Nothing: the event is ignored in this phase.
    Ignore,
}

/// The connection state: its phase and what the discovery has resolved.
#[derive(Clone, Copy, Debug, PartialEq, Eq, Structural)]
pub struct ProtocolState {
    pub phase: Phase,
    pub seat_bound: bool,
    pub manager_bound: bool,
    pub device_created: bool,
    pub roundtrips: u8,
}

/// The transition function of the connection state machine.
///
/// Discovery: globals bind the seat and manager; the device is created only
/// after the second round-trip with both bound — requesting it earlier would
/// dereference an unresolved global.  An offer announcement in any listening
/// phase supersedes the in-flight offer.  A selection with an offer starts
/// the transfer; one without, or a finished transfer, returns to idle.
pub open spec fn spec_step(s: ProtocolState, e: ProtocolEvent) -> (ProtocolState, ProtocolAction) {
    match e {
        ProtocolEvent::Global(g) => if s.phase is Connecting {
            match g {
                GlobalBind::Seat => (
                    ProtocolState { seat_bound: true, ..s },
                    ProtocolAction::BindSeat,
                ),
                GlobalBind::Manager => (
                    ProtocolState { manager_bound: true, ..s },
                    ProtocolAction::BindManager,
                ),
                GlobalBind::Other => (s, ProtocolAction::Ignore),
            }
        } else {
            (s, ProtocolAction::Ignore)
        },
        ProtocolEvent::RoundtripComplete => if s.phase is Connecting {
            let n: u8 = if s.roundtrips < 2 {
                (s.roundtrips + 1) as u8
            } else {
                s.roundtrips
            };
            if n >= 2 && s.seat_bound && s.manager_bound {
                (ProtocolState { roundtrips: n, ..s }, ProtocolAction::CreateDevice)
            } else {
                (ProtocolState { roundtrips: n, ..s }, ProtocolAction::Ignore)
            }
        } else {
            (s, ProtocolAction::Ignore)
        },
        ProtocolEvent::DeviceCreated => if s.phase is Connecting && s.seat_bound
            && s.manager_bound {
            (
                ProtocolState { phase: Phase::Bound, device_created: true, ..s },
                ProtocolAction::Ignore,
            )
        } else {
            (s, ProtocolAction::Ignore)
        },
        ProtocolEvent::NewOffer => if s.phase is Bound || s.phase is Idle
            || s.phase is OfferAnnounced || s.phase is Selecting {
            (ProtocolState { phase: Phase::OfferAnnounced, ..s }, ProtocolAction::NewLiveOffer)
        } else {
            (s, ProtocolAction::Ignore)
        },
        ProtocolEvent::SelectionChanged(has_offer) => if s.phase is OfferAnnounced {
            if has_offer {
                (ProtocolState { phase: Phase::Selecting, ..s }, ProtocolAction::StartTransfer)
            } else {
                (ProtocolState { phase: Phase::Idle, ..s }, ProtocolAction::DropLiveOffer)
            }
        } else if s.phase is Bound || s.phase is Idle {
            (ProtocolState { phase: Phase::Idle, ..s }, ProtocolAction::Ignore)
        } else {
            (s, ProtocolAction::Ignore)
        },
        ProtocolEvent::TransferFinished(committed) => if s.phase is Selecting {
            if committed {
                (ProtocolState { phase: Phase::Idle, ..s }, ProtocolAction::CommitPending)
            } else {
                (ProtocolState { phase: Phase::Idle, ..s }, ProtocolAction::DropLiveOffer)
            }
        } else {
            (s, ProtocolAction::Ignore)
        },
    }
}

impl ProtocolState {
    /// The state a fresh connection starts in.
    pub fn new() -> (r: Self)
        ensures
            r == (ProtocolState {
                phase: Phase::Connecting,
                seat_bound: false,
                manager_bound: false,
                device_created: false,
                roundtrips: 0,
            }),
    {
        ProtocolState {
            phase: Phase::Connecting,
            seat_bound: false,
            manager_bound: false,
            device_created: false,
            roundtrips: 0,
        }
    }

    /// Feeds one event in and says what the driver must do.
    pub fn step(&mut self, e: ProtocolEvent) -> (a: ProtocolAction)
        ensures
            *final(self) == spec_step(*old(self), e).0,
            a == spec_step(*old(self), e).1,
    {
        let s = *self;
        match e {
            ProtocolEvent::Global(g) => {
                if matches!(s.phase, Phase::Connecting) {
                    match g {
                        GlobalBind::Seat => {
                            self.seat_bound = true;
                            ProtocolAction::BindSeat
                        },
                        GlobalBind::Manager => {
                            self.manager_bound = true;
                            ProtocolAction::BindManager
                        },
                        GlobalBind::Other => ProtocolAction::Ignore,
                    }
                } else {
                    ProtocolAction::Ignore
                }
            },
            ProtocolEvent::RoundtripComplete => {
                if matches!(s.phase, Phase::Connecting) {
                    if self.roundtrips < 2 {
                        self.roundtrips = self.roundtrips + 1;
                    }
                    if self.roundtrips >= 2 && self.seat_bound && self.manager_bound {
                        ProtocolAction::CreateDevice
                    } else {
                        ProtocolAction::Ignore
                    }
                } else {
                    ProtocolAction::Ignore
                }
            },
            ProtocolEvent::DeviceCreated => {
                if matches!(s.phase, Phase::Connecting) && s.seat_bound && s.manager_bound {
                    self.phase = Phase::Bound;
                    self.device_created = true;
                }
                ProtocolAction::Ignore
            },
            ProtocolEvent::NewOffer => {
                if matches!(s.phase, Phase::Connecting) {
                    ProtocolAction::Ignore
                } else {
                    self.phase = Phase::OfferAnnounced;
                    ProtocolAction::NewLiveOffer
                }
            },
            ProtocolEvent::SelectionChanged(has_offer) => {
                if matches!(s.phase, Phase::OfferAnnounced) {
                    if has_offer {
                        self.phase = Phase::Selecting;
                        ProtocolAction::StartTransfer
                    } else {
                        self.phase = Phase::Idle;
                        ProtocolAction::DropLiveOffer
                    }
                } else if matches!(s.phase, Phase::Bound) || matches!(s.phase, Phase::Idle) {
                    self.phase = Phase::Idle;
                    ProtocolAction::Ignore
                } else {
                    ProtocolAction::Ignore
                }
            },
            ProtocolEvent::TransferFinished(committed) => {
                if matches!(s.phase, Phase::Selecting) {
                    self.phase = Phase::Idle;
                    if committed {
                        ProtocolAction::CommitPending
                    } else {
                        ProtocolAction::DropLiveOffer
                    }
                } else {
                    ProtocolAction::Ignore
                }
            },
        }
    }
}

/// The discovery invariant: a created device implies the seat and manager
/// were both bound, after the two synchronous round-trips.
pub open spec fn wf_protocol(s: ProtocolState) -> bool {
    s.device_created ==> s.seat_bound && s.manager_bound
}

/// Every step preserves the discovery invariant, and the device-creation
/// action is only ever issued once the seat and the manager are both bound:
/// the load-bearing ordering of the connection setup.
pub proof fn lemma_step_orders_device_creation(s: ProtocolState, e: ProtocolEvent)
    requires
        wf_protocol(s),
    ensures
        wf_protocol(spec_step(s, e).0),
        spec_step(s, e).1 is CreateDevice ==> s.seat_bound && s.manager_bound && spec_step(
            s,
            e,
        ).0.roundtrips >= 2,
{
}

/// The mime string begins with `image/`.
pub open spec fn spec_is_image_mime(s: Seq<char>) -> bool {
    s.len() >= 6 && s[0] == 'i' && s[1] == 'm' && s[2] == 'a' && s[3] == 'g' && s[4] == 'e'
        && s[5] == '/'
}

/// Decides whether one candidate names an image representation.
pub fn is_image_mime(s: &String) -> (r: bool)
    ensures
        r == spec_is_image_mime(s@),
{
    let st = s.as_str();
    if st.unicode_len() < 6 {
        return false;
    }
    st.get_char(0) == 'i' && st.get_char(1) == 'm' && st.get_char(2) == 'a' && st.get_char(3)
        == 'g' && st.get_char(4) == 'e' && st.get_char(5) == '/'
}

/// The least index at or after `i` of an image candidate, or the length.
pub open spec fn first_image_from(mimes: Seq<Seq<char>>, i: int) -> int
    decreases mimes.len() - i,
    when 0 <= i <= mimes.len()
{
    if i >= mimes.len() {
        mimes.len() as int
    } else if spec_is_image_mime(mimes[i]) {
        i
    } else {
        first_image_from(mimes, i + 1)
    }
}

/// The least index of an image candidate, or the length when there is none.
pub open spec fn first_image(mimes: Seq<Seq<char>>) -> int {
    first_image_from(mimes, 0)
}

proof fn lemma_first_image_skip(mimes: Seq<Seq<char>>, i: int)
    requires
        0 <= i <= mimes.len(),
        forall|j: int| 0 <= j < i ==> !spec_is_image_mime(mimes[j]),
    ensures
        first_image(mimes) == first_image_from(mimes, i),
    decreases i,
{
    if i > 0 {
        lemma_first_image_skip(mimes, i - 1);
    }
}

/// The mime a selection is requested under: the first announced image
/// candidate when image retention is allowed and one exists, else the
/// configured preferred text mime.  Only this one mime is ever requested.
pub fn negotiate_mime(candidates: &Vec<String>, allow_images: bool, preferred: &String) -> (r:
    String)
    ensures
        (allow_images && first_image(candidates.deep_view()) < candidates.deep_view().len())
            ==> r@ == candidates.deep_view()[first_image(candidates.deep_view())],
        !(allow_images && first_image(candidates.deep_view()) < candidates.deep_view().len())
            ==> r@ == preferred@,
{
    let ghost ms = candidates.deep_view();
    if allow_images {
        let mut i: usize = 0;
        while i < candidates.len()
            invariant
                allow_images,
                i <= candidates.len(),
                ms == candidates.deep_view(),
                forall|j: int| 0 <= j < i ==> !spec_is_image_mime(ms[j]),
            decreases candidates.len() - i,
        {
            if is_image_mime(&candidates[i]) {
                proof {
                    assert(ms[i as int] == candidates@[i as int]@);
                    lemma_first_image_skip(ms, i as int);
                    assert(first_image(ms) == i as int);
                }
                return candidates[i].clone();
            }
            proof {
                assert(ms[i as int] == candidates@[i as int]@);
            }
            i += 1;
        }
        proof {
            lemma_first_image_skip(ms, ms.len() as int);
        }
    }
    preferred.clone()
}

/// The character has the Unicode white-space property.
pub open spec fn is_space_char(c: char) -> bool {
    let u = c as u32;
    u == 0x20 || (0x09 <= u && u <= 0x0D) || u == 0x85 || u == 0xA0 || u == 0x1680 || (0x2000 <= u
        && u <= 0x200A) || u == 0x2028 || u == 0x2029 || u == 0x202F || u == 0x205F || u == 0x3000
}

/// The text is empty or all white space: nothing worth committing.
pub open spec fn is_blank(s: Seq<char>) -> bool {
    forall|i: int| 0 <= i < s.len() ==> is_space_char(#[trigger] s[i])
}

/// Decides whether the text is empty or all white space.
pub fn is_blank_text(s: &String) -> (r: bool)
    ensures
        r == is_blank(s@),
{
    let st = s.as_str();
    let n = st.unicode_len();
    let mut i: usize = 0;
    while i < n
        invariant
            i <= n,
            n == st@.len(),
            st@ == s@,
            forall|j: int| 0 <= j < i ==> is_space_char(#[trigger] st@[j]),
        decreases n - i,
    {
        let c = st.get_char(i);
        let u = c as u32;
        let space = u == 0x20 || (0x09 <= u && u <= 0x0D) || u == 0x85 || u == 0xA0 || u == 0x1680
            || (0x2000 <= u && u <= 0x200A) || u == 0x2028 || u == 0x2029 || u == 0x202F || u
            == 0x205F || u == 0x3000;
        if !space {
            return false;
        }
        i += 1;
    }
    true
}

/// Classifies a text payload: blank text is dropped, anything else becomes a
/// text entry under the requested mime.
pub fn classify_text(id: String, mime: String, text: String) -> (r: Option<Item>)
    ensures
        (r is Some) == !is_blank(text@),
        r matches Some(it) ==> it@ == (ItemModel {
            id: id@,
            data: ItemDataModel::Text(TextModel { text: text@, mime: mime@ }),
        }),
{
    if is_blank_text(&text) {
        None
    } else {
        Some(Item { id, data: ItemData::Text(TextItem { text, mime }) })
    }
}

/// Names the verdict of `infer::get` on a byte buffer: whether the bytes
/// carry a known file signature.  The verdict is a function of the bytes
/// alone.
pub uninterp spec fn sniffable(b: Seq<u8>) -> bool;

/// Relies on infer::get: matches the buffer against its fixed table of file
/// signatures, deterministically in the bytes.
#[verifier::external_body]
fn sniff_known_type(bytes: &Vec<u8>) -> (r: bool)
    ensures
        r == sniffable(bytes@),
{
    infer::get(bytes).is_some()
}

/// Classifies an image payload: bytes without a recognizable file signature
/// are dropped, anything else becomes an image entry under the requested
/// mime.
pub fn classify_image(id: String, mime: String, bytes: Vec<u8>) -> (r: Option<Item>)
    ensures
        (r is Some) == sniffable(bytes@),
        r matches Some(it) ==> it@ == (ItemModel {
            id: id@,
            data: ItemDataModel::Image(ImageModel { image: bytes@, mime: mime@ }),
        }),
{
    if sniff_known_type(&bytes) {
        Some(Item { id, data: ItemData::Image(ImageItem { image: bytes, mime }) })
    } else {
        None
    }
}

} // verus!
