use wayclip::item::{Item, ItemData};
use wayclip::protocol::{
    classify_global, classify_image, classify_text, is_image_mime, negotiate_mime, GlobalBind,
    Phase, ProtocolAction, ProtocolEvent, ProtocolState,
};

#[test]
fn negotiation_prefers_text_when_images_disabled() {
    // Candidates announced as ["text/plain", "image/png"], image retention
    // off: the negotiated mime is the configured preferred text mime.
    let candidates = vec!["text/plain".to_owned(), "image/png".to_owned()];
    let preferred = "text/plain;charset=utf-8".to_owned();
    let chosen = negotiate_mime(&candidates, false, &preferred);
    assert_eq!(chosen, preferred);
}

#[test]
fn negotiation_takes_first_image_when_allowed() {
    let candidates = vec![
        "text/plain".to_owned(),
        "image/png".to_owned(),
        "image/jpeg".to_owned(),
    ];
    let chosen = negotiate_mime(&candidates, true, &"text/plain".to_owned());
    assert_eq!(chosen, "image/png");
}

#[test]
fn negotiation_without_image_candidate_uses_preferred() {
    let candidates = vec!["text/html".to_owned(), "text/plain".to_owned()];
    let chosen = negotiate_mime(&candidates, true, &"text/plain".to_owned());
    assert_eq!(chosen, "text/plain");
}

#[test]
fn negotiation_with_no_candidates_uses_preferred() {
    let candidates: Vec<String> = vec![];
    let chosen = negotiate_mime(&candidates, true, &"text/plain".to_owned());
    assert_eq!(chosen, "text/plain");
}

#[test]
fn image_mime_detection() {
    assert!(is_image_mime(&"image/png".to_owned()));
    assert!(is_image_mime(&"image/".to_owned()));
    assert!(!is_image_mime(&"image".to_owned()));
    assert!(!is_image_mime(&"text/plain".to_owned()));
}

#[test]
fn blank_text_is_dropped() {
    assert!(classify_text("i".to_owned(), "text/plain".to_owned(), "".to_owned()).is_none());
    assert!(
        classify_text("i".to_owned(), "text/plain".to_owned(), " \t\r\n".to_owned()).is_none()
    );
    assert!(
        classify_text("i".to_owned(), "text/plain".to_owned(), "\u{a0}\u{3000}".to_owned())
            .is_none()
    );
}

#[test]
fn nonblank_text_becomes_an_entry() {
    let it = classify_text("offer-9".to_owned(), "text/plain".to_owned(), " hi ".to_owned())
        .expect("non-blank text must commit");
    assert_eq!(it.id, "offer-9");
    match it.data {
        ItemData::Text(t) => {
            assert_eq!(t.text, " hi ");
            assert_eq!(t.mime, "text/plain");
        },
        _ => panic!("expected a text payload"),
    }
}

#[test]
fn sniffable_image_bytes_become_an_entry() {
    // A minimal PNG signature; infer recognises it.
    let png = vec![0x89, 0x50, 0x4E, 0x47, 0x0D, 0x0A, 0x1A, 0x0A, 0, 0];
    let it: Item = classify_image("offer-4".to_owned(), "image/png".to_owned(), png.clone())
        .expect("a known signature must be accepted");
    match it.data {
        ItemData::Image(im) => {
            assert_eq!(im.image, png);
            assert_eq!(im.mime, "image/png");
        },
        _ => panic!("expected an image payload"),
    }
}

#[test]
fn unsniffable_image_bytes_are_dropped() {
    let junk = vec![0x00, 0x01, 0x02, 0x03];
    assert!(classify_image("offer-5".to_owned(), "image/png".to_owned(), junk).is_none());
}

#[test]
fn registry_classification() {
    assert_eq!(classify_global(&"wl_seat".to_owned()), GlobalBind::Seat);
    assert_eq!(
        classify_global(&"ext_data_control_manager_v1".to_owned()),
        GlobalBind::Manager
    );
    assert_eq!(classify_global(&"wl_output".to_owned()), GlobalBind::Other);
}

#[test]
fn connection_setup_orders_device_after_both_globals() {
    let mut s = ProtocolState::new();
    assert_eq!(s.phase, Phase::Connecting);
    assert_eq!(s.step(ProtocolEvent::Global(GlobalBind::Seat)), ProtocolAction::BindSeat);
    assert_eq!(
        s.step(ProtocolEvent::Global(GlobalBind::Manager)),
        ProtocolAction::BindManager
    );
    // The first round-trip alone does not create the device.
    assert_eq!(s.step(ProtocolEvent::RoundtripComplete), ProtocolAction::Ignore);
    assert_eq!(s.step(ProtocolEvent::RoundtripComplete), ProtocolAction::CreateDevice);
    assert_eq!(s.step(ProtocolEvent::DeviceCreated), ProtocolAction::Ignore);
    assert_eq!(s.phase, Phase::Bound);
    assert!(s.device_created);
}

#[test]
fn device_is_not_created_before_the_seat_is_bound() {
    let mut s = ProtocolState::new();
    assert_eq!(
        s.step(ProtocolEvent::Global(GlobalBind::Manager)),
        ProtocolAction::BindManager
    );
    assert_eq!(s.step(ProtocolEvent::RoundtripComplete), ProtocolAction::Ignore);
    assert_eq!(s.step(ProtocolEvent::RoundtripComplete), ProtocolAction::Ignore);
    assert!(!s.device_created);
}

#[test]
fn offer_selection_transfer_cycle() {
    let mut s = ProtocolState::new();
    s.step(ProtocolEvent::Global(GlobalBind::Seat));
    s.step(ProtocolEvent::Global(GlobalBind::Manager));
    s.step(ProtocolEvent::RoundtripComplete);
    s.step(ProtocolEvent::RoundtripComplete);
    s.step(ProtocolEvent::DeviceCreated);
    assert_eq!(s.step(ProtocolEvent::NewOffer), ProtocolAction::NewLiveOffer);
    assert_eq!(s.phase, Phase::OfferAnnounced);
    assert_eq!(
        s.step(ProtocolEvent::SelectionChanged(true)),
        ProtocolAction::StartTransfer
    );
    assert_eq!(s.phase, Phase::Selecting);
    assert_eq!(
        s.step(ProtocolEvent::TransferFinished(true)),
        ProtocolAction::CommitPending
    );
    assert_eq!(s.phase, Phase::Idle);
}

#[test]
fn failed_transfer_drops_the_offer() {
    let mut s = ProtocolState::new();
    s.step(ProtocolEvent::Global(GlobalBind::Seat));
    s.step(ProtocolEvent::Global(GlobalBind::Manager));
    s.step(ProtocolEvent::RoundtripComplete);
    s.step(ProtocolEvent::RoundtripComplete);
    s.step(ProtocolEvent::DeviceCreated);
    s.step(ProtocolEvent::NewOffer);
    s.step(ProtocolEvent::SelectionChanged(true));
    assert_eq!(
        s.step(ProtocolEvent::TransferFinished(false)),
        ProtocolAction::DropLiveOffer
    );
    assert_eq!(s.phase, Phase::Idle);
}

#[test]
fn new_offer_supersedes_in_flight_offer() {
    let mut s = ProtocolState::new();
    s.step(ProtocolEvent::Global(GlobalBind::Seat));
    s.step(ProtocolEvent::Global(GlobalBind::Manager));
    s.step(ProtocolEvent::RoundtripComplete);
    s.step(ProtocolEvent::RoundtripComplete);
    s.step(ProtocolEvent::DeviceCreated);
    s.step(ProtocolEvent::NewOffer);
    assert_eq!(s.step(ProtocolEvent::NewOffer), ProtocolAction::NewLiveOffer);
    assert_eq!(s.phase, Phase::OfferAnnounced);
}

#[test]
fn selection_without_offer_returns_to_idle() {
    let mut s = ProtocolState::new();
    s.step(ProtocolEvent::Global(GlobalBind::Seat));
    s.step(ProtocolEvent::Global(GlobalBind::Manager));
    s.step(ProtocolEvent::RoundtripComplete);
    s.step(ProtocolEvent::RoundtripComplete);
    s.step(ProtocolEvent::DeviceCreated);
    s.step(ProtocolEvent::NewOffer);
    assert_eq!(
        s.step(ProtocolEvent::SelectionChanged(false)),
        ProtocolAction::DropLiveOffer
    );
    assert_eq!(s.phase, Phase::Idle);
}

#[test]
fn events_out_of_phase_are_ignored() {
    let mut s = ProtocolState::new();
    assert_eq!(s.step(ProtocolEvent::NewOffer), ProtocolAction::Ignore);
    assert_eq!(s.step(ProtocolEvent::TransferFinished(true)), ProtocolAction::Ignore);
    assert_eq!(s.phase, Phase::Connecting);
}
