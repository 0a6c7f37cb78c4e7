use wayclip::cli::{Cli, Commands};
use wayclip::config::{Config, General};
use wayclip::error::Error;
use wayclip::item::{ImageItem, Item, ItemData, TextItem};
use wayclip::menu::{handle_pick, init, presentable_items, Menu};

struct FixedMenu {
    outcome: Result<Option<(String, usize)>, Error>,
}

impl Menu for FixedMenu {
    fn show(&mut self) -> Result<Option<(String, usize)>, Error> {
        self.outcome.clone()
    }
}

fn text_item(id: &str, text: &str) -> Item {
    Item {
        id: id.to_owned(),
        data: ItemData::Text(TextItem {
            text: text.to_owned(),
            mime: "text/plain".to_owned(),
        }),
    }
}

#[test]
fn display_list_is_newest_first_text_only() {
    let hist = vec![
        text_item("1", "oldest"),
        Item {
            id: "2".to_owned(),
            data: ItemData::Image(ImageItem {
                image: vec![1, 2],
                mime: "image/png".to_owned(),
            }),
        },
        text_item("3", "newest"),
    ];
    let list = presentable_items(&hist);
    // The image keeps its display index but is not presented.
    assert_eq!(
        list,
        vec![("newest".to_owned(), 0usize), ("oldest".to_owned(), 2usize)]
    );
}

#[test]
fn display_list_of_empty_history_is_empty() {
    let hist: Vec<Item> = vec![];
    assert!(presentable_items(&hist).is_empty());
}

#[test]
fn init_hands_through_an_available_backend() {
    let r = init(Some(FixedMenu { outcome: Ok(None) }));
    assert!(r.is_ok());
}

#[test]
fn init_without_backend_is_the_no_menu_error() {
    let r: Result<FixedMenu, Error> = init(None);
    match r {
        Err(Error::NoMenu) => {},
        _ => panic!("expected the no-menu error"),
    }
}

#[test]
fn pick_outcomes() {
    let sel = ("text".to_owned(), 1usize);
    assert_eq!(handle_pick(Ok(Some(sel.clone()))), Some(sel));
    assert_eq!(handle_pick(Ok(None)), None);
    assert_eq!(handle_pick(Err(Error::BMenu("boom".to_owned()))), None);
}

#[test]
fn error_messages() {
    assert_eq!(Error::NoMenu.message(), "no menu backend available");
    assert_eq!(Error::BMenu("boom".to_owned()).message(), "boom");
}

#[test]
fn cli_effective_defaults_to_start() {
    assert_eq!(Cli { command: None }.effective(), Commands::Start);
    assert_eq!(
        Cli { command: Some(Commands::Toggle) }.effective(),
        Commands::Toggle
    );
}

#[test]
fn config_defaults() {
    let c = Config::default();
    assert_eq!(c.general.max_history, 0);
    assert_eq!(c.general.menu, "bemenu");
    assert!(!c.general.allow_images);
    assert_eq!(c.data.mime, "text/plain");
    assert!(c.data.dedupe);
    assert!(c.encryption.encrypt);
    assert!(c.encryption.key.is_none());
    assert_eq!(c.bemenu.font, "monospace 12");
    assert_eq!(c.bemenu.title, "search >");
    assert_eq!(c.bemenu.lines, 15);
    assert!(c.bemenu.grab_focus);
    assert_eq!(c.bemenu.monitor, -1);
    let g = General::default();
    assert_eq!(g.max_history, 0);
}
