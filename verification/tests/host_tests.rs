use tabdoc::config::Config;
use tabdoc::documents::{image, Document};
use tabdoc::host::{App, AppCommand, AppMessage};
use tabdoc::tabs::{self, Tab, ViewModel};
use tabdoc::toolbar;

fn app_with_home() -> App {
    App::new(Config { show_home_on_startup: true })
}

#[test]
fn startup_honors_the_preference() {
    let app = app_with_home();
    assert_eq!(app.tabs.view_model(), ViewModel::Home(0));
    let app = App::new(Config { show_home_on_startup: false });
    assert_eq!(app.tabs.view_model(), ViewModel::NoOpenTabs);
}

#[test]
fn open_file_pushes_tab_and_schedules_one_load() {
    let mut app = app_with_home();
    let cmd = app.update(AppMessage::OpenFile(b"a.jpg".to_vec()));
    assert!(matches!(cmd, AppCommand::LoadDocument(p) if p == b"a.jpg".to_vec()));
    assert!(app.documents.is_open(&b"a.jpg".to_vec()));
    assert_eq!(app.tabs.view_model(), ViewModel::Document(1));
    // A second open of the same path before the load completes: a new tab,
    // but no second registry entry and no second load.
    let cmd = app.update(AppMessage::OpenFile(b"a.jpg".to_vec()));
    assert!(matches!(cmd, AppCommand::Nothing));
    assert!(matches!(app.documents.get(&b"a.jpg".to_vec()), Some(Document::Loading)));
    assert_eq!(app.tabs.view_model(), ViewModel::Document(2));
}

#[test]
fn cancelled_file_dialog_is_a_noop() {
    let mut app = app_with_home();
    let cmd = app.update(AppMessage::OpenFile(Vec::new()));
    assert!(matches!(cmd, AppCommand::Nothing));
    assert_eq!(app.tabs.view_model(), ViewModel::Home(0));
    assert!(!app.documents.is_open(&b"".to_vec()));
}

#[test]
fn completed_load_replaces_the_placeholder() {
    let mut app = app_with_home();
    app.update(AppMessage::OpenFile(b"a.jpg".to_vec()));
    let img = image::State { width: 3, height: 2, rgba: vec![0; 24] };
    let cmd = app.update(AppMessage::FileOpened(b"a.jpg".to_vec(), Document::Image(img)));
    assert!(matches!(cmd, AppCommand::Nothing));
    match app.documents.get(&b"a.jpg".to_vec()) {
        Some(Document::Image(s)) => {
            assert_eq!((s.width, s.height), (3, 2));
        }
        _ => panic!("the registry should hold the loaded image"),
    }
}

#[test]
fn late_load_for_untracked_path_is_dropped() {
    let mut app = app_with_home();
    let img = image::State { width: 1, height: 1, rgba: vec![0; 4] };
    app.update(AppMessage::FileOpened(b"late.bmp".to_vec(), Document::Image(img)));
    assert!(app.documents.get(&b"late.bmp".to_vec()).is_none());
}

#[test]
fn failed_load_changes_nothing() {
    let mut app = app_with_home();
    app.update(AppMessage::OpenFile(b"bad.bmp".to_vec()));
    let cmd = app.update(AppMessage::FileError(b"bad.bmp".to_vec()));
    assert!(matches!(cmd, AppCommand::Nothing));
    assert!(matches!(app.documents.get(&b"bad.bmp".to_vec()), Some(Document::Loading)));
}

#[test]
fn toolbar_go_home_focuses_or_creates() {
    let mut app = App::new(Config { show_home_on_startup: false });
    let cmd = app.update(AppMessage::Toolbar(toolbar::Message::GoHome));
    assert!(matches!(cmd, AppCommand::Nothing));
    assert_eq!(app.tabs.view_model(), ViewModel::Home(0));
    app.update(AppMessage::Toolbar(toolbar::Message::AddCreateTab));
    assert_eq!(app.tabs.view_model(), ViewModel::Create(1));
    // Going home again focuses the existing home tab instead of adding one.
    app.update(AppMessage::Toolbar(toolbar::Message::GoHome));
    assert_eq!(app.tabs.view_model(), ViewModel::Home(0));
    assert_eq!(app.tabs.tab_bar().len(), 2);
}

#[test]
fn toolbar_open_file_asks_for_a_dialog() {
    let mut app = app_with_home();
    let cmd = app.update(AppMessage::Toolbar(toolbar::Message::OpenFile));
    assert!(matches!(cmd, AppCommand::BrowseFile));
}

#[test]
fn toolbar_close_all_clears_the_tabs() {
    let mut app = app_with_home();
    app.update(AppMessage::OpenFile(b"a.jpg".to_vec()));
    let cmd = app.update(AppMessage::Toolbar(toolbar::Message::CloseAll));
    assert!(matches!(cmd, AppCommand::Nothing));
    assert_eq!(app.tabs.view_model(), ViewModel::NoOpenTabs);
}

#[test]
fn browse_request_from_creation_tab_carries_its_key() {
    let mut app = App::new(Config { show_home_on_startup: false });
    app.update(AppMessage::Toolbar(toolbar::Message::AddCreateTab));
    let cmd = app.update(AppMessage::Tab(tabs::Message::Create(
        0,
        tabs::create::Message::Browse,
    )));
    assert!(matches!(cmd, AppCommand::BrowseDirectory(0)));
    let cmd = app.update(AppMessage::Tab(tabs::Message::Create(
        0,
        tabs::create::Message::ChangeDirectory(b"/home".to_vec()),
    )));
    assert!(matches!(cmd, AppCommand::Nothing));
    match app.tabs.current().expect("creation tab is current").1 {
        Tab::Create(state) => assert_eq!(state.directory.as_deref(), Some(b"/home".as_slice())),
        _ => panic!("expected the creation tab"),
    }
}

#[test]
fn quit_asks_for_save_and_close() {
    let mut app = app_with_home();
    app.update(AppMessage::Tab(tabs::Message::Home(
        0,
        tabs::home::Message::ChangeShowOnStartup(false),
    )));
    let cmd = app.update(AppMessage::Quit);
    assert!(matches!(cmd, AppCommand::Quit));
    assert_eq!(
        app.config.to_json_bytes(),
        b"{\"show_home_on_startup\":false}".to_vec()
    );
}
