use tabdoc::tabs::{
    new_create_tab, new_document_tab, new_home_tab, Message, Tab, TabKind, Tabs, ViewModel,
};
use tabdoc::config::Config;
use tabdoc::tabs::create;
use tabdoc::documents::{self, Document, Documents};

#[test]
fn new_collection_selects_last_pushed() {
    let tabs = Tabs::new(vec![new_home_tab(), new_create_tab()]);
    assert!(tabs.is_current(1));
    let cur = tabs.current().expect("a tab should be current");
    assert_eq!(cur.0, 1);
    assert!(matches!(cur.1, Tab::Create(_)));
}

#[test]
fn close_reveals_previous_then_placeholder() {
    // Tabs [Home(0), Create(1)], current = 1.
    let mut tabs = Tabs::new(vec![new_home_tab(), new_create_tab()]);
    assert!(tabs.is_current(1));
    let closed = tabs.close(1);
    assert!(matches!(closed, Some(Tab::Create(_))));
    assert!(tabs.is_current(0));
    let closed = tabs.close(0);
    assert!(matches!(closed, Some(Tab::Home)));
    assert!(tabs.current().is_none());
    assert_eq!(tabs.view_model(), ViewModel::NoOpenTabs);
}

#[test]
fn close_most_recent_push_restores_current() {
    let mut tabs = Tabs::new(vec![new_home_tab()]);
    assert!(tabs.is_current(0));
    tabs.push(new_document_tab(b"/tmp/a.txt".to_vec()));
    assert!(tabs.is_current(1));
    tabs.close(1);
    assert!(tabs.is_current(0));
}

#[test]
fn close_absent_key_is_noop() {
    let mut tabs = Tabs::new(vec![new_home_tab(), new_create_tab()]);
    let before = tabs.tab_bar();
    let closed = tabs.close(99);
    assert!(closed.is_none());
    assert_eq!(tabs.tab_bar(), before);
    assert!(tabs.is_current(1));
}

#[test]
fn close_after_switch_back_reveals_other() {
    // History [0, 1, 0]; closing 0 must reveal 1, not a stale 0.
    let mut tabs = Tabs::new(vec![new_home_tab(), new_create_tab()]);
    tabs.switch_to(0);
    assert!(tabs.is_current(0));
    tabs.close(0);
    assert!(tabs.is_current(1));
}

#[test]
fn switch_to_first_over_empty_is_false() {
    let mut tabs = Tabs::new(vec![]);
    assert!(tabs.current().is_none());
    assert!(!tabs.switch_to_first(TabKind::Home));
    assert!(tabs.current().is_none());
    assert_eq!(tabs.view_model(), ViewModel::NoOpenTabs);
}

#[test]
fn switch_to_first_picks_key_order() {
    let mut tabs = Tabs::new(vec![new_create_tab(), new_home_tab(), new_home_tab()]);
    assert!(tabs.is_current(2));
    assert!(tabs.switch_to_first(TabKind::Home));
    assert!(tabs.is_current(1));
}

#[test]
fn clear_empties_and_shows_placeholder() {
    let mut tabs = Tabs::new(vec![new_home_tab(), new_create_tab()]);
    let removed = tabs.clear();
    assert_eq!(removed.len(), 2);
    assert!(tabs.current().is_none());
    assert_eq!(tabs.view_model(), ViewModel::NoOpenTabs);
    assert_eq!(tabs.tab_bar().len(), 0);
    // No stale key: closing an old key is still a no-op.
    assert!(tabs.close(0).is_none());
}

#[test]
fn keys_are_never_reused_after_clear() {
    let mut tabs = Tabs::new(vec![new_home_tab()]);
    tabs.clear();
    tabs.push(new_home_tab());
    assert!(tabs.is_current(1));
}

#[test]
fn labels_name_tabs_and_files() {
    assert_eq!(new_home_tab().label(), b"Home".to_vec());
    assert_eq!(new_create_tab().label(), b"New".to_vec());
    assert_eq!(
        new_document_tab(b"/home/user/photo.jpg".to_vec()).label(),
        b"photo.jpg".to_vec()
    );
    assert_eq!(new_document_tab(b"plain.txt".to_vec()).label(), b"plain.txt".to_vec());
}

#[test]
fn tab_bar_lists_keys_labels_and_selection() {
    let mut tabs = Tabs::new(vec![new_home_tab()]);
    tabs.push(new_document_tab(b"dir/a.bmp".to_vec()));
    let bar = tabs.tab_bar();
    assert_eq!(bar.len(), 2);
    assert_eq!(bar[0], (0, b"Home".to_vec(), false));
    assert_eq!(bar[1], (1, b"a.bmp".to_vec(), true));
}

#[test]
fn update_switches_and_closes() {
    let mut config = Config { show_home_on_startup: true };
    let mut documents = Documents::new();
    let mut tabs = Tabs::new(vec![new_home_tab(), new_create_tab()]);
    tabs.update(&mut config, &mut documents, Message::SwitchTo(0));
    assert!(tabs.is_current(0));
    tabs.update(&mut config, &mut documents, Message::Close(0));
    assert!(tabs.is_current(1));
    // Switching to an absent key changes nothing.
    tabs.update(&mut config, &mut documents, Message::SwitchTo(7));
    assert!(tabs.is_current(1));
}

#[test]
fn document_messages_change_nothing_yet() {
    let mut config = Config { show_home_on_startup: true };
    let mut documents = Documents::new();
    documents.open(b"pic.bmp".to_vec());
    let mut tabs = Tabs::new(vec![new_document_tab(b"pic.bmp".to_vec())]);
    tabs.update(&mut config, &mut documents, Message::Document(0, documents::Message::Noop));
    assert!(matches!(documents.get(&b"pic.bmp".to_vec()), Some(Document::Loading)));
    assert!(tabs.is_current(0));
}

#[test]
fn update_routes_home_message_to_config() {
    let mut config = Config { show_home_on_startup: true };
    let mut documents = Documents::new();
    let mut tabs = Tabs::new(vec![new_home_tab()]);
    tabs.update(
        &mut config,
        &mut documents,
        Message::Home(0, tabdoc::tabs::home::Message::ChangeShowOnStartup(false)),
    );
    assert!(!config.show_home_on_startup);
    // A home message keyed to a missing tab does nothing.
    tabs.update(
        &mut config,
        &mut documents,
        Message::Home(3, tabdoc::tabs::home::Message::ChangeShowOnStartup(true)),
    );
    assert!(!config.show_home_on_startup);
}

#[test]
fn update_routes_create_messages_to_form() {
    let mut config = Config { show_home_on_startup: true };
    let mut documents = Documents::new();
    let mut tabs = Tabs::new(vec![new_create_tab()]);
    let a = tabs.update(
        &mut config,
        &mut documents,
        Message::Create(0, create::Message::ChangeFileName("notes".to_string())),
    );
    assert!(matches!(a, tabdoc::tabs::Action::Nothing));
    let a = tabs.update(&mut config, &mut documents, Message::Create(0, create::Message::Browse));
    assert!(matches!(a, tabdoc::tabs::Action::BrowseDirectory(0)));
    let a = tabs.update(
        &mut config,
        &mut documents,
        Message::Create(0, create::Message::ChangeDirectory(b"/tmp".to_vec())),
    );
    assert!(matches!(a, tabdoc::tabs::Action::Nothing));
    let cur = tabs.current().expect("creation tab is current");
    match cur.1 {
        Tab::Create(state) => {
            assert_eq!(state.file_name, "notes");
            assert_eq!(state.directory.as_deref(), Some(b"/tmp".as_slice()));
        }
        _ => panic!("expected the creation tab"),
    }
}
