//! The toolbar.
//!
//! A stateless command surface: each button press becomes a high-level action
//! on the tab collection. Opening a file needs a native dialog the toolbar
//! cannot run itself, so that press is handed back to the caller as an
//! action.

use vstd::prelude::*;
use crate::tabs;
use crate::tabs::{Tab, TabKind, Tabs, TabsView};

verus! {

pub enum Message {
    GoHome,
    AddCreateTab,
    OpenFile,
    CloseAll,
}

/// What the caller must do after an update: nothing, or run a file dialog
/// and feed the choice back to the host.
pub enum Action {
    Nothing,
    OpenFile,
}

/// What a toolbar message does to the collection. Going home focuses the
/// first home tab or creates one; a new creation tab starts from the empty
/// draft; opening a file changes nothing here; closing all clears the
/// collection.
pub open spec fn spec_toolbar_update(v0: TabsView, m: Message, v1: TabsView, a: Action) -> bool {
    match m {
        Message::GoHome => a == Action::Nothing && match tabs::first_match(v0.tabs, TabKind::Home) {
            Some(i) => v1 == tabs::spec_switch_to(v0, v0.tabs[i].0),
            None => v1 == tabs::spec_push(v0, Tab::Home),
        },
        Message::AddCreateTab => a == Action::Nothing && (exists|st: crate::tabs::create::State|
            #[trigger] st.is_initial() && v1 == tabs::spec_push(v0, Tab::Create(st))),
        Message::OpenFile => v1 == v0 && a == Action::OpenFile,
        Message::CloseAll => v1 == tabs::spec_clear(v0) && a == Action::Nothing,
    }
}

pub fn update(tabs: &mut Tabs, message: Message) -> (a: Action)
    requires
        old(tabs)@.wf(),
        old(tabs)@.next_id < usize::MAX,
    ensures
        final(tabs)@.wf(),
        spec_toolbar_update(old(tabs)@, message, final(tabs)@, a),
{
    let ghost v0 = tabs@;
    match message {
        Message::GoHome => {
            if !tabs.switch_to_first(TabKind::Home) {
                tabs.push(crate::tabs::new_home_tab());
            }
            Action::Nothing
        },
        Message::AddCreateTab => {
            let t = crate::tabs::new_create_tab();
            tabs.push(t);
            proof {
                assert(exists|st: crate::tabs::create::State|
                    #[trigger] st.is_initial() && tabs@ == tabs::spec_push(v0, Tab::Create(st)));
            }
            Action::Nothing
        },
        Message::OpenFile => Action::OpenFile,
        Message::CloseAll => {
            let _ = tabs.clear();
            Action::Nothing
        },
    }
}

} // verus!
