//! The host.
//!
//! Wires the configuration, the tab collection and the document registry
//! together and routes every message between them. The host cannot read
//! files, run dialogs or close windows itself: whenever one of those is
//! needed, `update` returns a command and the surrounding program performs
//! it, feeding the outcome back in as another message.

use vstd::prelude::*;
use crate::config::Config;
use crate::documents::{self, Document, Documents};
use crate::paths;
use crate::tabs;
use crate::tabs::{Tab, Tabs, TabsView};
use crate::toolbar;

verus! {

/// The whole application state.
pub struct App {
    pub config: Config,
    pub tabs: Tabs,
    pub documents: Documents,
}

/// Every message the event loop can deliver to the host.
pub enum AppMessage {
    Tab(tabs::Message),
    Toolbar(toolbar::Message),
    OpenFile(Vec<u8>),
    FileOpened(Vec<u8>, Document),
    FileError(Vec<u8>),
    Quit,
}

/// What the surrounding program must perform after an update: run a file or
/// directory dialog, read and load a file's bytes, or save the configuration
/// and close the window.
pub enum AppCommand {
    Nothing,
    BrowseFile,
    BrowseDirectory(usize),
    LoadDocument(Vec<u8>),
    Quit,
}

impl App {
    pub open spec fn wf(self) -> bool {
        self.tabs@.wf() && self.documents.wf()
    }

    /// Starts with an empty registry and, when the preference asks for it, a
    /// single home tab.
    pub fn new(config: Config) -> (app: App)
        ensures
            app.wf(),
            app.config == config,
            app.documents@ == Map::<Seq<u8>, Document>::empty(),
            app.tabs@ == if config.show_home_on_startup {
                tabs::spec_push(TabsView::empty(), Tab::Home)
            } else {
                TabsView::empty()
            },
    {
        let mut start: Vec<Tab> = Vec::new();
        if config.show_home_on_startup {
            start.push(tabs::new_home_tab());
        }
        let ghost sv = start@;
        let t = Tabs::new(start);
        proof {
            if config.show_home_on_startup {
                assert(sv.len() == 1);
                assert(sv.drop_last() =~= Seq::<Tab>::empty());
                assert(sv.last() == Tab::Home);
                assert(tabs::spec_new(Seq::<Tab>::empty()) == TabsView::empty());
                assert(tabs::spec_new(sv) == tabs::spec_push(TabsView::empty(), Tab::Home));
            } else {
                assert(sv =~= Seq::<Tab>::empty());
            }
        }
        App { config, tabs: t, documents: Documents::new() }
    }

    /// Routes one message and says what to perform next.
    pub fn update(&mut self, message: AppMessage) -> (cmd: AppCommand)
        requires
            old(self).wf(),
            old(self).tabs@.next_id < usize::MAX,
        ensures
            final(self).wf(),
            match message {
                AppMessage::Tab(m) => ({
                    let r = tabs::spec_tabs_update(old(self).tabs@, old(self).config, m);
                    &&& final(self).tabs@ == r.0
                    &&& final(self).config == r.1
                    &&& final(self).documents@ == old(self).documents@
                    &&& cmd == match r.2 {
                        tabs::Action::BrowseDirectory(k) => AppCommand::BrowseDirectory(k),
                        tabs::Action::Nothing => AppCommand::Nothing,
                    }
                }),
                AppMessage::Toolbar(m) => ({
                    let a = if cmd is BrowseFile {
                        toolbar::Action::OpenFile
                    } else {
                        toolbar::Action::Nothing
                    };
                    &&& toolbar::spec_toolbar_update(old(self).tabs@, m, final(self).tabs@, a)
                    &&& (cmd is BrowseFile || cmd is Nothing)
                    &&& final(self).config == old(self).config
                    &&& final(self).documents@ == old(self).documents@
                }),
                AppMessage::OpenFile(path) => if path@.len() == 0 {
                    *final(self) == *old(self) && cmd is Nothing
                } else {
                    &&& exists|p: Vec<u8>| #![auto] p@ == path@ && final(self).tabs@
                        == tabs::spec_push(old(self).tabs@, Tab::Document(p))
                    &&& final(self).documents@ == documents::spec_open(
                        old(self).documents@,
                        path@,
                    ).0
                    &&& final(self).config == old(self).config
                    &&& if documents::spec_open(old(self).documents@, path@).1 {
                        cmd matches AppCommand::LoadDocument(q) && q@ == path@
                    } else {
                        cmd is Nothing
                    }
                },
                AppMessage::FileOpened(path, doc) => ({
                    &&& final(self).documents@ == if old(self).documents@.contains_key(path@) {
                        old(self).documents@.insert(path@, doc)
                    } else {
                        old(self).documents@
                    }
                    &&& final(self).tabs@ == old(self).tabs@
                    &&& final(self).config == old(self).config
                    &&& cmd is Nothing
                }),
                AppMessage::FileError(_) => *final(self) == *old(self) && cmd is Nothing,
                AppMessage::Quit => *final(self) == *old(self) && cmd is Quit,
            },
    {
        match message {
            AppMessage::Tab(m) => {
                let a = self.tabs.update(&mut self.config, &mut self.documents, m);
                match a {
                    tabs::Action::BrowseDirectory(k) => AppCommand::BrowseDirectory(k),
                    tabs::Action::Nothing => AppCommand::Nothing,
                }
            },
            AppMessage::Toolbar(m) => {
                let a = toolbar::update(&mut self.tabs, m);
                match a {
                    toolbar::Action::OpenFile => AppCommand::BrowseFile,
                    toolbar::Action::Nothing => AppCommand::Nothing,
                }
            },
            AppMessage::OpenFile(path) => {
                if path.len() == 0 {
                    return AppCommand::Nothing;
                }
                let tab_path = paths::clone_path(&path);
                let cmd_path = paths::clone_path(&path);
                self.tabs.push(tabs::new_document_tab(tab_path));
                let needs_load = self.documents.open(path);
                if needs_load {
                    AppCommand::LoadDocument(cmd_path)
                } else {
                    AppCommand::Nothing
                }
            },
            AppMessage::FileOpened(path, doc) => {
                self.documents.replace(path, doc);
                AppCommand::Nothing
            },
            AppMessage::FileError(_path) => AppCommand::Nothing,
            AppMessage::Quit => AppCommand::Quit,
        }
    }
}

} // verus!
