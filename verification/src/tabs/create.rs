//! The file-creation tab.
//!
//! A draft form: a file name, a file type and a directory. Browsing for a
//! directory needs a native dialog, which the library cannot run; the update
//! returns an action asking the caller to run one and feed the chosen
//! directory back as a `ChangeDirectory` message.

use vstd::prelude::*;

verus! {

#[derive(Clone, Copy, PartialEq, Eq, Structural, Debug)]
pub enum FileType {
    Text,
    Bitmap,
}

/// The draft state of the form.
pub struct State {
    pub file_name: String,
    pub file_type: Option<FileType>,
    pub directory: Option<Vec<u8>>,
}

pub enum Message {
    Browse,
    ChangeFileName(String),
    ChangeFileType(FileType),
    ChangeDirectory(Vec<u8>),
}

/// What the caller must do after an update.
pub enum Action {
    Nothing,
    BrowseDirectory,
}

impl State {
    /// An empty draft: no name, no type, no directory.
    pub open spec fn is_initial(self) -> bool {
        self.file_name@ == Seq::<char>::empty() && self.file_type is None
            && self.directory is None
    }

    /// What a form message does to the draft.
    pub open spec fn spec_update(s: State, message: Message) -> (State, Action) {
        match message {
            Message::Browse => (s, Action::BrowseDirectory),
            Message::ChangeFileName(n) => (
                State { file_name: n, file_type: s.file_type, directory: s.directory },
                Action::Nothing,
            ),
            Message::ChangeFileType(t) => (
                State { file_name: s.file_name, file_type: Some(t), directory: s.directory },
                Action::Nothing,
            ),
            Message::ChangeDirectory(d) => (
                State { file_name: s.file_name, file_type: s.file_type, directory: Some(d) },
                Action::Nothing,
            ),
        }
    }

    pub fn new() -> (s: State)
        ensures
            s.is_initial(),
    {
        State { file_name: String::new(), file_type: None, directory: None }
    }

    pub fn update(&mut self, message: Message) -> (a: Action)
        ensures
            (*final(self), a) == State::spec_update(*old(self), message),
    {
        match message {
            Message::Browse => Action::BrowseDirectory,
            Message::ChangeFileName(n) => {
                self.file_name = n;
                Action::Nothing
            },
            Message::ChangeFileType(t) => {
                self.file_type = Some(t);
                Action::Nothing
            },
            Message::ChangeDirectory(d) => {
                self.directory = Some(d);
                Action::Nothing
            },
        }
    }
}

} // verus!
