//! TabDoc core: the verified state of a tabbed document shell.
//!
//! The library holds the logic of the application: the configuration file
//! codec, the path-keyed document registry, the tab collection with its
//! most-recently-used history, and the message dispatch that drives them.
//! Rendering, file dialogs and disk access live outside the library and talk
//! to it through plain values.

pub mod config;
pub mod documents;
pub mod host;
pub mod paths;
pub mod tabs;
pub mod toolbar;
