//! Scanning, sizing, grouping and cleaning of developer build artefacts,
//! with a session trash that can be restored.
//!
//! The decisions and all text that the tool shows are computed here and
//! proved against their contracts; walking the disk, prompting and moving
//! files happen in the program around the library.

pub mod cleaner;
pub mod display;
pub mod emptying;
pub mod float;
pub mod paths;
pub mod scanner;
pub mod sort;
pub mod text;
pub mod trash;
pub mod undoing;
pub mod update;
