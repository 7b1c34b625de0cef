//! Interactive launcher core: discovers runnable "example" targets in a
//! build-metadata document, resolves an operator's choice (or a batch run over
//! every target), and plans the dispatch of the external run command.
//!
//! The crate holds the decision logic only. Spawning processes, reading the
//! operator's input and parsing the raw metadata text happen outside; they
//! hand this library plain values and take plain values back.

pub mod dispatch;
pub mod doc;
pub mod error;
pub mod extract;
pub mod mode;
pub mod select;
pub mod text;
