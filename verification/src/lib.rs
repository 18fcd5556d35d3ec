//! Run the same read-only or mutating operation over many repositories and
//! report the outcome as one text or JSON document.
//!
//! The library holds what is decided and computed; it reads no file and
//! runs no command. Its caller hands it what was read: the text of the
//! configuration, what was found at each configured directory, and what
//! the commands wrote for each repository.
//!
//! - [`util`] turns the configuration into the lists of included and
//!   excluded repositories, finds the common ancestor of a list of paths,
//!   and names a repository in text and in JSON.
//! - [`vcs`] says which queries an operation asks of a repository, turns
//!   the answers into what the operation reports, and joins the reports
//!   of all repositories into one.
//! - [`path`], [`text`] and [`order`] hold the model underneath: paths as
//!   sequences of components, text as sequences of characters, and the
//!   orders by which both are sorted.
//! - [`ansi_escape`] holds the escape sequences for coloured output, and
//!   [`error`] what can go wrong.

pub mod ansi_escape;
pub mod error;
pub mod order;
pub mod path;
pub mod text;
pub mod util;
pub mod vcs;
