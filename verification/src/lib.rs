//! Target discovery for Makefiles.
//!
//! The library lists the targets that a Makefile declares, by looking at
//! its lines rather than by interpreting it, and remembers the list of each
//! file for as long as the file's text stays the same.
//!
//! - [`classify`] tells what one line is: a variable assignment, a
//!   target-scoped assignment, the declaration of a target, or none of
//!   these.
//! - [`scan`] picks the declarations that are listed, [`describe`] derives a
//!   target's description from the comments around its declaration, and
//!   [`vars`] the variables that its recipe asks for.
//! - [`makefile`] puts these together into the extraction of a whole file,
//!   and states what holds of every extraction.
//! - [`cache`] keeps extractions under the paths of their files and answers
//!   for a file only while the fingerprint of its text, computed by
//!   [`hash`], is the one recorded.
//! - [`discover`] names the files that are Makefiles and merges the targets
//!   of several files into one list sorted by name.
//! - [`cli`], [`display`], [`executor`] and [`prompt`] hold what the
//!   command line, the listing, the runner and the prompts decide.
//! - [`text`] and [`order`] define the operations on character sequences
//!   that all of this is stated in; [`target`] defines the data.
//!
//! Strings are modelled by their sequences of characters. What the `regex`,
//! `sha2` and `hex` crates compute is taken on trust, in [`pattern`] and
//! [`hash`]; everything else is proved against the contracts given here.

pub mod cache;
pub mod classify;
pub mod cli;
pub mod describe;
pub mod discover;
pub mod display;
pub mod executor;
pub mod hash;
pub mod makefile;
pub mod order;
pub mod pattern;
pub mod prompt;
pub mod scan;
pub mod target;
pub mod text;
pub mod vars;
