//! A terminal application launcher: it reads the descriptor files of installed programs
//! into a catalog, filters the catalog by name as the user types, and hands the selected
//! program over, either in place of the launcher or in a detached child process that
//! outlives the terminal.
use vstd::prelude::*;

pub mod ancestry;
pub mod application;
pub mod application_list;
pub mod catalog;
pub mod desktop_entry;
pub mod filter;
pub mod input;
pub mod launch;
pub mod launcher;
pub mod text;

verus! {

} // verus!
