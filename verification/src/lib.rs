//! Logic of an interactive browser for a zsh history database.

pub mod db;
pub mod format;
pub mod text;
pub mod tui;

use vstd::prelude::*;

verus! {

}
