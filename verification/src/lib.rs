use vstd::prelude::*;

pub mod text;
pub mod paths;
pub mod history;
pub mod action;
pub mod error;
pub mod settings;
pub mod keys;
pub mod search;
pub mod listing;
pub mod app_state;
pub mod markup;
pub mod help;
pub mod cli_text;

verus! {
} // verus!
