//! A small source-level debugger core, together with the list, factoring,
//! work-sharing and proxy building blocks that ship alongside it.

pub mod balancebeam;
pub mod breakpoints;
pub mod controller;
pub mod debugger;
pub mod farm;
pub mod inferior;
pub mod laws;
pub mod linked_list;
pub mod messages;
pub mod parallel_map;
pub mod prompt;
pub mod protocol;
pub mod symbols;
pub mod text;
pub mod unwinder;
