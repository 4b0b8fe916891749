//! Verified logic of a set of UI widgets (list box, menu, scrollbar, number input)
//! and of the access bookkeeping that decides whether a system's parameters can
//! run together.

pub mod ids;
pub mod access;
pub mod world;
pub mod system;
pub mod query;
pub mod list;
pub mod theme;
pub mod menu;
pub mod scrollbar;
pub mod number_input;
