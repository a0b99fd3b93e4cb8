//! Verified core of the KubeWatch desktop client: the data structures, parsers
//! and formatting rules behind its screens and widgets.
pub mod text;
pub mod units;
pub mod views;
pub mod widgets;
