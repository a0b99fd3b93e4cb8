//! Self-contained widgets: log viewer, notifications, terminal emulator.
pub mod confirm;
pub mod icons;
pub mod log_view;
pub mod toast;
pub mod yaml_edit;
pub mod term;
