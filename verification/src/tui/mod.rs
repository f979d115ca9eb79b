//! State of the terminal interfaces: the scan selection list and the
//! launcher form, and what their keys do.
pub mod app;
pub mod input;
pub mod keys;
pub mod scan_app;
pub mod scan_input;
pub mod launch;
pub mod scan_ui;
pub mod ui;
