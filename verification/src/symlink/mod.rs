//! Deciding which skills to install, upgrade or reinstall.
pub mod auto_install;
pub mod upgrade;
