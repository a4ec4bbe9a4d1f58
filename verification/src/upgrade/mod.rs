//! The upgrade subsystem.

pub mod home;
