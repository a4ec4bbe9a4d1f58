//! Configuration commands.

pub mod doctor;
pub mod doctor_laws;
