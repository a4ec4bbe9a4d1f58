//! Interactive patch selection: the diff model and its parser, splitting,
//! hand-editing, applying, and the prompt session.

pub mod answer_laws;
pub mod apply;
pub mod apply_laws;
pub mod edit;
pub mod edit_laws;
pub mod laws;
pub mod model;
pub mod parse_laws;
pub mod session;
