//! Pieces shared by the front end and the back end.

pub mod io;
pub mod number;
pub mod pakhi_error;
pub mod platform;
pub mod text;
