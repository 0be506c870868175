//! A terminal task tracker's core: task records with a cyclic status,
//! an ordered task store with a persistence codec, a three-field input
//! form, and the two-screen view-controller state machine.

pub mod app;
pub mod clock;
pub mod codec;
pub mod digits;
pub mod form;
pub mod store;
pub mod task;
pub mod text;
