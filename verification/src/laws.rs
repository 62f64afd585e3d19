//! What the operations are for, said of their inputs and results alone:
//! numbers by the place of their digits, messages by the place of their
//! fields, text by what it is made of.

pub mod calls;
pub mod exchange;
pub mod messages;
pub mod numbers;
pub mod refusals;
pub mod streams;
pub mod targets;
pub mod views;
pub mod wire;
