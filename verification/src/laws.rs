//! What the operations of the library are for.
//!
//! Each law speaks of the results of an operation in terms of what it was
//! given, whatever the operation does in between.
pub mod commands;
pub mod declarations;
pub mod messages;
pub mod places;
pub mod processes;
pub mod proxy;
pub mod routing;
pub mod sandbox;
pub mod session;
pub mod sources;
pub mod startup;
pub mod texts;
