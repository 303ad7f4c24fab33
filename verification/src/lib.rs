//! A registry of complaints filed against taxi drivers.
//!
//! The registry records drivers, the complaints against them, pictures of
//! both, and the places where complaints are located. It works over two
//! ports, a store of records and a storage of picture files, which
//! [`port`] lays down together with what each of their operations owes.
//! [`service`] holds the operations of the registry itself: filing a
//! complaint, which resolves or creates the driver first, and the views
//! that join drivers, complaints and pictures page by page. [`store`] is
//! the mathematical model that all contracts speak of, [`laws`] proves
//! what follows from them, and [`memory`] holds both ports in memory.

pub mod api;
mod clock;
pub mod compose;
pub mod error;
pub mod ident;
pub mod laws;
pub mod memory;
pub mod model;
pub mod pagination;
pub mod port;
pub mod service;
pub mod store;
pub mod table;
pub mod text;
