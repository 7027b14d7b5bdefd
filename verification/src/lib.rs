//! Core of a multi-instance launcher: finding the running instances of one
//! executable, finding in each the named kernel object that keeps a second
//! instance from starting, and closing that object's handle in the process
//! that owns it.
//!
//! The library holds the decisions and the decoding. Every call into the
//! operating system is made by the application, which hands the library the
//! bytes and status codes that came back.

pub mod app;
pub mod child;
pub mod cycle;
pub mod handles;
pub mod inspect;
pub mod launch;
pub mod layout;
pub mod logbook;
pub mod names;
pub mod query;
pub mod registry;
pub mod report;
pub mod scan;
pub mod scr;
pub mod settings;

pub use child::SCRStruct;
pub use launch::APP_NAME;
