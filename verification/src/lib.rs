//! Clowder: a verified model of a lab's machine-reservation system.
//!
//! The library tracks users, roles, machines and time-boxed reservations of
//! those machines.  Persistence, HTTP and HTML rendering live outside the
//! library; everything here is plain data and verified logic.

pub mod db;
pub mod error;
pub mod html;
pub mod time;
pub mod util;
