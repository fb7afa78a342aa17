//! A countdown to one fixed moment, broadcast as server-sent events.
//!
//! The crate holds what the server decides: how far away the moment is
//! ([`moment`]), how the time left is split and written ([`countdown`]), who
//! is sent each frame and who is dropped ([`broker`]), and what each request
//! is answered with ([`service`]). Sockets, timers, queues and the clock
//! belong to the program around it.

pub mod broker;
pub mod countdown;
pub mod moment;
pub mod service;
