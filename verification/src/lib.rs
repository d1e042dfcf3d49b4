//! A readiness-based event notification library: readiness sets, a
//! user-space readiness queue, a hashed timing wheel and the bookkeeping
//! around epoll registrations.

pub mod token;
pub mod event_imp;
pub mod sys;
pub mod poll;
pub mod timer;
pub mod io;
pub mod lazycell;
pub mod channel;
pub mod net;
pub mod deprecated;
