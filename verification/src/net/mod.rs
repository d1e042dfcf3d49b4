pub mod event_loop;
pub mod connection;
pub mod acceptor;
pub mod tcp_server;
