pub mod ready;
pub mod duration;
pub mod epoll;
