pub mod parse;
pub mod encode;
pub mod access_log;
pub mod engine;
pub mod epoll;
pub mod detect;
pub mod proto;
pub mod h1;
pub mod pin;
pub mod frame;
pub mod listen;
