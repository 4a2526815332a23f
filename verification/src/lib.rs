pub mod bytes;
pub mod error;
pub mod method;
pub mod net;
pub mod rules;
pub mod text;
pub mod sched;
pub mod keyproto;
pub mod num;
pub mod status;
pub mod mime;
pub mod io;
pub mod config;
pub mod governor;
pub mod static_files;
pub mod fd_cache;
pub mod cache;
pub mod ctl;
pub mod atom;
pub mod plugin;
pub mod jail;
pub mod seccomp;
pub mod json;
