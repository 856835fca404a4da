//! Small networking and file-naming tools: an HTTP/1.1 request reader and
//! router, a Redis frame codec and key-value responder, course and teacher
//! record handling, file renaming rules and a singly linked list.

pub mod text;
pub mod textmap;
pub mod http;
pub mod router;
pub mod node;
pub mod rename;
pub mod fixmoviename;
pub mod renamepngname;
pub mod redis;
pub mod frame_scan;
pub mod redis_server;
pub mod read_buffer;
pub mod course;
pub mod memory_course;
pub mod web_demo;
