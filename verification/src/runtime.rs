//! The engine's runtime support: the arena allocator messages are built in,
//! the mapper that carries fields from one message into another, the links
//! between a pipeline's nodes, and the events plugins raise for each other.
pub mod arena;
pub mod mapper;
pub mod pipeline;
pub mod event;
