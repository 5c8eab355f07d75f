pub mod analysis;
pub mod attribute;
pub mod describe;
pub mod instructions;
pub mod emitter;
pub mod shared_context;
pub mod strutil;
