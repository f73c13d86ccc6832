//! The per-frame interactive core of a retained element tree: geometry,
//! the typed fire-and-forget event bus, the hit-test table, the pointer
//! normaliser, node storage that is either exclusive or shared, and the
//! uniform traversal over child structures of differing shape. With it
//! comes the numbering of the branches of a conditional structure.

pub mod application;
pub mod conditional;
pub mod dom;
pub mod element;
pub mod event;
pub mod primitive;
