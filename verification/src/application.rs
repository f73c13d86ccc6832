//! What one window keeps between frames: the hit-test table that each
//! render pass rebuilds, the pointer state, and the frame that ties them
//! to the tree.

pub mod elem_table;
pub mod event_comp;
pub mod frame;
