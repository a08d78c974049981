//! Cursor-based views over a borrowed byte region, with big-endian and
//! little-endian access to fixed-width integers.

pub mod buf_view;
pub mod buf_view_mut;
pub mod byte_order;
pub mod region;
pub mod state;

pub use buf_view::BufView;
pub use buf_view_mut::BufViewMut;
