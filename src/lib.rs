//! A handle-indexed 2D canvas engine over caller-owned premultiplied RGBA buffers.
pub mod anchor;
pub mod canvas;
pub mod color;
pub mod fonts;
pub mod registry;
pub mod skia;
pub mod style;
pub mod window;
pub mod wire;

pub use anchor::TextAnchor;
pub use canvas::FrameBuffer;
pub use color::hex_to_rgba;
pub use registry::Registry;
pub use style::{map_blend_mode, map_cap, map_join};
pub use wire::{decode_path, PathOp};
