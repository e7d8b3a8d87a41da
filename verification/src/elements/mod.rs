//! The elements a tree is composed of.

pub mod label;
pub mod layers;
pub mod rect;
pub mod split;

pub use crate::elements::split::SplitType;
pub use crate::elements::layers::layers;
pub use crate::elements::layers::Layers;
pub use crate::elements::rect::rect;
pub use crate::elements::rect::Rect;
pub use crate::elements::label::label;
pub use crate::elements::label::Label;
pub use crate::elements::split::column;
pub use crate::elements::split::line;
pub use crate::elements::split::split;
pub use crate::elements::split::Split;
