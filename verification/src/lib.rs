//! A retained-mode, declarative composition layer for user interfaces.
//!
//! A tree of elements is described with builders, built once, and then drawn
//! into nested rectangular regions and handed events. Values that several
//! subtrees observe live in shared cells, which the build pass binds by anchor.

pub mod anchors;
pub mod build_pass;
pub mod drawer;
pub mod element;
pub mod elements;
pub mod event;
pub mod layout;
pub mod location;
pub mod mapped;
pub mod shared;
pub mod values;

pub use crate::anchors::AnchorKey;
pub use crate::anchors::ResolveAnchors;
pub use crate::build_pass::Build;
pub use crate::build_pass::BuildNode;
pub use crate::element::Element;
pub use crate::event::Event;
pub use crate::event::EventError;
pub use crate::event::EventResult;
pub use crate::event::HandleEvent;
pub use crate::event::InvalidateCache;
pub use crate::location::Location;
