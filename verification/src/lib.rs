//! The verified core of a headless layout engine: stable element ids and
//! hashing, the pointer registry and its frame lifecycle, the tree behind
//! the immediate-mode frame builder, transition bookkeeping, scroll gesture
//! decisions, pointer queries, and text splitting.
//!
//! Geometry (positions, sizes, colors) is the host's business: types that
//! carry it are generic here, and decisions that depend on measured sizes
//! take the host's answers as plain values.

pub mod engine;
pub mod frame;
pub mod hash;
pub mod id;
pub mod input;
pub mod result;
pub mod scroll;
pub mod style;
pub mod text;
pub mod transition;
pub mod wrap;

pub use engine::LayoutError;
pub use frame::{FrameArena, Pushed, TextPlacement};
pub use hash::FastHasher;
pub use id::ElementId;
pub use input::{
    MouseButton, Pointer, PointerGesture, PointerId, PointerPhase, PointerRegistry, TouchPhase,
};
pub use result::PointerHit;
pub use style::{AlignX, AlignY, AttachTo, Direction, PointerCapture, TextAlign, TextWrap};
pub use text::TextSelection;
pub use transition::{
    TransitionEnterTrigger, TransitionExitOrdering, TransitionExitTrigger, TransitionInteraction,
    TransitionProperties, TransitionState,
};
pub use wrap::{LineBreaker, WrapStart};
