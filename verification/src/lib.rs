//! Verified editing core of a text input component.
//!
//! The library holds a pure editing model, [`TextBoxState`]: text with UTF-8
//! byte offsets, a selection, IME marked text, mode, validation state and a
//! bounded undo/redo history. Every offset it stores lies on a character
//! boundary; UTF-16 conversion happens only at the platform input boundary.
pub mod edit;
pub mod history;
pub mod mode;
pub mod segmentation;
pub mod selection;
pub mod state;
pub mod str_ops;
pub mod utf;
pub mod utf8_model;
pub mod validation;

pub use mode::{Mode, TextWrap};
pub use selection::{apply_movement, Movement, Selection};
pub use state::TextBoxState;
pub use validation::ValidationState;
pub mod layout;
pub mod field;
