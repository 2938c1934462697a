//! A modal overlay widget for a terminal application's bottom input region.
//!
//! The prompt view collects a free-form, multi-line instruction from the
//! user. Plain Enter submits the trimmed text to a caller-supplied sink and
//! completes the view; Escape cancels it; Enter with a modifier inserts a
//! literal line break. Layout, rendering geometry, event handling and caret
//! reporting are verified; the character-cell blitting itself is delegated
//! to ratatui behind trusted wrappers.

pub mod editor;
pub mod geom;
pub mod key;
pub mod prompt;
pub mod screen;
pub mod sink;
pub mod textops;

pub use editor::TextArea;
pub use editor::TextAreaState;
pub use geom::Rect;
pub use key::KeyCode;
pub use key::KeyEvent;
pub use key::KeyModifiers;
pub use prompt::CustomPromptView;
pub use prompt::SubmitSink;
pub use sink::RecordingSink;
