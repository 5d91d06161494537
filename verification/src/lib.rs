//! The view-state engine of an interactive pager for a growing stream of
//! text lines: the line buffer, substring search, line filtering, scroll
//! arithmetic, the keyboard state machine and the frame that a renderer
//! draws.

pub mod filter;
pub mod frame;
pub mod input;
pub mod line_store;
pub mod pager;
pub mod search;
pub mod strings;
pub mod text;
pub mod view_state;

pub use pager::App;
pub use frame::{Row, Span};
pub use input::{Command, Key, Outcome};
pub use line_store::LineStore;
pub use search::Match;
pub use view_state::Mode;
