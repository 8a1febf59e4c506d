//! Verified core of the galaxy viewer: layout bookkeeping, UI state
//! transitions, polling decisions and the text shown on the canvas.

pub mod bag;
pub mod canvas;
pub mod clock;
pub mod frame;
pub mod galaxy;
pub mod galaxy_state;
pub mod startup;
pub mod text;
pub mod timers;
pub mod ui_state;
