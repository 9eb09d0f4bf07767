//! The handlers that the program registers.
pub use crate::input::InputHandler;
pub use crate::ui::RenderHandler;
