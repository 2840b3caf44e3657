//! Abstraction of window setup, OpenGL context creation and event handling.
//!
//! What a window system and a windowing library do is done by the caller; what
//! is asked of them, and what follows from what they report, is decided here.
//!
//! There is currently no separation of concerns between a single window and
//! window system interaction in general, because it is assumed only one window
//! will be needed for the runtime of the app.
pub mod deeplink;
pub mod device;
pub mod events;
pub mod host;
pub mod ipa;
pub mod pixels;
pub mod state;
