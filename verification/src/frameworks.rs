//! Frameworks.
pub mod ca_display_link;
pub mod jc3_audio;
pub mod ui_stubs;
