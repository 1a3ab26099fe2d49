//! The systems that run each tick: input, events, audio and image choice.

pub mod audio_system;
pub mod event_system;
pub mod input_system;
pub mod rendering_system;
