//! Values wrapped with extra layout requirements.

pub mod aligned;
