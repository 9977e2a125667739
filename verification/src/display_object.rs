//! Objects that are displayed on the stage.

pub mod bitmap;
