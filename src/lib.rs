//! Point entities that move on a bounded plane and bounce off its edges,
//! driven tick by tick by a fixed simulation that reports a text trace.
pub mod enemy;
pub mod render;
pub mod simulation;
