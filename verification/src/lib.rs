//! Helix machine-control core: G-code program structure, the O-word
//! control-flow executor, the machine state machine and the digitizing
//! export plan, with their contracts.

pub mod text;
pub mod gcode;
pub mod words;
pub mod control;
pub mod expr;
pub mod params;
pub mod machine;
pub mod scan;
pub mod api;
