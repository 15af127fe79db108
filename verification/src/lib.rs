//! A terminal "digital rain" animation core: falling glyph trails that dim
//! over time, rendered as an explicit sequence of terminal commands.
//!
//! The library holds the whole animation model: the color-fade math, the
//! per-column trail state machine, and the frame renderer. Real terminal
//! output and the frame loop live outside; they feed the core a terminal
//! size, a base color, and a random number generator, and replay the
//! command sequences the renderer produces.

pub mod color;
pub mod column;
pub mod glyph;
pub mod pool;
pub mod rng;
pub mod screen;
pub mod waterfall;
