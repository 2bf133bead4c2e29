//! Board and hand state of a Battle Line style card game, and a grid of
//! styled terminal cells that the state is drawn onto.

pub mod cards;
pub mod display;
pub mod ui;

pub use cards::{Card, Column, Deck, Field, Flag, Formation, Hand, OutOfRangeError, Side, TroopColor, TroopValue};
pub use display::{Buffer, Cell, Color};
pub use ui::{draw_field, draw_hand};

