//! Core rules of a small tile-maze game: exhaustive enumeration of bounded
//! types, the tile model, level templates and their text form, the running
//! game and the menu state machine.

pub mod bounded;
pub mod product;
pub mod enumerable;
pub mod tile;
pub mod level;
pub mod token;
pub mod lexer;
pub mod text;
pub mod printer;
pub mod parser;
pub mod codec;
pub mod keys;
pub mod game;
pub mod menu;
pub mod assets;
pub mod glyphs;
