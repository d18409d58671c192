//! A lexer-construction engine: character patterns, interval sets, a slot
//! arena, a registry of lexer groups and a driver that runs the groups'
//! rules over a sequence of symbols by longest match.

pub mod switch;
pub mod interval;
pub mod arena;
pub mod pattern;
pub mod group;
pub mod lexer;
