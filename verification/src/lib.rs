//! The decisions of a game automation tool: what to press, what to look for on
//! a captured frame, when to stop. Capturing, drawing, playing scripts and
//! talking to devices happens around this library, not in it.

pub mod ap;
pub mod assets;
pub mod audio;
pub mod cli;
pub mod combo;
pub mod components;
pub mod dna;
pub mod game;
pub mod grid;
pub mod input;
pub mod json;
pub mod launch;
pub mod layout;
pub mod listen;
pub mod morphology;
pub mod ncc;
pub mod nte;
pub mod ocr;
pub mod order;
pub mod script_engine;
pub mod teleport;
pub mod templates;
pub mod text;
pub mod treasure;
pub mod tui;
pub mod vision;
pub mod wav;
pub mod worker;
