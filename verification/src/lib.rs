//! Models, grammars and rules behind a collection of small desktop tools:
//! a spreadsheet, a circle editor with undo, a name registry, a sudoku
//! solver, calculators, playlists, a date booker and a text finder.
pub mod text;
pub mod grammar;
pub mod cell_parser;
pub mod refs;
pub mod resters;
pub mod sheet;
pub mod functions;
pub mod hudson;
pub mod editor;
pub mod styling;
pub mod sudoku;
pub mod circles;
pub mod registry;
pub mod dates;
pub mod counter;
pub mod playlist;
pub mod calculator;
pub mod geometry;
pub mod shell;
pub mod glyphs;
pub mod translator;
pub mod highlight;
