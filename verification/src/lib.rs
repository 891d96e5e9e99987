//! A cellular artificial-life simulator.
//!
//! Agents live on a bounded grid, one to a cell. Each tick every agent looks at
//! its eight neighbours, asks its decision function what to do, and the field
//! turns the answers into the next generation.

pub mod bot;
pub mod brain;
pub mod chance;
pub mod choice;
pub mod field;
pub mod roster;
pub mod tick;
