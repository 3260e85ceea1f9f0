//! Turns the rows of a spreadsheet into C# source: global fields, a class of
//! definitions with an id enum, and the marked blocks that a later run swaps
//! in place in a script that already exists.

pub mod text;
pub mod model;
pub mod datetime;
pub mod blocks;
pub mod fields;
pub mod columns;
pub mod sheet;
pub mod merge;
pub mod script;

pub use blocks::{
    end_block, get_def_fields_block, get_defs_block, get_enums_block, get_funcs_block,
    get_global_fields_block, get_template, start_block,
};
pub use model::{Cell, CellKind, DefData, DefField, DefFieldData, DefType, FieldType, Sheet};
pub mod stable;
pub mod rerun;
