pub mod ast;
pub mod grammar;
pub mod parser;
pub mod patch;
pub mod rewrite;

pub use ast::{FormulaExpr, SheetQualifier};
pub use parser::{parse, parse_with_refs, RefOccurrence};
pub use rewrite::{
    rename_sheet_references, shift_references, translate_references_for_move, MoveRect,
    MoveRewrite, RefAxis, StructuralEdit,
};
pub mod workbook;
pub mod cycle;
pub mod tables;
pub mod summary;
pub mod deps;
pub mod remap;

pub use cycle::workbook_has_formula_cycle;
