use vstd::prelude::*;

pub mod a1;
pub mod array;
pub mod check;
pub mod diagnose;
pub mod diagnoseworkbook;
pub mod diagnostics;
pub mod editor;
pub mod formula;
pub mod ods;
pub mod package;
pub mod passthrough;
pub mod relgraph;
pub mod sheetjson;
pub mod sheetxml;
pub mod text;
pub mod types;

verus! {
}
