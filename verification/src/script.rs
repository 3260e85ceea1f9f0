//! The decisions around one sheet's script: which workbooks and sheets take
//! part, where a sheet's script goes, and what the script then holds, new or
//! brought up to date.

use vstd::prelude::*;
use crate::blocks::{get_template, template_text};
use crate::fields::SheetError;
use crate::merge::{BlockError, merge_blocks, merged_text};
use crate::model::{CellKind, Sheet, cell_at};
use crate::sheet::{
    ReadState, class_row, empty_first_cell, lemma_phase_after_class, lemma_phase_step,
    lemma_rows_after_end_ignored, lemma_walk_agree, lemma_walk_err, read_sheet, sheet_fits,
    sheet_model, walk, walk_step,
};
use crate::text::{has_text, owned, remove_whitespace, same_text, strip_white, text_contains};

verus! {

/// Why a sheet's script cannot be written.
#[derive(Clone, Copy, Debug, PartialEq, Eq, Structural)]
pub enum SyncError {
    /// The sheet's layout cannot be read.
    Sheet(SheetError),
    /// The existing script lacks a block's markers.
    Block(BlockError),
}

/// A sheet takes part when its top-left cell is the string `**SYNC**`.
pub open spec fn marks_sync(sheet: Seq<Seq<crate::model::CellV>>) -> bool {
    match cell_at(sheet, 0, 0) {
        Some(c) => c.kind == CellKind::Text && c.text == "**SYNC**"@,
        None => false,
    }
}

/// Whether a sheet takes part: its top-left cell is the string `**SYNC**`.
pub fn is_sync_sheet(sheet: &Sheet) -> (r: bool)
    ensures
        r == marks_sync(sheet@),
{
    match sheet.get(0, 0) {
        Some(c) => c.is_text() && same_text(c.text.as_str(), "**SYNC**"),
        None => false,
    }
}

/// The pattern that finds every workbook with the given extension under a
/// folder, at any depth.
pub open spec fn workbook_pattern(sheet_path: Seq<char>, ext: Seq<char>) -> Seq<char> {
    sheet_path + "/**/*"@ + ext
}

/// The pattern that finds every workbook with the given extension under a
/// folder, at any depth.
pub fn glob_pattern(sheet_path: &str, sheet_extension: &str) -> (r: String)
    ensures
        r@ == workbook_pattern(sheet_path@, sheet_extension@),
{
    let mut r = owned(sheet_path);
    r.append("/**/*");
    r.append(sheet_extension);
    r
}

/// Whether a found workbook takes part: lock files, whose paths hold `~$`,
/// do not.
pub fn should_sync_path(path: &str) -> (r: bool)
    ensures
        r == !has_text(path@, "~$"@),
{
    !text_contains(path, "~$")
}

/// Whether a sheet has so many rows that it warrants a warning.
pub fn row_count_warning(rows: usize) -> (r: bool)
    ensures
        r == (rows > 10000),
{
    rows > 10000
}

/// The script of a sheet: the sheet's name without whitespace, with `.cs`,
/// in the output folder.
pub open spec fn script_path(output_path: Seq<char>, sheet_name: Seq<char>) -> Seq<char> {
    output_path + "/"@ + strip_white(sheet_name) + ".cs"@
}

/// The path of a sheet's script in the output folder.
pub fn script_file_path(output_path: &str, sheet_name: &str) -> (r: String)
    ensures
        r@ == script_path(output_path@, sheet_name@),
{
    let mut r = owned(output_path);
    r.append("/");
    r.append(remove_whitespace(sheet_name).as_str());
    r.append(".cs");
    r
}

/// What the script of a sheet holds: with no script yet, a new static class
/// named after the sheet; else the existing script with its blocks replaced.
pub open spec fn script_text(
    sheet: Seq<Seq<crate::model::CellV>>,
    sheet_name: Seq<char>,
    existing: Option<Seq<char>>,
) -> Result<Seq<char>, SyncError> {
    match sheet_model(sheet) {
        Err(e) => Err(SyncError::Sheet(e)),
        Ok(m) => match existing {
            None => Ok(template_text(true, strip_white(sheet_name), m.0, m.1)),
            Some(c) => match merged_text(c, m.0, m.1) {
                Err(e) => Err(SyncError::Block(e)),
                Ok(t) => Ok(t),
            },
        },
    }
}

/// The text of a sheet's script, given the existing script if there is one.
/// Where the sheet's layout cannot be read, or the existing script lacks a
/// block's opening marker or the closing marker after it, the error comes back
/// in place of a panic, before anything is written: callers that must stop
/// there stop on the error.
pub fn generate_script(sheet: &Sheet, sheet_name: &str, existing: Option<&str>) -> (r: Result<
    String,
    SyncError,
>)
    requires
        sheet_fits(sheet),
    ensures
        match script_text(
            sheet@,
            sheet_name@,
            match existing {
                Some(c) => Some(c@),
                None => None,
            },
        ) {
            Ok(t) => r is Ok && r->Ok_0@ == t,
            Err(e) => r is Err && r->Err_0 == e,
        },
{
    let (global_fields, def_type) = match read_sheet(sheet) {
        Ok(m) => m,
        Err(e) => {
            return Err(SyncError::Sheet(e));
        },
    };
    match existing {
        None => {
            let class_name = remove_whitespace(sheet_name);
            Ok(get_template(true, class_name.as_str(), &global_fields, &def_type))
        },
        Some(c) => match merge_blocks(c, &global_fields, &def_type) {
            Ok(t) => Ok(t),
            Err(e) => Err(SyncError::Block(e)),
        },
    }
}

/// The rows after the one that ended the definitions never reach the
/// script: two sheets of the same size that agree on every row up to it give
/// the same script, written fresh or merged into the same existing text.
pub proof fn lemma_rows_after_end_unread(
    s1: Seq<Seq<crate::model::CellV>>,
    s2: Seq<Seq<crate::model::CellV>>,
    t: int,
    sheet_name: Seq<char>,
    existing: Option<Seq<char>>,
)
    requires
        s1.len() == s2.len(),
        0 <= t < s1.len(),
        forall|i: int| 0 <= i <= t ==> s1[i] == s2[i],
        walk(s1, t + 1) is Ok,
        walk(s1, t + 1)->Ok_0.state == ReadState::COMPLETE,
    ensures
        sheet_model(s1) == sheet_model(s2),
        script_text(s1, sheet_name, existing) == script_text(s2, sheet_name, existing),
{
    if walk(s1, t) is Ok && walk(s1, t)->Ok_0.state == ReadState::CLASSFIELDS {
        assert(walk(s1, t + 1) == walk_step(s1, walk(s1, t)->Ok_0, s1[t]));
    }
    lemma_walk_agree(s1, s2, t, t + 1);
    lemma_rows_after_end_ignored(s1, t + 1, s1.len() as int);
    lemma_rows_after_end_ignored(s2, t + 1, s2.len() as int);
}

/// The rows after the definitions never reach the script: two sheets of the
/// same size that agree on every row up to a row with an empty first cell,
/// more than two rows below a `CLASS` row, give the same script, written
/// fresh or merged into the same existing text.
pub proof fn lemma_rows_after_class_end_unread(
    s1: Seq<Seq<crate::model::CellV>>,
    s2: Seq<Seq<crate::model::CellV>>,
    r: int,
    t: int,
    sheet_name: Seq<char>,
    existing: Option<Seq<char>>,
)
    requires
        s1.len() == s2.len(),
        0 <= r,
        r + 2 < t < s1.len(),
        forall|i: int| 0 <= i <= t ==> s1[i] == s2[i],
        class_row(s1[r]),
        empty_first_cell(s1[t]),
    ensures
        sheet_model(s1) == sheet_model(s2),
        script_text(s1, sheet_name, existing) == script_text(s2, sheet_name, existing),
{
    if walk(s1, t) is Ok {
        lemma_phase_after_class(s1, r, t - r - 1);
    }
    lemma_walk_agree(s1, s2, t, t + 1);
    if walk(s1, t + 1) is Ok {
        lemma_phase_step(s1, t);
        lemma_rows_after_end_ignored(s1, t + 1, s1.len() as int);
        lemma_rows_after_end_ignored(s2, t + 1, s2.len() as int);
    } else {
        lemma_walk_err(s1, t + 1, s1.len() as int);
        lemma_walk_err(s2, t + 1, s2.len() as int);
    }
}

} // verus!
