//! Reading a whole sheet, row by row: first the global declarations, then
//! from the `CLASS` row on the columns of the definition class, then one
//! definition per row until the first row whose id cell is empty.

use vstd::prelude::*;
use crate::columns::{
    add_class_field, add_def_field, class_field, column_field, column_kind, def_field_data,
};
use crate::fields::{
    SheetError, add_global_enum, add_global_field, add_global_header, add_global_list, enum_decl,
    global_field_line, header_line, list_decl, list_fold, push_opt,
};
use crate::model::{
    Cell, CellKind, CellV, DefData, DefType, DefTypeV, EntryV, Sheet, add_entry, cell_at,
    empty_field, new_def_type, row_view, DefField,
};
use crate::text::{decimal, owned, remove_whitespace, same_text, strip_white, u64_text, views};

verus! {

/// Which part of the sheet the reading is in.
#[derive(Clone, Copy, Debug, PartialEq, Eq, Structural)]
pub enum ReadState {
    /// Global constants, variables, headers, enums and lists.
    GLOBALS,
    /// The row that names the type of each column of the definition class.
    CLASSFIELDS,
    /// One definition per row.
    DEFVALUES,
    /// A row with an empty id cell ended the definitions.
    COMPLETE,
}

/// Where the reading of a sheet stands: its part, the row and definition
/// counters, how many rows it still skips, the global fields so far and the
/// definition class so far.
pub struct Walk {
    pub state: ReadState,
    pub cur_row: int,
    pub cur_def_row: int,
    pub rows_to_skip: int,
    pub global_fields: Seq<Seq<char>>,
    pub def_type: DefTypeV,
}

/// Nothing read yet.
pub open spec fn walk_start() -> Walk {
    Walk {
        state: ReadState::GLOBALS,
        cur_row: 0,
        cur_def_row: 0,
        rows_to_skip: 0,
        global_fields: Seq::empty(),
        def_type: new_def_type("defClassName"@),
    }
}

/// The class name that a `CLASS` row gives in its second cell.
pub open spec fn class_name_of(c: CellV) -> Seq<char> {
    if c.kind == CellKind::Text {
        c.text
    } else {
        "NO-CLASS-NAME-SET"@
    }
}

/// What a row read among the globals does, by the keyword in its first cell.
pub open spec fn globals_row(sheet: Seq<Seq<CellV>>, w: Walk, row: Seq<CellV>) -> Result<
    Walk,
    SheetError,
> {
    let next = Walk {
        state: w.state,
        cur_row: w.cur_row + 1,
        cur_def_row: w.cur_def_row,
        rows_to_skip: w.rows_to_skip,
        global_fields: w.global_fields,
        def_type: w.def_type,
    };
    if row.len() > 0 && row[0].kind == CellKind::Text {
        let key = strip_white(row[0].text);
        if key == "CONST"@ || key == "VAR"@ {
            let pre = if key == "CONST"@ {
                "const"@
            } else {
                "static"@
            };
            match global_field_line(sheet, w.cur_row, 0, pre) {
                Err(e) => Err(e),
                Ok(o) => Ok(
                    Walk { global_fields: push_opt(w.global_fields, o), ..next },
                ),
            }
        } else if key == "HEADER"@ {
            Ok(Walk { global_fields: w.global_fields.push(" "@).push(header_line(row)), ..next })
        } else if key == "ENUM"@ {
            Ok(Walk { global_fields: w.global_fields.push(enum_decl(row)), ..next })
        } else if key == "LIST"@ {
            match list_fold(row, row.len() as int) {
                Err(e) => Err(e),
                Ok(a) => Ok(Walk { global_fields: w.global_fields.push(list_decl(a)), ..next }),
            }
        } else if key == "CLASS"@ {
            match cell_at(sheet, w.cur_row, 1) {
                None => Err(SheetError::MissingCell),
                Some(c) => Ok(
                    Walk {
                        state: ReadState::CLASSFIELDS,
                        def_type: DefTypeV { name: class_name_of(c), ..w.def_type },
                        ..next
                    },
                ),
            }
        } else {
            Ok(next)
        }
    } else {
        Ok(next)
    }
}

/// The class after reading the first `n` cells of the row at `r` that names
/// the column types: a string cell declares a column, any other cell leaves
/// its column without a field.
pub open spec fn class_fold(
    sheet: Seq<Seq<CellV>>,
    r: int,
    row: Seq<CellV>,
    d: DefTypeV,
    n: int,
) -> Result<DefTypeV, SheetError>
    decreases n,
{
    if n <= 0 {
        Ok(d)
    } else {
        match class_fold(sheet, r, row, d, n - 1) {
            Err(e) => Err(e),
            Ok(d1) => if row[n - 1].kind == CellKind::Text {
                class_field(d1, sheet, r, n - 1, row[n - 1].text)
            } else {
                Ok(DefTypeV { fields: d1.fields.push(empty_field()), ..d1 })
            },
        }
    }
}

/// Once reading a column row fails, reading more of it fails the same way.
proof fn lemma_class_fold_err(
    sheet: Seq<Seq<CellV>>,
    r: int,
    row: Seq<CellV>,
    d: DefTypeV,
    n: int,
    m: int,
)
    requires
        0 <= n <= m,
        class_fold(sheet, r, row, d, n) is Err,
    ensures
        class_fold(sheet, r, row, d, m) == class_fold(sheet, r, row, d, n),
    decreases m - n,
{
    if m > n {
        lemma_class_fold_err(sheet, r, row, d, n, m - 1);
    }
}

/// Reading a column row adds exactly one column per cell, in order, after
/// the columns already there: an empty column for a cell that is not a
/// string, and for a string cell the column that its type and the name cell
/// below it declare.
pub proof fn lemma_class_fold_one_column_per_cell(
    sheet: Seq<Seq<CellV>>,
    r: int,
    row: Seq<CellV>,
    d: DefTypeV,
    n: int,
)
    requires
        0 <= n <= row.len(),
        class_fold(sheet, r, row, d, n) is Ok,
    ensures
        ({
            let d2 = class_fold(sheet, r, row, d, n)->Ok_0;
            let base = d.fields.len() as int;
            &&& d2.fields.len() == base + n
            &&& forall|i: int| 0 <= i < base ==> #[trigger] d2.fields[i] == d.fields[i]
            &&& forall|j: int|
                0 <= j < n && row[j].kind != CellKind::Text ==> #[trigger] d2.fields[base + j]
                    == empty_field()
            &&& forall|j: int|
                0 <= j < n && row[j].kind == CellKind::Text ==> {
                    let nc = cell_at(sheet, r + 1, j)->Some_0;
                    &&& cell_at(sheet, r + 1, j) is Some
                    &&& column_kind(strip_white(row[j].text), nc.text) is Ok
                    &&& #[trigger] d2.fields[base + j] == column_field(
                        d2.fields.take(base + j),
                        nc,
                        column_kind(strip_white(row[j].text), nc.text)->Ok_0,
                    )
                }
        }),
    decreases n,
{
    if n > 0 {
        if class_fold(sheet, r, row, d, n - 1) is Err {
            lemma_class_fold_err(sheet, r, row, d, n - 1, n);
        }
        lemma_class_fold_one_column_per_cell(sheet, r, row, d, n - 1);
        let d1 = class_fold(sheet, r, row, d, n - 1)->Ok_0;
        let d2 = class_fold(sheet, r, row, d, n)->Ok_0;
        let base = d.fields.len() as int;
        assert(d2.fields == d1.fields.push(d2.fields[base + n - 1]));
        assert(d2.fields.take(base + n - 1) =~= d1.fields);
        assert forall|j: int| 0 <= j < n - 1 implies #[trigger] d2.fields.take(base + j)
            == d1.fields.take(base + j) by {
            assert(d2.fields.take(base + j) =~= d1.fields.take(base + j));
        }
    }
}

/// The id enum member that a definition row's first cell names.
pub open spec fn id_name(d: DefTypeV, c: CellV) -> Seq<char> {
    if d.enum_use_id_prefix {
        strip_white("ID_"@ + c.text)
    } else {
        strip_white(c.text)
    }
}

/// The entries that the first `n` cells of a definition row give: the id,
/// then a value for each cell whose column declares a field.
pub open spec fn def_entries(d: DefTypeV, row: Seq<CellV>, n: int) -> Seq<EntryV>
    decreases n,
{
    if n <= 0 {
        Seq::empty()
    } else {
        let prev = def_entries(d, row, n - 1);
        let j = n - 1;
        if j == 0 {
            add_entry(
                prev,
                id_name(d, row[0]),
                0,
                "    Id = "@ + d.enum_name + "."@ + id_name(d, row[0]) + ","@,
            )
        } else if j < d.fields.len() && d.fields[j].is_field {
            def_field_data(prev, row[j], j as u32, d.fields[j])
        } else {
            prev
        }
    }
}

/// The class after reading the definition row at definition index `k`: an id
/// enum member numbered `k + 1`, and the row's entries.
pub open spec fn with_def_row(d: DefTypeV, row: Seq<CellV>, k: int) -> DefTypeV {
    DefTypeV {
        enum_ids: if row.len() > 0 {
            d.enum_ids.push(id_name(d, row[0]) + " = "@ + decimal((k + 1) as nat))
        } else {
            d.enum_ids
        },
        data_2: d.data_2.push(def_entries(d, row, row.len() as int)),
        ..d
    }
}

/// What reading one more row does.
pub open spec fn walk_step(sheet: Seq<Seq<CellV>>, w: Walk, row: Seq<CellV>) -> Result<
    Walk,
    SheetError,
> {
    if w.state == ReadState::COMPLETE {
        Ok(w)
    } else if w.rows_to_skip > 0 {
        Ok(Walk { rows_to_skip: w.rows_to_skip - 1, ..w })
    } else {
        match w.state {
            ReadState::GLOBALS => globals_row(sheet, w, row),
            ReadState::CLASSFIELDS => match class_fold(
                sheet,
                w.cur_row,
                row,
                w.def_type,
                row.len() as int,
            ) {
                Err(e) => Err(e),
                Ok(d) => Ok(
                    Walk {
                        state: ReadState::DEFVALUES,
                        cur_row: w.cur_row + 1,
                        rows_to_skip: 1,
                        def_type: d,
                        ..w
                    },
                ),
            },
            _ => if row.len() > 0 && row[0].kind == CellKind::Empty {
                Ok(Walk { state: ReadState::COMPLETE, ..w })
            } else {
                Ok(
                    Walk {
                        cur_row: w.cur_row + 1,
                        cur_def_row: w.cur_def_row + 1,
                        def_type: with_def_row(w.def_type, row, w.cur_def_row),
                        ..w
                    },
                )
            },
        }
    }
}

/// Where reading the first `n` rows of a sheet leaves it.
pub open spec fn walk(sheet: Seq<Seq<CellV>>, n: int) -> Result<Walk, SheetError>
    decreases n,
{
    if n <= 0 {
        Ok(walk_start())
    } else {
        match walk(sheet, n - 1) {
            Err(e) => Err(e),
            Ok(w) => walk_step(sheet, w, sheet[n - 1]),
        }
    }
}

/// Once reading a sheet fails, reading more of it fails the same way.
pub proof fn lemma_walk_err(sheet: Seq<Seq<CellV>>, n: int, m: int)
    requires
        0 <= n <= m,
        walk(sheet, n) is Err,
    ensures
        walk(sheet, m) == walk(sheet, n),
    decreases m - n,
{
    if m > n {
        lemma_walk_err(sheet, n, m - 1);
    }
}

/// Once a row with an empty id cell has ended the definitions, the rows
/// after it change nothing.
pub proof fn lemma_rows_after_end_ignored(sheet: Seq<Seq<CellV>>, n: int, m: int)
    requires
        0 <= n <= m,
        walk(sheet, n) is Ok,
        walk(sheet, n)->Ok_0.state == ReadState::COMPLETE,
    ensures
        walk(sheet, m) == walk(sheet, n),
    decreases m - n,
{
    if m > n {
        lemma_rows_after_end_ignored(sheet, n, m - 1);
    }
}

/// Among the globals and on the column row, the reading has advanced one row
/// per row read and skips none.
proof fn lemma_walk_early_rows(sheet: Seq<Seq<CellV>>, n: int)
    requires
        0 <= n,
    ensures
        walk(sheet, n) is Ok && (walk(sheet, n)->Ok_0.state == ReadState::GLOBALS || walk(
            sheet,
            n,
        )->Ok_0.state == ReadState::CLASSFIELDS) ==> walk(sheet, n)->Ok_0.cur_row == n && walk(
            sheet,
            n,
        )->Ok_0.rows_to_skip <= 0,
    decreases n,
{
    if n > 0 {
        lemma_walk_early_rows(sheet, n - 1);
    }
}

/// Two sheets that hold the same cells in row `r + 1` give the same class
/// from a column row read at `r`.
proof fn lemma_class_fold_agree(
    s1: Seq<Seq<CellV>>,
    s2: Seq<Seq<CellV>>,
    r: int,
    row: Seq<CellV>,
    d: DefTypeV,
    n: int,
)
    requires
        forall|c: int| #[trigger] cell_at(s1, r + 1, c) == cell_at(s2, r + 1, c),
    ensures
        class_fold(s1, r, row, d, n) == class_fold(s2, r, row, d, n),
    decreases n,
{
    if n > 0 {
        lemma_class_fold_agree(s1, s2, r, row, d, n - 1);
        assert(cell_at(s1, r + 1, n - 1) == cell_at(s2, r + 1, n - 1));
    }
}

/// Two sheets of the same length that agree on every row up to `t`, where
/// the first does not read row `t` as its column row, are read alike up to
/// row `t`.
pub proof fn lemma_walk_agree(s1: Seq<Seq<CellV>>, s2: Seq<Seq<CellV>>, t: int, k: int)
    requires
        s1.len() == s2.len(),
        0 <= t < s1.len(),
        forall|i: int| 0 <= i <= t ==> s1[i] == s2[i],
        walk(s1, t) is Ok ==> walk(s1, t)->Ok_0.state != ReadState::CLASSFIELDS,
        0 <= k <= t + 1,
    ensures
        walk(s1, k) == walk(s2, k),
    decreases k,
{
    if k > 0 {
        lemma_walk_agree(s1, s2, t, k - 1);
        lemma_walk_early_rows(s1, k - 1);
        match walk(s1, k - 1) {
            Err(e) => {},
            Ok(w) => {
                let row = s1[k - 1];
                assert(s2[k - 1] == row);
                if w.state != ReadState::COMPLETE && w.rows_to_skip <= 0 {
                    if w.state == ReadState::GLOBALS {
                        assert forall|c: int| #[trigger] cell_at(s1, k - 1, c) == cell_at(s2, k - 1, c) by {}
                        assert(w.cur_row == k - 1);
                        assert(cell_at(s1, w.cur_row, 1) == cell_at(s2, w.cur_row, 1));
                        assert(cell_at(s1, w.cur_row, 2) == cell_at(s2, w.cur_row, 2));
                        assert(cell_at(s1, w.cur_row, 3) == cell_at(s2, w.cur_row, 3));
                        assert(global_field_line(s1, w.cur_row, 0, "const"@) == global_field_line(
                            s2,
                            w.cur_row,
                            0,
                            "const"@,
                        ));
                        assert(global_field_line(s1, w.cur_row, 0, "static"@) == global_field_line(
                            s2,
                            w.cur_row,
                            0,
                            "static"@,
                        ));
                        assert(globals_row(s1, w, row) == globals_row(s2, w, row));
                    } else if w.state == ReadState::CLASSFIELDS {
                        assert(s1[k] == s2[k]);
                        assert forall|c: int| #[trigger] cell_at(s1, w.cur_row + 1, c) == cell_at(
                            s2,
                            w.cur_row + 1,
                            c,
                        ) by {}
                        lemma_class_fold_agree(s1, s2, w.cur_row, row, w.def_type, row.len() as int);
                    }
                }
                assert(walk_step(s1, w, row) == walk_step(s2, w, row));
            },
        }
    }
}

/// A row that starts the definition class: its first cell is the string
/// `CLASS`, spaces aside.
pub open spec fn class_row(row: Seq<CellV>) -> bool {
    row.len() > 0 && row[0].kind == CellKind::Text && strip_white(row[0].text) == "CLASS"@
}

/// A row whose first cell is empty.
pub open spec fn empty_first_cell(row: Seq<CellV>) -> bool {
    row.len() > 0 && row[0].kind == CellKind::Empty
}

/// How far the reading has come: among the globals, on the column row, on
/// the row it skips, among the definitions, or done.
pub open spec fn phase(w: Walk) -> int {
    match w.state {
        ReadState::GLOBALS => 0,
        ReadState::CLASSFIELDS => 1,
        ReadState::DEFVALUES => if w.rows_to_skip > 0 {
            2
        } else {
            3
        },
        ReadState::COMPLETE => 4,
    }
}

/// The reading skips at most one row, and only among the definitions.
proof fn lemma_walk_skips(sheet: Seq<Seq<CellV>>, n: int)
    requires
        0 <= n,
    ensures
        walk(sheet, n) is Ok ==> walk(sheet, n)->Ok_0.rows_to_skip <= 1 && (walk(
            sheet,
            n,
        )->Ok_0.state != ReadState::DEFVALUES ==> walk(sheet, n)->Ok_0.rows_to_skip <= 0),
    decreases n,
{
    if n > 0 {
        lemma_walk_skips(sheet, n - 1);
    }
}

/// One row read never goes back a phase; it moves on from the column row and
/// the skipped row, a `CLASS` row moves it on from the globals, and a row with
/// an empty first cell ends the definitions.
pub(crate) proof fn lemma_phase_step(sheet: Seq<Seq<CellV>>, k: int)
    requires
        0 <= k < sheet.len(),
        walk(sheet, k + 1) is Ok,
    ensures
        walk(sheet, k) is Ok,
        phase(walk(sheet, k)->Ok_0) <= phase(walk(sheet, k + 1)->Ok_0),
        phase(walk(sheet, k)->Ok_0) == 1 || phase(walk(sheet, k)->Ok_0) == 2 ==> phase(
            walk(sheet, k)->Ok_0,
        ) < phase(walk(sheet, k + 1)->Ok_0),
        phase(walk(sheet, k)->Ok_0) == 0 && class_row(sheet[k]) ==> phase(walk(sheet, k + 1)->Ok_0)
            >= 1,
        phase(walk(sheet, k)->Ok_0) == 3 && empty_first_cell(sheet[k]) ==> phase(
            walk(sheet, k + 1)->Ok_0,
        ) == 4,
{
    lemma_walk_skips(sheet, k);
    let w = walk(sheet, k)->Ok_0;
    let row = sheet[k];
    if phase(w) == 0 && class_row(row) {
        reveal_strlit("CLASS");
        reveal_strlit("CONST");
        reveal_strlit("VAR");
        reveal_strlit("HEADER");
        reveal_strlit("ENUM");
        reveal_strlit("LIST");
        let key = strip_white(row[0].text);
        assert(key != "CONST"@ && key != "VAR"@ && key != "HEADER"@ && key != "ENUM"@ && key
            != "LIST"@) by {
            assert(key[1] == 'L');
            assert("CONST"@[1] == 'O');
            assert("VAR"@[1] == 'A');
            assert("HEADER"@[1] == 'E');
            assert("ENUM"@[1] == 'N');
            assert("LIST"@[1] == 'I');
        }
    }
}

/// Once the reading is `j` rows past a `CLASS` row, it is at least on the
/// column row, and two rows later among the definitions.
pub(crate) proof fn lemma_phase_after_class(sheet: Seq<Seq<CellV>>, r: int, j: int)
    requires
        0 <= r,
        0 <= j,
        r + j < sheet.len(),
        class_row(sheet[r]),
        walk(sheet, r + 1 + j) is Ok,
    ensures
        phase(walk(sheet, r + 1 + j)->Ok_0) >= if j < 2 {
            1 + j
        } else {
            3
        },
    decreases j,
{
    lemma_phase_step(sheet, r + j);
    if j == 0 {
        if phase(walk(sheet, r)->Ok_0) == 0 {
        }
    } else {
        lemma_phase_after_class(sheet, r, j - 1);
    }
}

/// Among the globals and on the column row, the class has no columns yet.
proof fn lemma_early_no_columns(sheet: Seq<Seq<CellV>>, n: int)
    requires
        0 <= n,
    ensures
        walk(sheet, n) is Ok && (walk(sheet, n)->Ok_0.state == ReadState::GLOBALS || walk(
            sheet,
            n,
        )->Ok_0.state == ReadState::CLASSFIELDS) ==> walk(sheet, n)->Ok_0.def_type.fields.len()
            == 0,
    decreases n,
{
    if n > 0 {
        lemma_early_no_columns(sheet, n - 1);
        lemma_walk_early_rows(sheet, n - 1);
    }
}

/// After the column row of a sheet is read, the class has exactly one column
/// per cell of that row, column `j` for cell `j`: an empty column where the
/// cell is not a string.
pub proof fn lemma_column_row_gives_columns(sheet: Seq<Seq<CellV>>, k: int)
    requires
        0 <= k < sheet.len(),
        walk(sheet, k) is Ok,
        walk(sheet, k)->Ok_0.state == ReadState::CLASSFIELDS,
        walk(sheet, k + 1) is Ok,
    ensures
        walk(sheet, k + 1)->Ok_0.def_type.fields.len() == sheet[k].len(),
        forall|j: int|
            0 <= j < sheet[k].len() && sheet[k][j].kind != CellKind::Text ==> #[trigger] walk(
                sheet,
                k + 1,
            )->Ok_0.def_type.fields[j] == empty_field(),
        forall|j: int|
            0 <= j < sheet[k].len() && sheet[k][j].kind == CellKind::Text ==> #[trigger] walk(
                sheet,
                k + 1,
            )->Ok_0.def_type.fields[j].is_field,
{
    lemma_early_no_columns(sheet, k);
    lemma_walk_early_rows(sheet, k);
    let w = walk(sheet, k)->Ok_0;
    let row = sheet[k];
    lemma_class_fold_one_column_per_cell(sheet, w.cur_row, row, w.def_type, row.len() as int);
    let d2 = class_fold(sheet, w.cur_row, row, w.def_type, row.len() as int)->Ok_0;
    assert(walk(sheet, k + 1)->Ok_0.def_type == d2);
    assert forall|j: int| 0 <= j < row.len() implies (row[j].kind != CellKind::Text ==> d2.fields[j]
        == empty_field()) && (row[j].kind == CellKind::Text ==> d2.fields[j].is_field) by {
        assert(d2.fields[0 + j] == d2.fields[j]);
    }
}

/// `line` is an id enum member numbered `k + 1`.
pub open spec fn numbered(line: Seq<char>, k: int) -> bool {
    exists|id: Seq<char>| line == id + " = "@ + decimal((k + 1) as nat)
}

/// There are as many id enum members as definitions, and the member at index
/// `k` is numbered `k + 1`: the number of the definition at `INDEX [k + 1]`.
pub open spec fn ids_match_defs(d: DefTypeV) -> bool {
    &&& d.enum_ids.len() == d.data_2.len()
    &&& forall|k: int| 0 <= k < d.enum_ids.len() ==> numbered(#[trigger] d.enum_ids[k], k)
}

proof fn lemma_class_fold_keeps_defs(
    sheet: Seq<Seq<CellV>>,
    r: int,
    row: Seq<CellV>,
    d: DefTypeV,
    n: int,
)
    requires
        class_fold(sheet, r, row, d, n) is Ok,
    ensures
        class_fold(sheet, r, row, d, n)->Ok_0.enum_ids == d.enum_ids,
        class_fold(sheet, r, row, d, n)->Ok_0.data_2 == d.data_2,
    decreases n,
{
    if n > 0 {
        lemma_class_fold_keeps_defs(sheet, r, row, d, n - 1);
    }
}

/// In a sheet whose rows all hold at least one cell, reading gives one id
/// enum member per definition, numbered from 1 in the order of the
/// definitions, and counts the definitions.
pub proof fn lemma_ids_match_defs(sheet: Seq<Seq<CellV>>, n: int)
    requires
        0 <= n <= sheet.len(),
        forall|i: int| 0 <= i < sheet.len() ==> #[trigger] sheet[i].len() > 0,
    ensures
        walk(sheet, n) is Ok ==> ids_match_defs(walk(sheet, n)->Ok_0.def_type) && walk(
            sheet,
            n,
        )->Ok_0.cur_def_row == walk(sheet, n)->Ok_0.def_type.data_2.len(),
    decreases n,
{
    if n > 0 {
        lemma_ids_match_defs(sheet, n - 1);
        if walk(sheet, n - 1) is Ok && walk(sheet, n) is Ok {
            assert(walk(sheet, n - 1) is Ok);
            let w = walk(sheet, n - 1)->Ok_0;
            let row = sheet[n - 1];
            let w2 = walk(sheet, n)->Ok_0;
            assert(row.len() > 0);
            assert(walk_step(sheet, w, row) == walk(sheet, n));
            if w.state != ReadState::COMPLETE && w.rows_to_skip <= 0 {
                if w.state == ReadState::GLOBALS {
                    assert(w2.def_type.enum_ids == w.def_type.enum_ids);
                    assert(w2.def_type.data_2 == w.def_type.data_2);
                    assert(w2.cur_def_row == w.cur_def_row);
                    assert(ids_match_defs(w2.def_type));
                } else if w.state == ReadState::CLASSFIELDS {
                    lemma_class_fold_keeps_defs(sheet, w.cur_row, row, w.def_type, row.len() as int);
                    assert(ids_match_defs(w2.def_type));
                } else if w.state == ReadState::DEFVALUES && !(row[0].kind == CellKind::Empty) {
                    let d = w.def_type;
                    let d2 = with_def_row(d, row, w.cur_def_row);
                    let k = d.enum_ids.len() as int;
                    assert(numbered(d2.enum_ids[k], k)) by {
                        let id = id_name(d, row[0]);
                        assert(d2.enum_ids[k] == id + " = "@ + decimal((k + 1) as nat));
                    }
                    assert forall|j: int| 0 <= j < d2.enum_ids.len() implies numbered(
                        #[trigger] d2.enum_ids[j],
                        j,
                    ) by {
                        if j < k {
                            assert(d2.enum_ids[j] == d.enum_ids[j]);
                        }
                    }
                    assert(w2.def_type == d2);
                    assert(ids_match_defs(w2.def_type));
                } else {
                    assert(ids_match_defs(w2.def_type));
                }
            } else {
                assert(w2.def_type == w.def_type);
            }
            assert(w2.cur_def_row == w2.def_type.data_2.len());
        }
    } else {
        assert(walk(sheet, 0)->Ok_0.def_type.data_2.len() == 0);
        assert(ids_match_defs(walk(sheet, 0)->Ok_0.def_type));
    }
}

/// The global fields and the definition class that a sheet declares.
pub open spec fn sheet_model(sheet: Seq<Seq<CellV>>) -> Result<
    (Seq<Seq<char>>, DefTypeV),
    SheetError,
> {
    match walk(sheet, sheet.len() as int) {
        Err(e) => Err(e),
        Ok(w) => Ok((w.global_fields, w.def_type)),
    }
}

/// The sheets whose rows and columns can be counted in `u32`, as the reading
/// counts them.
pub open spec fn sheet_fits(sheet: &Sheet) -> bool {
    &&& sheet.rows@.len() < u32::MAX
    &&& forall|i: int| 0 <= i < sheet.rows@.len() ==> #[trigger] sheet.rows@[i]@.len() < u32::MAX
}

/// The id member that a definition row's first cell names.
fn get_id_name(def_type: &DefType, c: &Cell) -> (r: String)
    ensures
        r@ == id_name(def_type@, c@),
{
    if def_type.enum_use_id_prefix {
        let mut s = owned("ID_");
        s.append(c.text.as_str());
        remove_whitespace(s.as_str())
    } else {
        remove_whitespace(c.text.as_str())
    }
}

/// Reads one definition row into the class.
fn read_def_row(def_type: &mut DefType, row: &Vec<Cell>, k: u32)
    requires
        k < u32::MAX,
        row@.len() < u32::MAX,
    ensures
        final(def_type)@ == with_def_row(old(def_type)@, row_view(row@), k as int),
{
    let ghost d0 = def_type@;
    let ghost rv = row_view(row@);
    let mut def_data = DefData::new();
    let mut j: usize = 0;
    while j < row.len()
        invariant
            j <= row@.len(),
            row@.len() < u32::MAX,
            k < u32::MAX,
            rv == row_view(row@),
            rv.len() == row@.len(),
            def_type@.name == d0.name,
            def_type@.enum_name == d0.enum_name,
            def_type@.enum_use_id_prefix == d0.enum_use_id_prefix,
            def_type@.fields == d0.fields,
            def_type@.data_2 == d0.data_2,
            def_type@.enum_ids == if j > 0 {
                d0.enum_ids.push(id_name(d0, rv[0]) + " = "@ + decimal((k + 1) as nat))
            } else {
                d0.enum_ids
            },
            def_data@ == def_entries(d0, rv, j as int),
        decreases row.len() - j,
    {
        let c = &row[j];
        assert(rv[j as int] == c@);
        if j == 0 {
            let id = get_id_name(def_type, c);
            let mut member = owned(id.as_str());
            member.append(" = ");
            member.append(u64_text((k + 1) as u64).as_str());
            def_type.enum_ids.push(member);
            let mut init = owned("    Id = ");
            init.append(def_type.enum_name.as_str());
            init.append(".");
            init.append(id.as_str());
            init.append(",");
            def_data.AddFieldData(&id, 0, init);
            assert(def_type@.enum_ids =~= d0.enum_ids.push(
                id_name(d0, rv[0]) + " = "@ + decimal((k + 1) as nat),
            ));
        } else if j < def_type.fields.len() && def_type.fields[j].is_field {
            assert(def_type@.fields[j as int] == def_type.fields@[j as int]@);
            add_def_field(&mut def_data, c, (k, j as u32), &def_type.fields[j]);
        }
        j += 1;
    }
    def_type.data_2.push(def_data);
    assert(def_type@.data_2 =~= d0.data_2.push(def_entries(d0, rv, rv.len() as int)));
    assert(def_type@ == with_def_row(d0, rv, k as int));
}

/// Reads the row that names the column types into the class.
fn read_class_row(def_type: &mut DefType, sheet: &Sheet, r: u32, row: &Vec<Cell>) -> (res: Result<
    (),
    SheetError,
>)
    requires
        r + 1 <= u32::MAX,
        row@.len() < u32::MAX,
    ensures
        match class_fold(sheet@, r as int, row_view(row@), old(def_type)@, row@.len() as int) {
            Ok(d) => res is Ok && final(def_type)@ == d,
            Err(e) => res == Err::<(), SheetError>(e),
        },
{
    let ghost d0 = def_type@;
    let ghost rv = row_view(row@);
    let mut j: usize = 0;
    while j < row.len()
        invariant
            j <= row@.len(),
            row@.len() < u32::MAX,
            r + 1 <= u32::MAX,
            d0 == old(def_type)@,
            rv == row_view(row@),
            rv.len() == row@.len(),
            class_fold(sheet@, r as int, rv, d0, j as int) == Ok::<DefTypeV, SheetError>(
                def_type@,
            ),
        decreases row.len() - j,
    {
        let c = &row[j];
        assert(rv[j as int] == c@);
        if c.is_text() {
            let ghost dj = def_type@;
            match add_class_field(def_type, sheet, (r, j as u32), &c.text) {
                Ok(()) => {},
                Err(e) => {
                    proof {
                        assert(class_field(dj, sheet@, r as int, j as int, c.text@) == Err::<
                            DefTypeV,
                            SheetError,
                        >(e));
                        assert(class_fold(sheet@, r as int, rv, d0, j + 1) == Err::<
                            DefTypeV,
                            SheetError,
                        >(e));
                        lemma_class_fold_err(sheet@, r as int, rv, d0, j + 1, rv.len() as int);
                    }
                    return Err(e);
                },
            }
        } else {
            let ghost before = def_type@;
            def_type.fields.push(DefField::empty());
            assert(def_type@.fields =~= before.fields.push(empty_field()));
        }
        j += 1;
    }
    Ok(())
}

/// Reads a row among the globals.
fn read_globals_row(
    global_fields: &mut Vec<String>,
    def_type: &mut DefType,
    state: &mut ReadState,
    sheet: &Sheet,
    r: u32,
    row: &Vec<Cell>,
) -> (res: Result<(), SheetError>)
    requires
        *old(state) == ReadState::GLOBALS,
    ensures
        ({
            let w = Walk {
                state: ReadState::GLOBALS,
                cur_row: r as int,
                cur_def_row: 0,
                rows_to_skip: 0,
                global_fields: views(old(global_fields)@),
                def_type: old(def_type)@,
            };
            match globals_row(sheet@, w, row_view(row@)) {
                Ok(w2) => res is Ok && *final(state) == w2.state && views(final(global_fields)@)
                    == w2.global_fields && final(def_type)@ == w2.def_type,
                Err(e) => res == Err::<(), SheetError>(e),
            }
        }),
{
    let ghost rv = row_view(row@);
    if row.len() > 0 && row[0].is_text() {
        assert(rv[0] == row@[0]@);
        let key = remove_whitespace(row[0].text.as_str());
        if same_text(key.as_str(), "CONST") {
            return add_global_field(global_fields, sheet, (r, 0), "const");
        } else if same_text(key.as_str(), "VAR") {
            return add_global_field(global_fields, sheet, (r, 0), "static");
        } else if same_text(key.as_str(), "HEADER") {
            add_global_header(global_fields, row);
        } else if same_text(key.as_str(), "ENUM") {
            add_global_enum(global_fields, row);
        } else if same_text(key.as_str(), "LIST") {
            return add_global_list(global_fields, row);
        } else if same_text(key.as_str(), "CLASS") {
            let class_name = match sheet.get(r, 1) {
                Some(c) => {
                    if c.is_text() {
                        owned(c.text.as_str())
                    } else {
                        owned("NO-CLASS-NAME-SET")
                    }
                },
                None => {
                    return Err(SheetError::MissingCell);
                },
            };
            def_type.name = class_name;
            *state = ReadState::CLASSFIELDS;
        }
    }
    Ok(())
}

/// Reads a sheet: the global fields and the definition class it declares.
pub fn read_sheet(sheet: &Sheet) -> (res: Result<(Vec<String>, DefType), SheetError>)
    requires
        sheet_fits(sheet),
    ensures
        match sheet_model(sheet@) {
            Ok(m) => res is Ok && views(res->Ok_0.0@) == m.0 && res->Ok_0.1@ == m.1,
            Err(e) => res is Err && res->Err_0 == e,
        },
{
    let mut state = ReadState::GLOBALS;
    let mut cur_row: u32 = 0;
    let mut cur_def_row: u32 = 0;
    let mut rows_to_skip: u32 = 0;
    let mut global_fields: Vec<String> = Vec::new();
    let mut def_type = DefType::new(owned("defClassName"));
    let n = sheet.rows.len();
    let mut i: usize = 0;
    assert(views(global_fields@) =~= Seq::<Seq<char>>::empty());
    while i < n
        invariant
            i <= n,
            n == sheet.rows@.len(),
            n == sheet@.len(),
            sheet_fits(sheet),
            cur_row <= i,
            cur_def_row <= i,
            rows_to_skip <= 1,
            walk(sheet@, i as int) == Ok::<Walk, SheetError>(
                Walk {
                    state,
                    cur_row: cur_row as int,
                    cur_def_row: cur_def_row as int,
                    rows_to_skip: rows_to_skip as int,
                    global_fields: views(global_fields@),
                    def_type: def_type@,
                },
            ),
            state == ReadState::GLOBALS ==> cur_def_row == 0 && rows_to_skip == 0,
        decreases n - i,
    {
        let row = &sheet.rows[i];
        let ghost rv = row_view(row@);
        assert(sheet@[i as int] == rv);
        assert(sheet.rows@[i as int]@.len() < u32::MAX);
        let ghost w = walk(sheet@, i as int)->Ok_0;
        match state {
            ReadState::COMPLETE => {},
            _ => {
                if rows_to_skip > 0 {
                    rows_to_skip -= 1;
                } else {
                    match state {
                        ReadState::GLOBALS => {
                            match read_globals_row(
                                &mut global_fields,
                                &mut def_type,
                                &mut state,
                                sheet,
                                cur_row,
                                row,
                            ) {
                                Ok(()) => {},
                                Err(e) => {
                                    proof {
                                        lemma_walk_err(sheet@, i + 1, n as int);
                                    }
                                    return Err(e);
                                },
                            }
                            cur_row += 1;
                        },
                        ReadState::CLASSFIELDS => {
                            match read_class_row(&mut def_type, sheet, cur_row, row) {
                                Ok(()) => {},
                                Err(e) => {
                                    proof {
                                        lemma_walk_err(sheet@, i + 1, n as int);
                                    }
                                    return Err(e);
                                },
                            }
                            rows_to_skip = 1;
                            state = ReadState::DEFVALUES;
                            cur_row += 1;
                        },
                        _ => {
                            if row.len() > 0 && row[0].is_empty() {
                                assert(rv[0] == row@[0]@);
                                state = ReadState::COMPLETE;
                            } else {
                                read_def_row(&mut def_type, row, cur_def_row);
                                cur_def_row += 1;
                                cur_row += 1;
                            }
                        },
                    }
                }
            },
        }
        i += 1;
    }
    Ok((global_fields, def_type))
}

} // verus!
