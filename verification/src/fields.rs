//! How the cells of a sheet become C# declarations and values: global fields,
//! header comments, enums and lists, the columns of the definition class, and
//! the values of one definition row.

use vstd::prelude::*;
use crate::datetime::{cell_date, date_args, date_args_text, get_datetime};
use crate::model::{Cell, CellKind, CellV, FieldType, Sheet, cell_at, row_view};
use crate::text::{
    byte_skip, decimal, final_string_value, has_text, join, join_strings, owned, quoted,
    remove_whitespace, same_text, skip_bytes, split_bar, split_on, strip_white, text_contains,
    is_white, lemma_strip_white_none,
    u64_text, views,
};

verus! {

/// Why a sheet's layout cannot be read.
#[derive(Clone, Copy, Debug, PartialEq, Eq, Structural)]
pub enum SheetError {
    /// A cell that the layout calls for lies outside the sheet.
    MissingCell,
    /// The value of a `string` field is not a string cell.
    NotText,
    /// A type name cannot be cut where the layout cuts it (the cut falls
    /// inside a character, or past the end).
    BadTypeName,
}

/// The kind of field, and its C# type's name, that a type name declares for
/// a global field or a list.
pub open spec fn named_type(t: Seq<char>) -> Result<(FieldType, Seq<char>), SheetError> {
    if t == "Int"@ || t == "int"@ {
        Ok((FieldType::INT, "int"@))
    } else if t == "Bool"@ || t == "bool"@ {
        Ok((FieldType::BOOL, "bool"@))
    } else if t == "String"@ || t == "string"@ {
        Ok((FieldType::STRING, "string"@))
    } else if t == "Float"@ || t == "float"@ {
        Ok((FieldType::FLOAT, "float"@))
    } else if t == "datetime"@ || t == "DateTime"@ {
        Ok((FieldType::DATETIME, "DateTime"@))
    } else if t == "vec2"@ || t == "Vec2"@ {
        Ok((FieldType::VEC2, "Vector2"@))
    } else if t == "vec3"@ || t == "Vec3"@ {
        Ok((FieldType::VEC3, "Vector3"@))
    } else if t == "vec4"@ || t == "Vec4"@ {
        Ok((FieldType::VEC4, "Vector4"@))
    } else if has_text(t, "enum:"@) {
        match byte_skip(t, 5) {
            Some(n) => Ok((FieldType::ENUM, n)),
            None => Err(SheetError::BadTypeName),
        }
    } else {
        Ok((FieldType::NONE, "none"@))
    }
}


/// Each plain type is declared by its name in lower case or with a capital
/// first letter, and by no other name; its C# type name is the lower-case
/// name.
pub proof fn lemma_named_type_plain(t: Seq<char>)
    ensures
        (named_type(t) is Ok && named_type(t)->Ok_0.0 == FieldType::INT) <==> (t == "Int"@ || t
            == "int"@),
        (named_type(t) is Ok && named_type(t)->Ok_0.0 == FieldType::BOOL) <==> (t == "Bool"@
            || t == "bool"@),
        (named_type(t) is Ok && named_type(t)->Ok_0.0 == FieldType::STRING) <==> (t
            == "String"@ || t == "string"@),
        (named_type(t) is Ok && named_type(t)->Ok_0.0 == FieldType::FLOAT) <==> (t == "Float"@
            || t == "float"@),
        named_type(t) is Ok && named_type(t)->Ok_0.0 == FieldType::INT ==> named_type(t)->Ok_0.1
            == "int"@,
        named_type(t) is Ok && named_type(t)->Ok_0.0 == FieldType::BOOL ==> named_type(t)->Ok_0.1
            == "bool"@,
        named_type(t) is Ok && named_type(t)->Ok_0.0 == FieldType::STRING ==> named_type(
            t,
        )->Ok_0.1 == "string"@,
        named_type(t) is Ok && named_type(t)->Ok_0.0 == FieldType::FLOAT ==> named_type(
            t,
        )->Ok_0.1 == "float"@,
{
    reveal_strlit("Int");
    reveal_strlit("int");
    reveal_strlit("Bool");
    reveal_strlit("bool");
    reveal_strlit("String");
    reveal_strlit("string");
    reveal_strlit("Float");
    reveal_strlit("float");
}

/// The kind of field, and its C# type's name, that `t` declares.
pub fn named_field_type(t: &str) -> (r: Result<(FieldType, String), SheetError>)
    ensures
        match r {
            Ok(p) => named_type(t@) == Ok::<(FieldType, Seq<char>), SheetError>((p.0, p.1@)),
            Err(e) => named_type(t@) == Err::<(FieldType, Seq<char>), SheetError>(e),
        },
{
    if same_text(t, "Int") || same_text(t, "int") {
        Ok((FieldType::INT, owned("int")))
    } else if same_text(t, "Bool") || same_text(t, "bool") {
        Ok((FieldType::BOOL, owned("bool")))
    } else if same_text(t, "String") || same_text(t, "string") {
        Ok((FieldType::STRING, owned("string")))
    } else if same_text(t, "Float") || same_text(t, "float") {
        Ok((FieldType::FLOAT, owned("float")))
    } else if same_text(t, "datetime") || same_text(t, "DateTime") {
        Ok((FieldType::DATETIME, owned("DateTime")))
    } else if same_text(t, "vec2") || same_text(t, "Vec2") {
        Ok((FieldType::VEC2, owned("Vector2")))
    } else if same_text(t, "vec3") || same_text(t, "Vec3") {
        Ok((FieldType::VEC3, owned("Vector3")))
    } else if same_text(t, "vec4") || same_text(t, "Vec4") {
        Ok((FieldType::VEC4, owned("Vector4")))
    } else if text_contains(t, "enum:") {
        match skip_bytes(t, 5) {
            Some(n) => Ok((FieldType::ENUM, n)),
            None => Err(SheetError::BadTypeName),
        }
    } else {
        Ok((FieldType::NONE, owned("none")))
    }
}

/// A C# vector of `dims` components from `|`-separated text: the components
/// as floats when there are exactly `dims` of them, else all zero.
pub open spec fn vector_literal(dims: int, text: Seq<char>) -> Seq<char> {
    let p = split_bar(text);
    if dims == 2 {
        if p.len() == 2 {
            "new Vector2("@ + p[0] + "f, "@ + p[1] + "f)"@
        } else {
            "new Vector2(0f, 0f)"@
        }
    } else if dims == 3 {
        if p.len() == 3 {
            "new Vector3("@ + p[0] + "f, "@ + p[1] + "f, "@ + p[2] + "f)"@
        } else {
            "new Vector3(0f, 0f, 0f)"@
        }
    } else {
        if p.len() == 4 {
            "new Vector4("@ + p[0] + "f, "@ + p[1] + "f, "@ + p[2] + "f, "@ + p[3] + "f)"@
        } else {
            "new Vector4(0f, 0f, 0f, 0f)"@
        }
    }
}

/// A C# vector of `dims` components from `|`-separated text.
pub fn vector_text(dims: u8, text: &str) -> (r: String)
    requires
        2 <= dims <= 4,
    ensures
        r@ == vector_literal(dims as int, text@),
{
    let p = split_on(text, '|');
    let ghost pv = views(p@);
    assert(pv.len() == p@.len());
    let mut r = String::new();
    if dims == 2 {
        if p.len() == 2 {
            assert(pv[0] == p@[0]@ && pv[1] == p@[1]@);
            r.append("new Vector2(");
            r.append(p[0].as_str());
            r.append("f, ");
            r.append(p[1].as_str());
            r.append("f)");
        } else {
            r.append("new Vector2(0f, 0f)");
        }
    } else if dims == 3 {
        if p.len() == 3 {
            assert(pv[0] == p@[0]@ && pv[1] == p@[1]@ && pv[2] == p@[2]@);
            r.append("new Vector3(");
            r.append(p[0].as_str());
            r.append("f, ");
            r.append(p[1].as_str());
            r.append("f, ");
            r.append(p[2].as_str());
            r.append("f)");
        } else {
            r.append("new Vector3(0f, 0f, 0f)");
        }
    } else {
        if p.len() == 4 {
            assert(pv[0] == p@[0]@ && pv[1] == p@[1]@ && pv[2] == p@[2]@ && pv[3] == p@[3]@);
            r.append("new Vector4(");
            r.append(p[0].as_str());
            r.append("f, ");
            r.append(p[1].as_str());
            r.append("f, ");
            r.append(p[2].as_str());
            r.append("f, ");
            r.append(p[3].as_str());
            r.append("f)");
        } else {
            r.append("new Vector4(0f, 0f, 0f, 0f)");
        }
    }
    assert(r@ =~= vector_literal(dims as int, text@));
    r
}

/// The line break that puts each list element on a line of its own.
pub open spec fn list_break(list_field: bool) -> Seq<char> {
    if list_field {
        "\n        "@
    } else {
        Seq::empty()
    }
}

/// A C# `DateTime` for a date cell, ended by `,` in a list and `;` elsewhere,
/// with the date in a comment; `new DateTime()` where the cell holds no date.
pub open spec fn date_value(value: CellV, list_field: bool) -> Seq<char> {
    match cell_date(value) {
        Some(p) => list_break(list_field) + "new DateTime("@ + date_args(p) + (if list_field {
            ","@
        } else {
            ";"@
        }) + " // "@ + p.comment,
        None => "new DateTime()"@,
    }
}

/// The C# value written for a cell of a field of kind `ty`.
pub open spec fn field_value_text(
    ty: FieldType,
    kind_name: Seq<char>,
    value: CellV,
    list_field: bool,
) -> Result<Seq<char>, SheetError> {
    match ty {
        FieldType::STRING => if value.kind == CellKind::Text {
            Ok(quoted(value.text))
        } else {
            Err(SheetError::NotText)
        },
        FieldType::FLOAT => Ok(value.text + "f"@),
        FieldType::ENUM => Ok(kind_name + "."@ + value.text),
        FieldType::VEC2 => Ok(list_break(list_field) + vector_literal(2, value.text)),
        FieldType::VEC3 => Ok(list_break(list_field) + vector_literal(3, value.text)),
        FieldType::VEC4 => Ok(list_break(list_field) + vector_literal(4, value.text)),
        FieldType::DATETIME => Ok(date_value(value, list_field)),
        FieldType::BOOL => Ok(
            if value.text == "1"@ {
                "true"@
            } else {
                "false"@
            },
        ),
        _ => Ok(value.text),
    }
}

/// The C# type name, field name and value that a type cell, a name cell and
/// a value cell give.
pub open spec fn field_strings(ty: CellV, name: CellV, value: CellV, list_field: bool) -> Result<
    (Seq<char>, Seq<char>, Seq<char>),
    SheetError,
> {
    match named_type(strip_white(ty.text)) {
        Err(e) => Err(e),
        Ok(k) => match field_value_text(k.0, k.1, value, list_field) {
            Err(e) => Err(e),
            Ok(v) => Ok((k.1, strip_white(name.text), v)),
        },
    }
}

/// The C# `DateTime` for a date cell.
fn date_value_text(value: &Cell, list_field: bool) -> (r: String)
    ensures
        r@ == date_value(value@, list_field),
{
    match get_datetime(value) {
        Some(p) => {
            let mut r = String::new();
            if list_field {
                r.append("\n        ");
            }
            r.append("new DateTime(");
            r.append(date_args_text(&p).as_str());
            if list_field {
                r.append(",");
            } else {
                r.append(";");
            }
            r.append(" // ");
            r.append(p.comment.as_str());
            assert(r@ =~= date_value(value@, list_field));
            r
        },
        None => owned("new DateTime()"),
    }
}

/// The C# value written for a cell of a field of kind `ty`.
fn cell_value_text(ty: FieldType, kind_name: &String, value: &Cell, list_field: bool) -> (r: Result<
    String,
    SheetError,
>)
    ensures
        match r {
            Ok(v) => field_value_text(ty, kind_name@, value@, list_field) == Ok::<Seq<char>, SheetError>(v@),
            Err(e) => field_value_text(ty, kind_name@, value@, list_field) == Err::<Seq<char>, SheetError>(e),
        },
{
    match ty {
        FieldType::STRING => {
            if value.is_text() {
                Ok(final_string_value(value.text.as_str()))
            } else {
                Err(SheetError::NotText)
            }
        },
        FieldType::FLOAT => {
            let mut r = owned(value.text.as_str());
            r.append("f");
            Ok(r)
        },
        FieldType::ENUM => {
            let mut r = owned(kind_name.as_str());
            r.append(".");
            r.append(value.text.as_str());
            Ok(r)
        },
        FieldType::VEC2 | FieldType::VEC3 | FieldType::VEC4 => {
            let dims: u8 = match ty {
                FieldType::VEC2 => 2,
                FieldType::VEC3 => 3,
                _ => 4,
            };
            let mut r = String::new();
            if list_field {
                r.append("\n        ");
            }
            r.append(vector_text(dims, value.text.as_str()).as_str());
            assert(r@ =~= list_break(list_field) + vector_literal(dims as int, value@.text));
            Ok(r)
        },
        FieldType::DATETIME => Ok(date_value_text(value, list_field)),
        FieldType::BOOL => {
            if same_text(value.text.as_str(), "1") {
                Ok(owned("true"))
            } else {
                Ok(owned("false"))
            }
        },
        _ => Ok(owned(value.text.as_str())),
    }
}

/// The C# type name, field name and value that a type cell, a name cell and
/// a value cell give. A layout that reading cannot follow comes back as a
/// `SheetError` in place of a panic: `NotText` for a `string` field whose
/// value cell is not a string cell, `BadTypeName` for a type name cut inside
/// a character.
pub fn get_field_strings(
    field_type_val: &Cell,
    field_name: &Cell,
    field_value: &Cell,
    list_field: bool,
) -> (r: Result<(String, String, String), SheetError>)
    ensures
        match r {
            Ok(t) => field_strings(field_type_val@, field_name@, field_value@, list_field) == Ok::<
                (Seq<char>, Seq<char>, Seq<char>),
                SheetError,
            >((t.0@, t.1@, t.2@)),
            Err(e) => field_strings(field_type_val@, field_name@, field_value@, list_field)
                == Err::<(Seq<char>, Seq<char>, Seq<char>), SheetError>(e),
        },
{
    let field_str = remove_whitespace(field_type_val.text.as_str());
    let (ty, kind_name) = match named_field_type(field_str.as_str()) {
        Ok(p) => p,
        Err(e) => {
            return Err(e);
        },
    };
    let name = remove_whitespace(field_name.text.as_str());
    match cell_value_text(ty, &kind_name, field_value, list_field) {
        Ok(v) => Ok((kind_name, name, v)),
        Err(e) => Err(e),
    }
}

/// `s` with `o` added at the end when there is one.
pub open spec fn push_opt(s: Seq<Seq<char>>, o: Option<Seq<char>>) -> Seq<Seq<char>> {
    match o {
        Some(l) => s.push(l),
        None => s,
    }
}

/// The declaration of a global field whose marker is at row `r`, column `c`:
/// none when the type cell to its right is empty, else built from that type
/// cell and the name and value cells after it.
pub open spec fn global_field_line(
    sheet: Seq<Seq<CellV>>,
    r: int,
    c: int,
    pre: Seq<char>,
) -> Result<Option<Seq<char>>, SheetError> {
    match cell_at(sheet, r, c + 1) {
        None => Err(SheetError::MissingCell),
        Some(t) => if t.kind == CellKind::Empty {
            Ok(None)
        } else {
            match cell_at(sheet, r, c + 2) {
                None => Err(SheetError::MissingCell),
                Some(n) => match cell_at(sheet, r, c + 3) {
                    None => Err(SheetError::MissingCell),
                    Some(v) => match field_strings(t, n, v, false) {
                        Err(e) => Err(e),
                        Ok(s) => Ok(
                            Some(
                                if pre.len() > 0 {
                                    "public "@ + pre + " "@ + s.0 + " "@ + s.1 + " = "@ + s.2
                                        + ";"@
                                } else {
                                    "public "@ + s.0 + " "@ + s.1 + " = "@ + s.2 + ";"@
                                },
                            ),
                        ),
                    },
                },
            }
        },
    }
}

/// Adds the declaration of the global field whose marker is at `pos`, with
/// `pre` (such as `const` or `static`) before its type.
pub fn add_global_field(
    global_fields: &mut Vec<String>,
    sheet: &Sheet,
    pos: (u32, u32),
    pre: &str,
) -> (res: Result<(), SheetError>)
    requires
        pos.1 + 3 <= u32::MAX,
    ensures
        match global_field_line(sheet@, pos.0 as int, pos.1 as int, pre@) {
            Ok(o) => res is Ok && views(final(global_fields)@) == push_opt(
                views(old(global_fields)@),
                o,
            ),
            Err(e) => res == Err::<(), SheetError>(e) && final(global_fields)@ == old(
                global_fields,
            )@,
        },
{
    let field_type_val = match sheet.get(pos.0, pos.1 + 1) {
        Some(c) => c,
        None => {
            return Err(SheetError::MissingCell);
        },
    };
    if field_type_val.is_empty() {
        return Ok(());
    }
    let field_name = match sheet.get(pos.0, pos.1 + 2) {
        Some(c) => c,
        None => {
            return Err(SheetError::MissingCell);
        },
    };
    let field_value = match sheet.get(pos.0, pos.1 + 3) {
        Some(c) => c,
        None => {
            return Err(SheetError::MissingCell);
        },
    };
    let (t, n, v) = match get_field_strings(field_type_val, field_name, field_value, false) {
        Ok(s) => s,
        Err(e) => {
            return Err(e);
        },
    };
    let mut line = owned("public ");
    if !pre.is_empty() {
        line.append(pre);
        line.append(" ");
    }
    line.append(t.as_str());
    line.append(" ");
    line.append(n.as_str());
    line.append(" = ");
    line.append(v.as_str());
    line.append(";");
    assert(line@ =~= global_field_line(sheet@, pos.0 as int, pos.1 as int, pre@)->Ok_0->Some_0);
    global_fields.push(line);
    assert(views(global_fields@) =~= views(old(global_fields)@).push(line@));
    Ok(())
}

/// The texts of the cells that are not empty, in order.
pub open spec fn nonempty_texts(cells: Seq<CellV>) -> Seq<Seq<char>> {
    cells.filter(|c: CellV| c.kind != CellKind::Empty).map_values(|c: CellV| c.text)
}

proof fn lemma_nonempty_texts_push(cells: Seq<CellV>, c: CellV)
    ensures
        nonempty_texts(cells.push(c)) == if c.kind == CellKind::Empty {
            nonempty_texts(cells)
        } else {
            nonempty_texts(cells).push(c.text)
        },
{
    reveal(Seq::filter);
    assert(cells.push(c).drop_last() =~= cells);
    let f = cells.filter(|c: CellV| c.kind != CellKind::Empty);
    assert(f.push(c).map_values(|c: CellV| c.text) =~= f.map_values(|c: CellV| c.text).push(
        c.text,
    ));
}

/// The cells of `row` from index `k` on.
pub open spec fn cells_from(row: Seq<CellV>, k: int) -> Seq<CellV> {
    if row.len() > k {
        row.subrange(k, row.len() as int)
    } else {
        Seq::empty()
    }
}

/// The title of a header row: the second cell as a comment, when not empty.
pub open spec fn header_title(row: Seq<CellV>) -> Seq<char> {
    if row.len() > 1 && row[1].kind != CellKind::Empty {
        "// -- "@ + row[1].text + " -- "@
    } else {
        Seq::empty()
    }
}

/// The comment line of a header row: its title, then the texts of its later
/// cells that are not empty, separated by spaces.
pub open spec fn header_line(row: Seq<CellV>) -> Seq<char> {
    header_title(row) + join(nonempty_texts(cells_from(row, 2)), " "@)
}

/// The texts of the cells of `row` from index `k` on that are not empty.
fn nonempty_texts_from(row: &Vec<Cell>, k: usize) -> (r: Vec<String>)
    ensures
        views(r@) == nonempty_texts(cells_from(row_view(row@), k as int)),
{
    let ghost rv = row_view(row@);
    let mut r: Vec<String> = Vec::new();
    if row.len() <= k {
        assert(views(r@) =~= Seq::<Seq<char>>::empty());
        proof {
            reveal(Seq::filter);
        }
        return r;
    }
    let mut i: usize = k;
    proof {
        reveal(Seq::filter);
        assert(rv.subrange(k as int, k as int) =~= Seq::<CellV>::empty());
        assert(views(r@) =~= Seq::<Seq<char>>::empty());
    }
    while i < row.len()
        invariant
            k <= i <= row@.len(),
            rv == row_view(row@),
            rv.len() == row@.len(),
            views(r@) == nonempty_texts(rv.subrange(k as int, i as int)),
        decreases row.len() - i,
    {
        let c = &row[i];
        proof {
            assert(rv[i as int] == c@);
            lemma_nonempty_texts_push(rv.subrange(k as int, i as int), c@);
            assert(rv.subrange(k as int, i as int).push(c@) =~= rv.subrange(k as int, i + 1));
        }
        if !c.is_empty() {
            r.push(owned(c.text.as_str()));
            assert(views(r@) =~= nonempty_texts(rv.subrange(k as int, i + 1)));
        }
        i += 1;
    }
    r
}

/// Adds a blank line and the comment line of a header row.
pub fn add_global_header(global_fields: &mut Vec<String>, row: &Vec<Cell>)
    ensures
        views(final(global_fields)@) == views(old(global_fields)@).push(" "@).push(
            header_line(row_view(row@)),
        ),
{
    let ghost rv = row_view(row@);
    let mut line = String::new();
    if row.len() > 1 && !row[1].is_empty() {
        assert(rv[1] == row@[1]@);
        line.append("// -- ");
        line.append(row[1].text.as_str());
        line.append(" -- ");
    }
    let vals = nonempty_texts_from(row, 2);
    line.append(join_strings(&vals, " ").as_str());
    assert(line@ =~= header_line(rv));
    global_fields.push(owned(" "));
    global_fields.push(line);
    assert(views(global_fields@) =~= views(old(global_fields)@).push(" "@).push(
        header_line(rv),
    ));
}

/// The name of an enum row: its second cell, when not empty.
pub open spec fn enum_title(row: Seq<CellV>) -> Seq<char> {
    if row.len() > 1 && row[1].kind != CellKind::Empty {
        row[1].text
    } else {
        Seq::empty()
    }
}

/// The members that the first `n` cells of an enum row declare: each cell
/// from index 2 on that is not empty, numbered by its index less 2.
pub open spec fn enum_members(row: Seq<CellV>, n: int) -> Seq<Seq<char>>
    decreases n,
{
    if n <= 2 {
        Seq::empty()
    } else if row[n - 1].kind != CellKind::Empty {
        enum_members(row, n - 1).push(row[n - 1].text + " = "@ + decimal((n - 3) as nat))
    } else {
        enum_members(row, n - 1)
    }
}

/// The C# enum that an enum row declares.
pub open spec fn enum_decl(row: Seq<CellV>) -> Seq<char> {
    "public enum "@ + enum_title(row) + " \n    {\n       "@ + join(
        enum_members(row, row.len() as int),
        ",\n       "@,
    ) + "    \n    };"@
}

/// Adds the C# enum that an enum row declares.
pub fn add_global_enum(global_fields: &mut Vec<String>, row: &Vec<Cell>)
    ensures
        views(final(global_fields)@) == views(old(global_fields)@).push(enum_decl(row_view(row@))),
{
    let ghost rv = row_view(row@);
    let mut vals: Vec<String> = Vec::new();
    let mut i: usize = 2;
    if row.len() < 2 {
        i = row.len();
    }
    assert(views(vals@) =~= enum_members(rv, i as int));
    while i < row.len()
        invariant
            i <= row@.len(),
            rv == row_view(row@),
            rv.len() == row@.len(),
            i >= 2 || i == row@.len(),
            views(vals@) == enum_members(rv, i as int),
        decreases row.len() - i,
    {
        let c = &row[i];
        assert(rv[i as int] == c@);
        if !c.is_empty() {
            let mut m = owned(c.text.as_str());
            m.append(" = ");
            m.append(u64_text((i - 2) as u64).as_str());
            vals.push(m);
            assert(views(vals@) =~= enum_members(rv, i + 1));
        }
        i += 1;
    }
    let mut line = owned("public enum ");
    if row.len() > 1 && !row[1].is_empty() {
        assert(rv[1] == row@[1]@);
        line.append(row[1].text.as_str());
    }
    line.append(" \n    {\n       ");
    line.append(join_strings(&vals, ",\n       ").as_str());
    line.append("    \n    };");
    assert(line@ =~= enum_decl(rv));
    global_fields.push(line);
    assert(views(global_fields@) =~= views(old(global_fields)@).push(enum_decl(rv)));
}

/// What reading a list row has gathered so far: the element type it names,
/// the list's name, the C# element type, the elements, the type and name
/// cells, and whether each element goes on a line of its own.
pub struct ListAcc {
    pub list_type: Seq<char>,
    pub list_name: Seq<char>,
    pub final_type: Seq<char>,
    pub vals: Seq<Seq<char>>,
    pub type_cell: CellV,
    pub name_cell: CellV,
    pub ending: bool,
}

/// The value of an empty cell.
pub open spec fn empty_cell() -> CellV {
    CellV { kind: CellKind::Empty, text: Seq::empty(), serial_seconds: None }
}

/// Nothing read of a list row yet.
pub open spec fn list_start() -> ListAcc {
    ListAcc {
        list_type: Seq::empty(),
        list_name: Seq::empty(),
        final_type: Seq::empty(),
        vals: Seq::empty(),
        type_cell: empty_cell(),
        name_cell: empty_cell(),
        ending: false,
    }
}

/// Whether list elements of this type are written as whole C# values.
pub open spec fn composite_list_type(t: Seq<char>) -> bool {
    t == "vec2"@ || t == "vec3"@ || t == "vec4"@ || t == "datetime"@
}

/// What reading the cell at index `i` of a list row does.
pub open spec fn list_step(a: ListAcc, i: int, c: CellV) -> Result<ListAcc, SheetError> {
    if c.kind == CellKind::Empty || i == 0 {
        Ok(a)
    } else if i == 1 {
        Ok(
            ListAcc {
                list_type: c.text,
                list_name: a.list_name,
                final_type: c.text,
                vals: a.vals,
                type_cell: c,
                name_cell: a.name_cell,
                ending: a.ending,
            },
        )
    } else if i == 2 {
        Ok(
            ListAcc {
                list_type: a.list_type,
                list_name: c.text,
                final_type: a.final_type,
                vals: a.vals,
                type_cell: a.type_cell,
                name_cell: c,
                ending: a.ending,
            },
        )
    } else if composite_list_type(a.list_type) {
        match field_strings(a.type_cell, a.name_cell, c, true) {
            Err(e) => Err(e),
            Ok(s) => Ok(
                ListAcc {
                    list_type: a.list_type,
                    list_name: a.list_name,
                    final_type: s.0,
                    vals: a.vals.push(s.2),
                    type_cell: a.type_cell,
                    name_cell: a.name_cell,
                    ending: true,
                },
            ),
        }
    } else {
        let v = if a.list_type == "float"@ {
            c.text + "f"@
        } else if a.list_type == "string"@ {
            "\""@ + c.text + "\""@
        } else {
            c.text
        };
        Ok(
            ListAcc {
                list_type: a.list_type,
                list_name: a.list_name,
                final_type: a.final_type,
                vals: a.vals.push(v),
                type_cell: a.type_cell,
                name_cell: a.name_cell,
                ending: a.ending,
            },
        )
    }
}

/// What reading the first `n` cells of a list row gathers.
pub open spec fn list_fold(row: Seq<CellV>, n: int) -> Result<ListAcc, SheetError>
    decreases n,
{
    if n <= 0 {
        Ok(list_start())
    } else {
        match list_fold(row, n - 1) {
            Err(e) => Err(e),
            Ok(a) => list_step(a, n - 1, row[n - 1]),
        }
    }
}

/// Once reading a list row fails, reading more of it fails the same way.
pub proof fn lemma_list_fold_err(row: Seq<CellV>, n: int, m: int)
    requires
        0 <= n <= m,
        list_fold(row, n) is Err,
    ensures
        list_fold(row, m) == list_fold(row, n),
    decreases m - n,
{
    if m > n {
        lemma_list_fold_err(row, n, m - 1);
    }
}

/// The C# element type of a list of `vec2`, `vec3`, `vec4` or `datetime`.
pub open spec fn composite_element_type(t: Seq<char>) -> Seq<char> {
    if t == "vec2"@ {
        "Vector2"@
    } else if t == "vec3"@ {
        "Vector3"@
    } else if t == "vec4"@ {
        "Vector4"@
    } else {
        "DateTime"@
    }
}

proof fn lemma_composite_named(t: Seq<char>)
    requires
        t == "vec2"@ || t == "vec3"@ || t == "vec4"@ || t == "datetime"@,
    ensures
        named_type(strip_white(t)) is Ok,
        named_type(strip_white(t))->Ok_0.1 == composite_element_type(t),
{
    reveal_strlit("Int");
    reveal_strlit("int");
    reveal_strlit("Bool");
    reveal_strlit("bool");
    reveal_strlit("String");
    reveal_strlit("string");
    reveal_strlit("Float");
    reveal_strlit("float");
    reveal_strlit("datetime");
    reveal_strlit("DateTime");
    reveal_strlit("vec2");
    reveal_strlit("Vec2");
    reveal_strlit("vec3");
    reveal_strlit("Vec3");
    reveal_strlit("vec4");
    reveal_strlit("Vec4");
    assert forall|i: int| 0 <= i < t.len() implies !is_white(#[trigger] t[i]) by {}
    lemma_strip_white_none(t);
}

/// The first three cells of a list row fix its type cell and its name cell.
proof fn lemma_list_head(row: Seq<CellV>, n: int)
    requires
        3 <= n <= row.len(),
        row[1].kind != CellKind::Empty,
        list_fold(row, n) is Ok,
    ensures
        list_fold(row, n)->Ok_0.list_type == row[1].text,
        list_fold(row, n)->Ok_0.type_cell == row[1],
        list_fold(row, 3) is Ok,
        list_fold(row, n)->Ok_0.name_cell == list_fold(row, 3)->Ok_0.name_cell,
    decreases n,
{
    if n > 3 {
        if list_fold(row, n - 1) is Err {
            lemma_list_fold_err(row, n - 1, n);
        }
        lemma_list_head(row, n - 1);
    } else {
        assert(list_fold(row, 0) == Ok::<ListAcc, SheetError>(list_start()));
        assert(list_fold(row, 1) == list_step(list_start(), 0, row[0]));
        assert(list_fold(row, 2) == list_step(list_fold(row, 1)->Ok_0, 1, row[1]));
    }
}

/// A list row of `vec2`, `vec3`, `vec4` or `datetime` values writes each
/// element as the C# value that the row's type gives that cell, and declares
/// a list of the C# type (`Vector2`, `Vector3`, `Vector4` or `DateTime`).
pub proof fn lemma_composite_list_values(row: Seq<CellV>, n: int)
    requires
        3 <= n <= row.len(),
        row[1].kind != CellKind::Empty,
        row[1].text == "vec2"@ || row[1].text == "vec3"@ || row[1].text == "vec4"@ || row[1].text
            == "datetime"@,
        list_fold(row, n) is Ok,
    ensures
        ({
            let a = list_fold(row, n)->Ok_0;
            &&& forall|j: int|
                #![trigger a.vals[j]]
                0 <= j < a.vals.len() ==> exists|i: int|
                    3 <= i < n && row[i].kind != CellKind::Empty && #[trigger] field_strings(
                        row[1],
                        a.name_cell,
                        row[i],
                        true,
                    ) is Ok && a.vals[j] == field_strings(row[1], a.name_cell, row[i], true)->Ok_0.2
            &&& a.vals.len() > 0 ==> a.ending && a.final_type == composite_element_type(row[1].text)
        }),
    decreases n,
{
    lemma_list_head(row, n);
    lemma_composite_named(row[1].text);
    let a = list_fold(row, n)->Ok_0;
    if n == 3 {
        assert(list_fold(row, 0) == Ok::<ListAcc, SheetError>(list_start()));
        assert(list_fold(row, 1) == list_step(list_start(), 0, row[0]));
        assert(list_fold(row, 2) == list_step(list_fold(row, 1)->Ok_0, 1, row[1]));
        assert(a.vals.len() == 0);
    } else {
        if list_fold(row, n - 1) is Err {
            lemma_list_fold_err(row, n - 1, n);
        }
        lemma_composite_list_values(row, n - 1);
        lemma_list_head(row, n - 1);
        let p = list_fold(row, n - 1)->Ok_0;
        assert(p.name_cell == a.name_cell);
        let c = row[n - 1];
        if c.kind != CellKind::Empty {
            assert(composite_list_type(p.list_type));
            let s = field_strings(p.type_cell, p.name_cell, c, true)->Ok_0;
            assert(a.vals == p.vals.push(s.2));
            assert forall|j: int| #![trigger a.vals[j]] 0 <= j < a.vals.len() implies exists|i: int|
                3 <= i < n && row[i].kind != CellKind::Empty && #[trigger] field_strings(
                    row[1],
                    a.name_cell,
                    row[i],
                    true,
                ) is Ok && a.vals[j] == field_strings(row[1], a.name_cell, row[i], true)->Ok_0.2 by {
                if j == p.vals.len() {
                    assert(field_strings(row[1], a.name_cell, row[n - 1], true) is Ok);
                } else {
                    assert(a.vals[j] == p.vals[j]);
                    let i = choose|i: int|
                        3 <= i < n - 1 && row[i].kind != CellKind::Empty && #[trigger] field_strings(
                            row[1],
                            p.name_cell,
                            row[i],
                            true,
                        ) is Ok && p.vals[j] == field_strings(row[1], p.name_cell, row[i], true)->Ok_0.2;
                    assert(field_strings(row[1], a.name_cell, row[i], true) is Ok);
                }
            }
        } else {
            assert(a == p);
        }
    }
}

/// The C# list that a list row declares.
pub open spec fn list_decl(a: ListAcc) -> Seq<char> {
    "public static List<"@ + a.final_type + "> "@ + a.list_name + " = new List<"@ + a.final_type
        + ">() { "@ + join(a.vals, ", "@) + " "@ + (if a.ending {
        "\n    "@
    } else {
        Seq::empty()
    }) + "};"@
}

/// A copy of a cell.
pub fn copy_cell(c: &Cell) -> (r: Cell)
    ensures
        r@ == c@,
{
    Cell::new(c.kind, owned(c.text.as_str()), c.serial_seconds)
}

/// Adds the C# list that a list row declares.
pub fn add_global_list(global_fields: &mut Vec<String>, row: &Vec<Cell>) -> (res: Result<
    (),
    SheetError,
>)
    ensures
        match list_fold(row_view(row@), row@.len() as int) {
            Ok(a) => res is Ok && views(final(global_fields)@) == views(old(global_fields)@).push(
                list_decl(a),
            ),
            Err(e) => res == Err::<(), SheetError>(e) && final(global_fields)@ == old(
                global_fields,
            )@,
        },
{
    let ghost rv = row_view(row@);
    let mut list_type = String::new();
    let mut list_name = String::new();
    let mut final_type = String::new();
    let mut vals: Vec<String> = Vec::new();
    let mut type_cell = Cell::empty();
    let mut name_cell = Cell::empty();
    let mut ending = false;
    let mut i: usize = 0;
    assert(views(vals@) =~= Seq::<Seq<char>>::empty());
    while i < row.len()
        invariant
            i <= row@.len(),
            rv == row_view(row@),
            rv.len() == row@.len(),
            list_fold(rv, i as int) == Ok::<ListAcc, SheetError>(
                ListAcc {
                    list_type: list_type@,
                    list_name: list_name@,
                    final_type: final_type@,
                    vals: views(vals@),
                    type_cell: type_cell@,
                    name_cell: name_cell@,
                    ending,
                },
            ),
        decreases row.len() - i,
    {
        let c = &row[i];
        assert(rv[i as int] == c@);
        if !c.is_empty() && i > 0 {
            if i == 1 {
                list_type = owned(c.text.as_str());
                final_type = owned(c.text.as_str());
                type_cell = copy_cell(c);
            } else if i == 2 {
                list_name = owned(c.text.as_str());
                name_cell = copy_cell(c);
            } else if same_text(list_type.as_str(), "vec2") || same_text(list_type.as_str(), "vec3")
                || same_text(list_type.as_str(), "vec4") || same_text(
                list_type.as_str(),
                "datetime",
            ) {
                match get_field_strings(&type_cell, &name_cell, c, true) {
                    Ok(s) => {
                        let (t, _n, v) = s;
                        final_type = t;
                        ending = true;
                        vals.push(v);
                        assert(views(vals@) =~= list_fold(rv, i + 1)->Ok_0.vals);
                    },
                    Err(e) => {
                        proof {
                            lemma_list_fold_err(rv, i + 1, rv.len() as int);
                        }
                        return Err(e);
                    },
                }
            } else {
                let v = if same_text(list_type.as_str(), "float") {
                    let mut v = owned(c.text.as_str());
                    v.append("f");
                    v
                } else if same_text(list_type.as_str(), "string") {
                    let mut v = owned("\"");
                    v.append(c.text.as_str());
                    v.append("\"");
                    v
                } else {
                    owned(c.text.as_str())
                };
                vals.push(v);
                assert(views(vals@) =~= list_fold(rv, i + 1)->Ok_0.vals);
            }
        }
        i += 1;
    }
    let joined = join_strings(&vals, ", ");
    let mut line = owned("public static List<");
    line.append(final_type.as_str());
    line.append("> ");
    line.append(list_name.as_str());
    line.append(" = new List<");
    line.append(final_type.as_str());
    line.append(">() { ");
    line.append(joined.as_str());
    line.append(" ");
    if ending {
        line.append("\n    ");
    }
    line.append("};");
    proof {
        let a = list_fold(rv, rv.len() as int)->Ok_0;
        assert(line@ =~= list_decl(a));
    }
    global_fields.push(line);
    assert(views(global_fields@) =~= views(old(global_fields)@).push(line@));
    Ok(())
}

} // verus!
