//! The columns of the definition class, read from the row that names their
//! types, and the values that one definition row gives them.

use vstd::prelude::*;
use crate::datetime::{cell_date, date_args, date_args_text, get_datetime};
use crate::fields::{SheetError, vector_literal, vector_text};
use crate::model::{
    Cell, CellKind, CellV, DefData, DefField, DefFieldV, DefType, DefTypeV, EntryV, FieldType,
    Sheet, add_entry, cell_at, key_pos, lemma_add_entry_only_key, lemma_key_pos,
    lemma_only_key_lookup, lookup, only_key_changed, first_key_at, lemma_lookup_after_add,
};
use crate::text::{
    lemma_byte_skip_ascii, occurs_at, byte_skip, find_char, first_index, has_text, owned, pop_char, remove_whitespace, same_text,
    skip_bytes, string_of, strip_white, text_contains, to_chars,
};

verus! {

/// What a column's type cell declares: the kind of field, the C# type's name,
/// and for a class field the member's name and the inner field's type and
/// name.
pub struct ColumnKind {
    pub field_type: FieldType,
    pub kind_name: Seq<char>,
    pub member: Seq<char>,
    pub inner_type: Seq<char>,
    pub inner_name: Seq<char>,
}

/// A column kind with no class parts.
pub open spec fn plain_kind(t: FieldType, n: Seq<char>) -> ColumnKind {
    ColumnKind {
        field_type: t,
        kind_name: n,
        member: Seq::empty(),
        inner_type: Seq::empty(),
        inner_name: Seq::empty(),
    }
}

/// The inner field's type and name that a class column's name cell gives:
/// `name:type`, or, with no `:`, the text after its first byte as the type and
/// no name.
pub open spec fn inner_parts(cif: Seq<char>) -> Result<(Seq<char>, Seq<char>), SheetError> {
    match first_index(cif, ':') {
        Some(j) => Ok((cif.skip(j + 1), cif.take(j))),
        None => match byte_skip(cif, 1) {
            Some(r) => Ok((r, Seq::empty())),
            None => Err(SheetError::BadTypeName),
        },
    }
}

/// Whether a list of this element type holds plain values rather than enum
/// members.
pub open spec fn plain_list_type(n: Seq<char>) -> bool {
    n == "string"@ || n == "int"@ || n == "bool"@ || n == "float"@
}

/// What a column's type name `t` declares, given its name cell's text.
pub open spec fn column_kind(t: Seq<char>, name_text: Seq<char>) -> Result<ColumnKind, SheetError> {
    if t == "Int"@ || t == "int"@ {
        Ok(plain_kind(FieldType::INT, "int"@))
    } else if t == "Bool"@ || t == "bool"@ {
        Ok(plain_kind(FieldType::BOOL, "bool"@))
    } else if t == "String"@ || t == "string"@ {
        Ok(plain_kind(FieldType::STRING, "string"@))
    } else if t == "Float"@ || t == "float"@ {
        Ok(plain_kind(FieldType::FLOAT, "float"@))
    } else if t == "Vec2"@ || t == "vec2"@ {
        Ok(plain_kind(FieldType::VEC2, "Vector2"@))
    } else if t == "Vec3"@ || t == "vec3"@ {
        Ok(plain_kind(FieldType::VEC3, "Vector3"@))
    } else if t == "Vec4"@ || t == "vec4"@ {
        Ok(plain_kind(FieldType::VEC4, "Vector4"@))
    } else if has_text(t, "enum:"@) {
        match byte_skip(t, 5) {
            Some(n) => Ok(plain_kind(FieldType::ENUM, n)),
            None => Err(SheetError::BadTypeName),
        }
    } else if has_text(t, "list:"@) {
        match byte_skip(t, 5) {
            Some(n) => Ok(
                plain_kind(
                    if plain_list_type(n) {
                        FieldType::LIST
                    } else {
                        FieldType::ENUMLIST
                    },
                    n,
                ),
            ),
            None => Err(SheetError::BadTypeName),
        }
    } else if has_text(t, "datetime"@) {
        Ok(plain_kind(FieldType::DATETIME, "DateTime"@))
    } else {
        match first_index(t, ':') {
            Some(k) => match inner_parts(name_text) {
                Err(e) => Err(e),
                Ok(p) => Ok(
                    ColumnKind {
                        field_type: FieldType::CLASS,
                        kind_name: t.take(k),
                        member: t.skip(k + 1),
                        inner_type: p.0,
                        inner_name: p.1,
                    },
                ),
            },
            None => Ok(plain_kind(FieldType::NONE, Seq::empty())),
        }
    }
}

/// A column's plain type is declared by its name in lower case or with a
/// capital first letter, and by no other name, with the lower-case name as
/// its C# type name.
pub proof fn lemma_column_kind_plain(t: Seq<char>, name_text: Seq<char>)
    ensures
        (column_kind(t, name_text) is Ok && column_kind(t, name_text)->Ok_0.field_type
            == FieldType::INT) <==> (t == "Int"@ || t == "int"@),
        (column_kind(t, name_text) is Ok && column_kind(t, name_text)->Ok_0.field_type
            == FieldType::BOOL) <==> (t == "Bool"@ || t == "bool"@),
        (column_kind(t, name_text) is Ok && column_kind(t, name_text)->Ok_0.field_type
            == FieldType::STRING) <==> (t == "String"@ || t == "string"@),
        (column_kind(t, name_text) is Ok && column_kind(t, name_text)->Ok_0.field_type
            == FieldType::FLOAT) <==> (t == "Float"@ || t == "float"@),
        t == "Int"@ || t == "int"@ ==> column_kind(t, name_text)->Ok_0.kind_name == "int"@,
        t == "Bool"@ || t == "bool"@ ==> column_kind(t, name_text)->Ok_0.kind_name == "bool"@,
        t == "String"@ || t == "string"@ ==> column_kind(t, name_text)->Ok_0.kind_name
            == "string"@,
        t == "Float"@ || t == "float"@ ==> column_kind(t, name_text)->Ok_0.kind_name == "float"@,
{
    reveal_strlit("Int");
    reveal_strlit("int");
    reveal_strlit("Bool");
    reveal_strlit("bool");
    reveal_strlit("String");
    reveal_strlit("string");
    reveal_strlit("Float");
    reveal_strlit("float");
}

/// A column typed `list:` and an element type declares a list of that
/// element type: a plain list for `string`, `int`, `bool` and `float`, a list
/// of enum members for any other element type.
pub proof fn lemma_list_column_kind(e: Seq<char>, name_text: Seq<char>)
    requires
        !has_text("list:"@ + e, "enum:"@),
    ensures
        column_kind("list:"@ + e, name_text) is Ok,
        column_kind("list:"@ + e, name_text)->Ok_0.kind_name == e,
        column_kind("list:"@ + e, name_text)->Ok_0.field_type == FieldType::LIST || column_kind(
            "list:"@ + e,
            name_text,
        )->Ok_0.field_type == FieldType::ENUMLIST,
        column_kind("list:"@ + e, name_text)->Ok_0.field_type == FieldType::LIST <==> (e
            == "string"@ || e == "int"@ || e == "bool"@ || e == "float"@),
{
    reveal_strlit("list:");
    reveal_strlit("Int");
    reveal_strlit("int");
    reveal_strlit("Bool");
    reveal_strlit("bool");
    reveal_strlit("String");
    reveal_strlit("string");
    reveal_strlit("Float");
    reveal_strlit("float");
    reveal_strlit("Vec2");
    reveal_strlit("vec2");
    reveal_strlit("Vec3");
    reveal_strlit("vec3");
    reveal_strlit("Vec4");
    reveal_strlit("vec4");
    let p = "list:"@;
    let t = p + e;
    assert(t[0] == 'l');
    assert(t != "Int"@ && t != "int"@ && t != "Bool"@ && t != "bool"@ && t != "String"@ && t
        != "string"@ && t != "Float"@ && t != "float"@ && t != "Vec2"@ && t != "vec2"@ && t
        != "Vec3"@ && t != "vec3"@ && t != "Vec4"@ && t != "vec4"@) by {
        assert("Int"@[0] != 'l' && "int"@[0] != 'l' && "Bool"@[0] != 'l' && "bool"@[0] != 'l');
        assert("String"@[0] != 'l' && "string"@[0] != 'l' && "Float"@[0] != 'l' && "float"@[0]
            != 'l');
        assert("Vec2"@[0] != 'l' && "vec2"@[0] != 'l' && "Vec3"@[0] != 'l' && "vec3"@[0] != 'l');
        assert("Vec4"@[0] != 'l' && "vec4"@[0] != 'l');
    }
    assert(t.subrange(0, 5) =~= p);
    assert(occurs_at(t, p, 0));
    assert forall|i: int| 0 <= i < p.len() implies (#[trigger] p[i] as u32) < 0x80 by {}
    lemma_byte_skip_ascii(p, e);
}

/// A column kind, as strings.
pub struct ColumnType {
    pub field_type: FieldType,
    pub kind_name: String,
    pub member: String,
    pub inner_type: String,
    pub inner_name: String,
}

impl View for ColumnType {
    type V = ColumnKind;

    open spec fn view(&self) -> ColumnKind {
        ColumnKind {
            field_type: self.field_type,
            kind_name: self.kind_name@,
            member: self.member@,
            inner_type: self.inner_type@,
            inner_name: self.inner_name@,
        }
    }
}

fn plain_column(t: FieldType, n: String) -> (r: ColumnType)
    ensures
        r@ == plain_kind(t, n@),
{
    ColumnType {
        field_type: t,
        kind_name: n,
        member: String::new(),
        inner_type: String::new(),
        inner_name: String::new(),
    }
}

fn inner_field_parts(cif: &str) -> (r: Result<(String, String), SheetError>)
    ensures
        match r {
            Ok(p) => inner_parts(cif@) == Ok::<(Seq<char>, Seq<char>), SheetError>((p.0@, p.1@)),
            Err(e) => inner_parts(cif@) == Err::<(Seq<char>, Seq<char>), SheetError>(e),
        },
{
    let v = to_chars(cif);
    match find_char(&v, ':') {
        Some(j) => {
            let t = string_of(&v, j + 1, v.len());
            let n = string_of(&v, 0, j);
            assert(t@ =~= cif@.skip(j + 1));
            assert(n@ =~= cif@.take(j as int));
            Ok((t, n))
        },
        None => match skip_bytes(cif, 1) {
            Some(r) => Ok((r, String::new())),
            None => Err(SheetError::BadTypeName),
        },
    }
}

/// What a column's type name `t` declares, given its name cell's text.
#[verifier::spinoff_prover]
pub fn get_column_kind(t: &str, name_text: &str) -> (r: Result<ColumnType, SheetError>)
    ensures
        match r {
            Ok(k) => column_kind(t@, name_text@) == Ok::<ColumnKind, SheetError>(k@),
            Err(e) => column_kind(t@, name_text@) == Err::<ColumnKind, SheetError>(e),
        },
{
    if same_text(t, "Int") || same_text(t, "int") {
        Ok(plain_column(FieldType::INT, owned("int")))
    } else if same_text(t, "Bool") || same_text(t, "bool") {
        Ok(plain_column(FieldType::BOOL, owned("bool")))
    } else if same_text(t, "String") || same_text(t, "string") {
        Ok(plain_column(FieldType::STRING, owned("string")))
    } else if same_text(t, "Float") || same_text(t, "float") {
        Ok(plain_column(FieldType::FLOAT, owned("float")))
    } else if same_text(t, "Vec2") || same_text(t, "vec2") {
        Ok(plain_column(FieldType::VEC2, owned("Vector2")))
    } else if same_text(t, "Vec3") || same_text(t, "vec3") {
        Ok(plain_column(FieldType::VEC3, owned("Vector3")))
    } else if same_text(t, "Vec4") || same_text(t, "vec4") {
        Ok(plain_column(FieldType::VEC4, owned("Vector4")))
    } else if text_contains(t, "enum:") {
        match skip_bytes(t, 5) {
            Some(n) => Ok(plain_column(FieldType::ENUM, n)),
            None => Err(SheetError::BadTypeName),
        }
    } else if text_contains(t, "list:") {
        match skip_bytes(t, 5) {
            Some(n) => {
                let plain = same_text(n.as_str(), "string") || same_text(n.as_str(), "int")
                    || same_text(n.as_str(), "bool") || same_text(n.as_str(), "float");
                let ty = if plain {
                    FieldType::LIST
                } else {
                    FieldType::ENUMLIST
                };
                Ok(plain_column(ty, n))
            },
            None => Err(SheetError::BadTypeName),
        }
    } else if text_contains(t, "datetime") {
        Ok(plain_column(FieldType::DATETIME, owned("DateTime")))
    } else {
        let v = to_chars(t);
        match find_char(&v, ':') {
            Some(k) => match inner_field_parts(name_text) {
                Err(e) => Err(e),
                Ok(p) => {
                    let vl = v.len();
                    assert(k < vl);
                    let (it, inm) = p;
                    let kn = string_of(&v, 0, k);
                    let mb = string_of(&v, k + 1, vl);
                    assert(kn@ =~= t@.take(k as int));
                    assert(mb@ =~= t@.skip(k + 1));
                    Ok(
                        ColumnType {
                            field_type: FieldType::CLASS,
                            kind_name: kn,
                            member: mb,
                            inner_type: it,
                            inner_name: inm,
                        },
                    )
                },
            },
            None => Ok(plain_column(FieldType::NONE, String::new())),
        }
    }
}

/// Whether some column already declares a field of this name.
pub open spec fn name_declared(fields: Seq<DefFieldV>, n: Seq<char>) -> bool {
    exists|i: int| 0 <= i < fields.len() && fields[i].field_name == n
}

/// The field name a column gets: from the class member for a class column,
/// else from its name cell; `NONE` when the name cell holds no string.
pub open spec fn column_field_name(nc: CellV, k: ColumnKind) -> Seq<char> {
    if nc.kind == CellKind::Text {
        if k.field_type == FieldType::CLASS {
            strip_white(k.member)
        } else {
            strip_white(nc.text)
        }
    } else {
        "NONE"@
    }
}

/// The column a kind declares, in a class whose columns are `fields`.
pub open spec fn column_field(fields: Seq<DefFieldV>, nc: CellV, k: ColumnKind) -> DefFieldV {
    let fname = column_field_name(nc, k);
    let declared = name_declared(fields, fname);
    match k.field_type {
        FieldType::LIST | FieldType::ENUMLIST => DefFieldV {
            is_field: true,
            is_main_field: !declared,
            declaration: "public List<"@ + k.kind_name + "> "@ + fname + ";"@,
            field_type: k.field_type,
            field_type_name: k.kind_name,
            field_name: fname,
            class_inner_field_type: Seq::empty(),
            class_inner_field_name: Seq::empty(),
        },
        FieldType::CLASS => DefFieldV {
            is_field: true,
            is_main_field: !declared,
            declaration: "public "@ + k.kind_name + " "@ + fname + ";"@,
            field_type: k.field_type,
            field_type_name: k.kind_name,
            field_name: fname,
            class_inner_field_type: k.inner_type,
            class_inner_field_name: k.inner_name,
        },
        _ => DefFieldV {
            is_field: true,
            is_main_field: true,
            declaration: "public "@ + k.kind_name + " "@ + fname + ";"@,
            field_type: k.field_type,
            field_type_name: k.kind_name,
            field_name: fname,
            class_inner_field_type: Seq::empty(),
            class_inner_field_name: Seq::empty(),
        },
    }
}

/// The class after adding the column at index `c` of kind `k` whose name
/// cell is `nc`: the id column also names the id enum, and a `string` id
/// column turns off the `ID_` prefix.
pub open spec fn with_column(d: DefTypeV, nc: CellV, k: ColumnKind, first: bool) -> DefTypeV {
    DefTypeV {
        name: d.name,
        enum_name: if first {
            nc.text
        } else {
            d.enum_name
        },
        enum_use_id_prefix: if first && k.field_type == FieldType::STRING {
            false
        } else {
            d.enum_use_id_prefix
        },
        enum_ids: d.enum_ids,
        fields: d.fields.push(column_field(d.fields, nc, k)),
        data_2: d.data_2,
    }
}

/// The class after reading the column whose type cell, with text `tv`, is at
/// row `r`, column `c`; its name cell is the one below.
pub open spec fn class_field(
    d: DefTypeV,
    sheet: Seq<Seq<CellV>>,
    r: int,
    c: int,
    tv: Seq<char>,
) -> Result<DefTypeV, SheetError> {
    match cell_at(sheet, r + 1, c) {
        None => Err(SheetError::MissingCell),
        Some(nc) => match column_kind(strip_white(tv), nc.text) {
            Err(e) => Err(e),
            Ok(k) => Ok(with_column(d, nc, k, c == 0)),
        },
    }
}

fn is_declared(fields: &Vec<DefField>, n: &String) -> (r: bool)
    ensures
        r == name_declared(fields@.map_values(|f: DefField| f@), n@),
{
    let ghost fv = fields@.map_values(|f: DefField| f@);
    let mut i: usize = 0;
    while i < fields.len()
        invariant
            i <= fields@.len(),
            fv == fields@.map_values(|f: DefField| f@),
            forall|j: int| 0 <= j < i ==> fv[j].field_name != n@,
        decreases fields.len() - i,
    {
        assert(fv[i as int] == fields@[i as int]@);
        if fields[i].field_name == *n {
            return true;
        }
        i += 1;
    }
    false
}

/// Adds the column whose type cell, with text `field_type_val`, is at `pos`.
pub fn add_class_field(
    def_type: &mut DefType,
    sheet: &Sheet,
    pos: (u32, u32),
    field_type_val: &String,
) -> (res: Result<(), SheetError>)
    requires
        pos.0 + 1 <= u32::MAX,
    ensures
        match class_field(old(def_type)@, sheet@, pos.0 as int, pos.1 as int, field_type_val@) {
            Ok(d) => res is Ok && final(def_type)@ == d,
            Err(e) => res == Err::<(), SheetError>(e) && final(def_type)@ == old(def_type)@,
        },
{
    let field_name = match sheet.get(pos.0 + 1, pos.1) {
        Some(c) => c,
        None => {
            return Err(SheetError::MissingCell);
        },
    };
    let stripped = remove_whitespace(field_type_val.as_str());
    let kind = match get_column_kind(stripped.as_str(), field_name.text.as_str()) {
        Ok(k) => k,
        Err(e) => {
            return Err(e);
        },
    };
    let first_col = pos.1 == 0;
    let fname = if field_name.is_text() {
        match kind.field_type {
            FieldType::CLASS => remove_whitespace(kind.member.as_str()),
            _ => remove_whitespace(field_name.text.as_str()),
        }
    } else {
        owned("NONE")
    };
    let declared = is_declared(&def_type.fields, &fname);
    let field = match kind.field_type {
        FieldType::LIST | FieldType::ENUMLIST => {
            let mut declaration = owned("public List<");
            declaration.append(kind.kind_name.as_str());
            declaration.append("> ");
            declaration.append(fname.as_str());
            declaration.append(";");
            DefField::new(
                !declared,
                declaration,
                kind.field_type,
                owned(kind.kind_name.as_str()),
                fname,
                String::new(),
                String::new(),
            )
        },
        FieldType::CLASS => {
            let mut declaration = owned("public ");
            declaration.append(kind.kind_name.as_str());
            declaration.append(" ");
            declaration.append(fname.as_str());
            declaration.append(";");
            DefField::new(
                !declared,
                declaration,
                kind.field_type,
                owned(kind.kind_name.as_str()),
                fname,
                owned(kind.inner_type.as_str()),
                owned(kind.inner_name.as_str()),
            )
        },
        _ => {
            let mut declaration = owned("public ");
            declaration.append(kind.kind_name.as_str());
            declaration.append(" ");
            declaration.append(fname.as_str());
            declaration.append(";");
            DefField::new(
                true,
                declaration,
                kind.field_type,
                owned(kind.kind_name.as_str()),
                fname,
                String::new(),
                String::new(),
            )
        },
    };
    assert(field@ == column_field(old(def_type)@.fields, field_name@, kind@));
    if first_col {
        def_type.enum_name = owned(field_name.text.as_str());
        if kind.field_type == FieldType::STRING {
            def_type.enum_use_id_prefix = false;
        }
    }
    def_type.fields.push(field);
    assert(def_type@.fields =~= old(def_type)@.fields.push(
        column_field(old(def_type)@.fields, field_name@, kind@),
    ));
    assert(def_type@ == with_column(old(def_type)@, field_name@, kind@, first_col));
    Ok(())
}

/// The C# value of a cell for an element or member of type `t`: a float gets
/// `f`, a string gets quotes, any other is its text.
pub open spec fn value_for_type(t: Seq<char>, c: CellV) -> Seq<char> {
    if t == "float"@ {
        c.text + "f"@
    } else if t == "string"@ {
        "\""@ + c.text + "\""@
    } else {
        c.text
    }
}

/// The C# value of a cell for an element or member of type `list_type`.
pub fn get_value_string_for_type(list_type: &String, col: &Cell) -> (r: String)
    ensures
        r@ == value_for_type(list_type@, col@),
{
    if same_text(list_type.as_str(), "float") {
        let mut r = owned(col.text.as_str());
        r.append("f");
        r
    } else if same_text(list_type.as_str(), "string") {
        let mut r = owned("\"");
        r.append(col.text.as_str());
        r.append("\"");
        r
    } else {
        owned(col.text.as_str())
    }
}

/// `s` less its last two characters, or nothing when it is shorter.
pub open spec fn drop_two(s: Seq<char>) -> Seq<char> {
    if s.len() >= 2 {
        s.take(s.len() - 2)
    } else {
        Seq::empty()
    }
}

/// The entries after cutting the closing `},` off the text stored for `key`
/// and adding `tail` to it; unchanged when there is no entry for `key`.
pub open spec fn extend_entry(data: Seq<EntryV>, key: Seq<char>, tail: Seq<char>) -> Seq<EntryV> {
    match key_pos(data, key) {
        Some(i) => data.update(
            i,
            EntryV { key: data[i].key, col: data[i].col, data: drop_two(data[i].data) + tail },
        ),
        None => data,
    }
}

/// The text that closes a list or class initializer.
pub open spec fn closing() -> Seq<char> {
    "\n            },"@
}

/// What the cell in column `c` of a definition row adds to the row's entries,
/// for the column `f` declares.
pub open spec fn def_field_data(data: Seq<EntryV>, col: CellV, c: u32, f: DefFieldV) -> Seq<
    EntryV,
> {
    let n = f.field_name;
    let tn = f.field_type_name;
    match f.field_type {
        FieldType::NONE => data,
        FieldType::INT => add_entry(data, n, c, n + " = "@ + col.text + ","@),
        FieldType::FLOAT => add_entry(data, n, c, n + " = "@ + col.text + "f,"@),
        FieldType::VEC2 => add_entry(data, n, c, n + " = "@ + vector_literal(2, col.text) + ","@),
        FieldType::VEC3 => add_entry(data, n, c, n + " = "@ + vector_literal(3, col.text) + ","@),
        FieldType::VEC4 => add_entry(data, n, c, n + " = "@ + vector_literal(4, col.text) + ","@),
        FieldType::BOOL => add_entry(data, n, c, n + " = "@ + col.text + ","@),
        FieldType::STRING => add_entry(data, n, c, n + " = \""@ + col.text + "\","@),
        FieldType::ENUM => add_entry(data, n, c, n + " = "@ + tn + "."@ + col.text + ","@),
        FieldType::DATETIME => match cell_date(col) {
            Some(p) => add_entry(
                data,
                n,
                c,
                n + " = new DateTime("@ + date_args(p) + ", // "@ + p.comment,
            ),
            None => data,
        },
        FieldType::LIST | FieldType::ENUMLIST => {
            let empty_col = col.text == ""@ || col.text == " "@;
            if f.is_main_field {
                let vs = if empty_col {
                    Seq::empty()
                } else if f.field_type == FieldType::ENUMLIST {
                    tn + "."@ + col.text + ","@
                } else {
                    value_for_type(tn, col) + ","@
                };
                add_entry(
                    data,
                    n,
                    c,
                    n + " = new List<"@ + tn + ">()\n            { \n                "@ + vs
                        + closing(),
                )
            } else if !empty_col {
                let vs = if f.field_type == FieldType::ENUMLIST {
                    tn + "."@ + col.text
                } else {
                    value_for_type(tn, col)
                };
                extend_entry(data, n, "    "@ + vs + ","@ + closing())
            } else {
                data
            }
        },
        FieldType::CLASS => {
            let vs = value_for_type(f.class_inner_field_type, col);
            if f.is_main_field {
                add_entry(
                    data,
                    n,
                    c,
                    n + " = new "@ + tn + "()\n            { \n                "@
                        + f.class_inner_field_name + " = "@ + vs + ", "@ + closing(),
                )
            } else {
                extend_entry(
                    data,
                    n,
                    "    "@ + f.class_inner_field_name + " = "@ + vs + ","@ + closing(),
                )
            }
        },
    }
}

/// Extending the entry for `key` leaves every other entry, and every column,
/// as it was.
proof fn lemma_extend_entry_only_key(data: Seq<EntryV>, key: Seq<char>, tail: Seq<char>)
    ensures
        only_key_changed(data, extend_entry(data, key, tail), key),
{
    lemma_key_pos(data, key);
}

/// A cell of a definition row changes only the entry of its column's field:
/// every other field is looked up as before, no entry for another field is
/// added, and no entry's column changes.
pub proof fn lemma_def_field_data_only_its_field(
    data: Seq<EntryV>,
    col: CellV,
    c: u32,
    f: DefFieldV,
    other: Seq<char>,
)
    ensures
        only_key_changed(data, def_field_data(data, col, c, f), f.field_name),
        other != f.field_name ==> lookup(def_field_data(data, col, c, f), other) == lookup(
            data,
            other,
        ),
{
    let n = f.field_name;
    let after = def_field_data(data, col, c, f);
    lemma_key_pos(data, n);
    assert(only_key_changed(data, data, n));
    assert forall|t: Seq<char>| only_key_changed(data, #[trigger] add_entry(data, n, c, t), n) by {
        lemma_add_entry_only_key(data, n, c, t);
    }
    assert(only_key_changed(data, after, n)) by {
        reveal_strlit("");
        reveal_strlit(" ");
        let empty_col = col.text == ""@ || col.text == " "@;
        match f.field_type {
            FieldType::NONE => {},
            FieldType::LIST | FieldType::ENUMLIST => {
                if !f.is_main_field && !empty_col {
                    let vs = if f.field_type == FieldType::ENUMLIST {
                        f.field_type_name + "."@ + col.text
                    } else {
                        value_for_type(f.field_type_name, col)
                    };
                    lemma_extend_entry_only_key(data, n, "    "@ + vs + ","@ + closing());
                }
            },
            FieldType::CLASS => {
                if !f.is_main_field {
                    let vs = value_for_type(f.class_inner_field_type, col);
                    lemma_extend_entry_only_key(
                        data,
                        n,
                        "    "@ + f.class_inner_field_name + " = "@ + vs + ","@ + closing(),
                    );
                }
            },
            _ => {},
        }
    }
    if other != n {
        lemma_only_key_lookup(data, after, n, other);
    }
}

/// A list of enum members spread over two columns: the declaring column opens
/// the list with its cell's member, the next column adds its cell's member in
/// the same form, the enum type name, `.` and the cell's text, and the list
/// closes after it.
pub proof fn lemma_enum_list_two_columns(
    data: Seq<EntryV>,
    x: CellV,
    c1: u32,
    main: DefFieldV,
    y: CellV,
    c2: u32,
    more: DefFieldV,
)
    requires
        main.field_type == FieldType::ENUMLIST,
        more.field_type == FieldType::ENUMLIST,
        main.is_main_field,
        !more.is_main_field,
        more.field_name == main.field_name,
        more.field_type_name == main.field_type_name,
        x.text != ""@ && x.text != " "@,
        y.text != ""@ && y.text != " "@,
    ensures
        ({
            let n = main.field_name;
            let tn = main.field_type_name;
            lookup(def_field_data(def_field_data(data, x, c1, main), y, c2, more), n) == Some(
                n + " = new List<"@ + tn + ">()\n            { \n                "@ + tn + "."@
                    + x.text + ",\n                "@ + tn + "."@ + y.text + ",\n            },"@,
            )
        }),
{
    reveal_strlit("");
    reveal_strlit(" ");
    reveal_strlit("\n            },");
    reveal_strlit("\n            ");
    reveal_strlit("    ");
    reveal_strlit(",\n                ");
    reveal_strlit(",");
    reveal_strlit("\n                ");
    let n = main.field_name;
    let tn = main.field_type_name;
    let vs = tn + "."@ + x.text + ","@;
    let first = n + " = new List<"@ + tn + ">()\n            { \n                "@ + vs + closing();
    let head = n + " = new List<"@ + tn + ">()\n            { \n                "@ + vs;
    let d1 = def_field_data(data, x, c1, main);
    assert(d1 == add_entry(data, n, c1, first));
    lemma_lookup_after_add(data, n, c1, first, n);
    lemma_key_pos(d1, n);
    let i = key_pos(d1, n)->Some_0;
    assert(d1[i].data == first);
    assert(drop_two(first) =~= head + "\n            "@);
    let tail = "    "@ + (tn + "."@ + y.text) + ","@ + closing();
    let d2 = def_field_data(d1, y, c2, more);
    assert(d2 == extend_entry(d1, n, tail));
    let newe = EntryV { key: d1[i].key, col: d1[i].col, data: drop_two(first) + tail };
    assert(d2 == d1.update(i, newe));
    assert(first_key_at(d2, n, i));
    lemma_key_pos(d2, n);
    reveal_strlit(",\n            },");
    assert(",\n                "@ =~= ","@ + "\n            "@ + "    "@);
    assert(",\n            },"@ =~= ","@ + closing());
    assert(drop_two(first) + tail =~= n + " = new List<"@ + tn + ">()\n            { \n                "@
        + tn + "."@ + x.text + ",\n                "@ + tn + "."@ + y.text + ",\n            },"@);
}

/// Cuts the closing `},` off the text stored for `key` and adds `tail`.
fn extend_field_data(data: &mut DefData, key: &String, tail: &str)
    ensures
        final(data)@ == extend_entry(old(data)@, key@, tail@),
{
    proof {
        lemma_key_pos(data@, key@);
    }
    match data.find(key) {
        Some(i) => {
            let mut s = owned(data.field_data[i].1.data.as_str());
            assert(s@ == old(data)@[i as int].data);
            pop_char(&mut s);
            pop_char(&mut s);
            assert(s@ =~= drop_two(old(data)@[i as int].data));
            s.append(tail);
            data.set_data(i, s);
        },
        None => {},
    }
}

/// Adds what the cell `col`, at `pos`, gives the column `col_field` declares
/// to the entries of its definition row.
pub fn add_def_field(data_2: &mut DefData, col: &Cell, pos: (u32, u32), col_field: &DefField)
    ensures
        final(data_2)@ == def_field_data(old(data_2)@, col@, pos.1, col_field@),
{
    let n = &col_field.field_name;
    let c = pos.1;
    let text = col.text.as_str();
    match col_field.field_type {
        FieldType::NONE => {},
        FieldType::INT | FieldType::BOOL => {
            let mut s = owned(n.as_str());
            s.append(" = ");
            s.append(text);
            s.append(",");
            data_2.AddFieldData(n, c, s);
        },
        FieldType::FLOAT => {
            let mut s = owned(n.as_str());
            s.append(" = ");
            s.append(text);
            s.append("f,");
            data_2.AddFieldData(n, c, s);
        },
        FieldType::VEC2 | FieldType::VEC3 | FieldType::VEC4 => {
            let dims: u8 = match col_field.field_type {
                FieldType::VEC2 => 2,
                FieldType::VEC3 => 3,
                _ => 4,
            };
            let mut s = owned(n.as_str());
            s.append(" = ");
            s.append(vector_text(dims, text).as_str());
            s.append(",");
            data_2.AddFieldData(n, c, s);
        },
        FieldType::STRING => {
            let mut s = owned(n.as_str());
            s.append(" = \"");
            s.append(text);
            s.append("\",");
            data_2.AddFieldData(n, c, s);
        },
        FieldType::ENUM => {
            let mut s = owned(n.as_str());
            s.append(" = ");
            s.append(col_field.field_type_name.as_str());
            s.append(".");
            s.append(text);
            s.append(",");
            data_2.AddFieldData(n, c, s);
        },
        FieldType::DATETIME => {
            match get_datetime(col) {
                Some(p) => {
                    let mut s = owned(n.as_str());
                    s.append(" = new DateTime(");
                    s.append(date_args_text(&p).as_str());
                    s.append(", // ");
                    s.append(p.comment.as_str());
                    data_2.AddFieldData(n, c, s);
                },
                None => {},
            }
        },
        FieldType::LIST | FieldType::ENUMLIST => {
            let empty_col = same_text(text, "") || same_text(text, " ");
            let enum_list = col_field.field_type == FieldType::ENUMLIST;
            if col_field.is_main_field {
                let vs = if empty_col {
                    String::new()
                } else if enum_list {
                    let mut v = owned(col_field.field_type_name.as_str());
                    v.append(".");
                    v.append(text);
                    v.append(",");
                    v
                } else {
                    let mut v = get_value_string_for_type(&col_field.field_type_name, col);
                    v.append(",");
                    v
                };
                let mut s = owned(n.as_str());
                s.append(" = new List<");
                s.append(col_field.field_type_name.as_str());
                s.append(">()\n            { \n                ");
                s.append(vs.as_str());
                s.append("\n            },");
                data_2.AddFieldData(n, c, s);
            } else if !empty_col {
                let vs = if enum_list {
                    let mut v = owned(col_field.field_type_name.as_str());
                    v.append(".");
                    v.append(text);
                    v
                } else {
                    get_value_string_for_type(&col_field.field_type_name, col)
                };
                let mut tail = owned("    ");
                tail.append(vs.as_str());
                tail.append(",");
                tail.append("\n            },");
                extend_field_data(data_2, n, tail.as_str());
            }
        },
        FieldType::CLASS => {
            let vs = get_value_string_for_type(&col_field.class_inner_field_type, col);
            if col_field.is_main_field {
                let mut s = owned(n.as_str());
                s.append(" = new ");
                s.append(col_field.field_type_name.as_str());
                s.append("()\n            { \n                ");
                s.append(col_field.class_inner_field_name.as_str());
                s.append(" = ");
                s.append(vs.as_str());
                s.append(", ");
                s.append("\n            },");
                data_2.AddFieldData(n, c, s);
            } else {
                let mut tail = owned("    ");
                tail.append(col_field.class_inner_field_name.as_str());
                tail.append(" = ");
                tail.append(vs.as_str());
                tail.append(",");
                tail.append("\n            },");
                extend_field_data(data_2, n, tail.as_str());
            }
        },
    }
}

} // verus!
