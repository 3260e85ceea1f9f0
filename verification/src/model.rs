//! The data the generator works on: the cells of a sheet, the kinds of field
//! a column can declare, the definition class being built, and the data of one
//! definition row.

use vstd::prelude::*;

verus! {

/// What a spreadsheet cell holds, as far as the generator tells cells apart.
#[derive(Clone, Copy, Debug, PartialEq, Eq, Structural)]
pub enum CellKind {
    /// No value.
    Empty,
    /// A string value.
    Text,
    /// A number, a boolean, a date or an error value.
    Other,
}

/// One cell: its kind, the text that displaying it gives, and, where that text
/// reads as a spreadsheet date serial, that serial's days from the Unix epoch
/// in whole seconds, cut toward zero.
pub struct Cell {
    pub kind: CellKind,
    pub text: String,
    pub serial_seconds: Option<i64>,
}

/// The mathematical value of a cell.
pub struct CellV {
    pub kind: CellKind,
    pub text: Seq<char>,
    pub serial_seconds: Option<i64>,
}

impl View for Cell {
    type V = CellV;

    open spec fn view(&self) -> CellV {
        CellV { kind: self.kind, text: self.text@, serial_seconds: self.serial_seconds }
    }
}

impl Cell {
    /// A cell from its parts.
    pub fn new(kind: CellKind, text: String, serial_seconds: Option<i64>) -> (r: Cell)
        ensures
            r@ == (CellV { kind, text: text@, serial_seconds }),
    {
        Cell { kind, text, serial_seconds }
    }

    /// An empty cell.
    pub fn empty() -> (r: Cell)
        ensures
            r@ == (CellV { kind: CellKind::Empty, text: Seq::empty(), serial_seconds: None }),
    {
        Cell { kind: CellKind::Empty, text: String::new(), serial_seconds: None }
    }

    /// Whether the cell holds no value.
    pub fn is_empty(&self) -> (r: bool)
        ensures
            r == (self@.kind == CellKind::Empty),
    {
        match self.kind {
            CellKind::Empty => true,
            _ => false,
        }
    }

    /// Whether the cell holds a string value.
    pub fn is_text(&self) -> (r: bool)
        ensures
            r == (self@.kind == CellKind::Text),
    {
        match self.kind {
            CellKind::Text => true,
            _ => false,
        }
    }
}

/// The mathematical value of a row of cells.
pub open spec fn row_view(row: Seq<Cell>) -> Seq<CellV> {
    row.map_values(|c: Cell| c@)
}

/// A sheet: its rows from the top-left cell on, each row a list of cells.
pub struct Sheet {
    pub rows: Vec<Vec<Cell>>,
}

impl View for Sheet {
    type V = Seq<Seq<CellV>>;

    open spec fn view(&self) -> Seq<Seq<CellV>> {
        self.rows@.map_values(|r: Vec<Cell>| row_view(r@))
    }
}

/// The cell at row `r`, column `c`, if the sheet reaches that far.
pub open spec fn cell_at(sheet: Seq<Seq<CellV>>, r: int, c: int) -> Option<CellV> {
    if 0 <= r < sheet.len() && 0 <= c < sheet[r].len() {
        Some(sheet[r][c])
    } else {
        None
    }
}

impl Sheet {
    /// The cell at row `r`, column `c`, if the sheet reaches that far.
    pub fn get(&self, r: u32, c: u32) -> (res: Option<&Cell>)
        ensures
            match res {
                Some(cell) => cell_at(self@, r as int, c as int) == Some(cell@),
                None => cell_at(self@, r as int, c as int) is None,
            },
    {
        let ru = r as usize;
        let cu = c as usize;
        if ru < self.rows.len() {
            if cu < self.rows[ru].len() {
                let cell = &self.rows[ru][cu];
                return Some(cell);
            }
        }
        None
    }
}

/// The kinds of field that a sheet can declare.
#[derive(Clone, Copy, Debug, PartialEq, Eq, Structural)]
pub enum FieldType {
    NONE,
    INT,
    FLOAT,
    STRING,
    BOOL,
    ENUM,
    VEC2,
    VEC3,
    VEC4,
    DATETIME,
    CLASS,
    LIST,
    ENUMLIST,
}

/// One column of the definition class: whether it is a field at all, whether
/// it is the column that declares it (later columns of a list or class field
/// add to it), its C# declaration, its kind, its type's name, its name, and for
/// a class field the type and name of the inner field.
pub struct DefField {
    pub is_field: bool,
    pub is_main_field: bool,
    pub declaration: String,
    pub field_type: FieldType,
    pub field_type_name: String,
    pub field_name: String,
    pub class_inner_field_type: String,
    pub class_inner_field_name: String,
}

/// The mathematical value of a `DefField`.
pub struct DefFieldV {
    pub is_field: bool,
    pub is_main_field: bool,
    pub declaration: Seq<char>,
    pub field_type: FieldType,
    pub field_type_name: Seq<char>,
    pub field_name: Seq<char>,
    pub class_inner_field_type: Seq<char>,
    pub class_inner_field_name: Seq<char>,
}

impl View for DefField {
    type V = DefFieldV;

    open spec fn view(&self) -> DefFieldV {
        DefFieldV {
            is_field: self.is_field,
            is_main_field: self.is_main_field,
            declaration: self.declaration@,
            field_type: self.field_type,
            field_type_name: self.field_type_name@,
            field_name: self.field_name@,
            class_inner_field_type: self.class_inner_field_type@,
            class_inner_field_name: self.class_inner_field_name@,
        }
    }
}

/// The column that declares no field.
pub open spec fn empty_field() -> DefFieldV {
    DefFieldV {
        is_field: false,
        is_main_field: false,
        declaration: Seq::empty(),
        field_type: FieldType::NONE,
        field_type_name: Seq::empty(),
        field_name: Seq::empty(),
        class_inner_field_type: Seq::empty(),
        class_inner_field_name: Seq::empty(),
    }
}

impl DefField {
    /// A column that declares no field.
    pub fn empty() -> (r: DefField)
        ensures
            r@ == empty_field(),
    {
        DefField {
            is_main_field: false,
            is_field: false,
            declaration: String::new(),
            field_type: FieldType::NONE,
            field_type_name: String::new(),
            field_name: String::new(),
            class_inner_field_type: String::new(),
            class_inner_field_name: String::new(),
        }
    }

    /// A column that declares a field.
    pub fn new(
        is_main_field: bool,
        declaration: String,
        field_type: FieldType,
        field_type_name: String,
        field_name: String,
        class_inner_field_type: String,
        class_inner_field_name: String,
    ) -> (r: DefField)
        ensures
            r@ == (DefFieldV {
                is_field: true,
                is_main_field,
                declaration: declaration@,
                field_type,
                field_type_name: field_type_name@,
                field_name: field_name@,
                class_inner_field_type: class_inner_field_type@,
                class_inner_field_name: class_inner_field_name@,
            }),
    {
        DefField {
            is_field: true,
            is_main_field: is_main_field,
            declaration: declaration,
            field_type: field_type,
            field_type_name: field_type_name,
            field_name: field_name,
            class_inner_field_type: class_inner_field_type,
            class_inner_field_name: class_inner_field_name,
        }
    }
}

/// The text that one column contributes to a definition, and its column.
pub struct DefFieldData {
    pub col: u32,
    pub data: String,
}

/// One entry of a definition: the field it belongs to, its column, its text.
pub struct EntryV {
    pub key: Seq<char>,
    pub col: u32,
    pub data: Seq<char>,
}

/// The entries of one definition row, one per field name, in the order they
/// were first added.
pub struct DefData {
    pub field_data: Vec<(String, DefFieldData)>,
}

/// The mathematical value of one stored entry.
pub open spec fn entry_view(e: (String, DefFieldData)) -> EntryV {
    EntryV { key: e.0@, col: e.1.col, data: e.1.data@ }
}

impl View for DefData {
    type V = Seq<EntryV>;

    open spec fn view(&self) -> Seq<EntryV> {
        self.field_data@.map_values(|e: (String, DefFieldData)| entry_view(e))
    }
}

/// The index of the entry for `key`: the first one whose key it is.
pub open spec fn key_pos(entries: Seq<EntryV>, key: Seq<char>) -> Option<int> {
    if exists|i: int| 0 <= i < entries.len() && entries[i].key == key {
        Some(
            choose|i: int|
                0 <= i < entries.len() && entries[i].key == key && forall|j: int|
                    0 <= j < i ==> entries[j].key != key,
        )
    } else {
        None
    }
}

/// No two entries share a key.
pub open spec fn keys_distinct(entries: Seq<EntryV>) -> bool {
    forall|i: int, j: int|
        0 <= i < entries.len() && 0 <= j < entries.len() && i != j ==> entries[i].key
            != entries[j].key
}

/// The text stored for `key`, if any.
pub open spec fn lookup(entries: Seq<EntryV>, key: Seq<char>) -> Option<Seq<char>> {
    match key_pos(entries, key) {
        Some(i) => Some(entries[i].data),
        None => None,
    }
}

/// What adding `data` for `key` at column `col` does: the entry for `key`
/// gets the new text and keeps its column, or a new entry goes at the end.
pub open spec fn add_entry(entries: Seq<EntryV>, key: Seq<char>, col: u32, data: Seq<char>) -> Seq<
    EntryV,
> {
    match key_pos(entries, key) {
        Some(i) => entries.update(i, EntryV { key: entries[i].key, col: entries[i].col, data }),
        None => entries.push(EntryV { key, col, data }),
    }
}

impl DefData {
    /// A definition row with no entries yet.
    pub fn new() -> (r: DefData)
        ensures
            r@ == Seq::<EntryV>::empty(),
    {
        DefData { field_data: Vec::new() }
    }

    /// The index of the entry for `key`, if there is one.
    pub fn find(&self, key: &String) -> (r: Option<usize>)
        ensures
            match r {
                Some(i) => key_pos(self@, key@) == Some(i as int),
                None => key_pos(self@, key@) is None,
            },
    {
        let mut i: usize = 0;
        while i < self.field_data.len()
            invariant
                i <= self@.len(),
                self@.len() == self.field_data@.len(),
                forall|j: int| 0 <= j < i ==> self@[j].key != key@,
            decreases self.field_data.len() - i,
        {
            if self.field_data[i].0 == *key {
                proof {
                    let w = choose|k: int|
                        0 <= k < self@.len() && self@[k].key == key@ && forall|j: int|
                            0 <= j < k ==> self@[j].key != key@;
                    assert(self@[i as int].key == key@);
                    if w < i {
                    } else if w > i {
                    }
                }
                return Some(i);
            }
            i += 1;
        }
        None
    }

    /// Replaces the text of the entry at `i`, keeping its key and column.
    pub fn set_data(&mut self, i: usize, data: String)
        requires
            i < old(self)@.len(),
        ensures
            final(self)@ == old(self)@.update(
                i as int,
                EntryV { key: old(self)@[i as int].key, col: old(self)@[i as int].col, data: data@ },
            ),
    {
        let key = self.field_data[i].0.clone();
        let col = self.field_data[i].1.col;
        self.field_data.set(i, (key, DefFieldData { col, data }));
        assert(self@ =~= old(self)@.update(
            i as int,
            EntryV { key: old(self)@[i as int].key, col: old(self)@[i as int].col, data: data@ },
        ));
    }

    /// Sets the text of the entry for `field_name`, or adds an entry for it at
    /// column `col` when there is none.
    #[allow(non_snake_case)]
    pub fn AddFieldData(&mut self, field_name: &String, col: u32, field_data: String)
        ensures
            final(self)@ == add_entry(old(self)@, field_name@, col, field_data@),
    {
        proof {
            lemma_key_pos(self@, field_name@);
        }
        match self.find(field_name) {
            Some(i) => {
                self.set_data(i, field_data);
            },
            None => {
                let key = field_name.clone();
                self.field_data.push((key, DefFieldData { col, data: field_data }));
                assert(self@ =~= old(self)@.push(
                    EntryV { key: field_name@, col, data: field_data@ },
                ));
            },
        }
    }
}

/// Adding keeps the keys distinct.
pub proof fn lemma_add_entry_keeps_keys_distinct(
    entries: Seq<EntryV>,
    key: Seq<char>,
    col: u32,
    data: Seq<char>,
)
    requires
        keys_distinct(entries),
    ensures
        keys_distinct(add_entry(entries, key, col, data)),
{
}

/// `i` is the first index holding `key`.
pub open spec fn first_key_at(entries: Seq<EntryV>, key: Seq<char>, i: int) -> bool {
    0 <= i < entries.len() && entries[i].key == key && forall|j: int|
        0 <= j < i ==> entries[j].key != key
}

/// What `key_pos` gives, stated without `choose`.
pub proof fn lemma_key_pos(entries: Seq<EntryV>, key: Seq<char>)
    ensures
        match key_pos(entries, key) {
            Some(i) => first_key_at(entries, key, i),
            None => forall|j: int| 0 <= j < entries.len() ==> entries[j].key != key,
        },
        forall|i: int| first_key_at(entries, key, i) ==> key_pos(entries, key) == Some(i),
{
    if exists|i: int| 0 <= i < entries.len() && entries[i].key == key {
        let w = choose|i: int| 0 <= i < entries.len() && entries[i].key == key;
        lemma_least_key(entries, key, w);
        let p = key_pos(entries, key)->0;
        assert forall|i: int| first_key_at(entries, key, i) implies p == i by {
            if p < i {
            } else if i < p {
            }
        }
    }
}

proof fn lemma_least_key(entries: Seq<EntryV>, key: Seq<char>, w: int)
    requires
        0 <= w < entries.len(),
        entries[w].key == key,
    ensures
        exists|i: int| first_key_at(entries, key, i),
    decreases w,
{
    if exists|j: int| 0 <= j < w && entries[j].key == key {
        let j = choose|j: int| 0 <= j < w && entries[j].key == key;
        lemma_least_key(entries, key, j);
    } else {
        assert(first_key_at(entries, key, w));
    }
}

/// A lookup after an add gives what was added, for that key, and what was
/// there before, for every other key.
pub proof fn lemma_lookup_after_add(
    entries: Seq<EntryV>,
    key: Seq<char>,
    col: u32,
    data: Seq<char>,
    other: Seq<char>,
)
    ensures
        lookup(add_entry(entries, key, col, data), key) == Some(data),
        other != key ==> lookup(add_entry(entries, key, col, data), other) == lookup(
            entries,
            other,
        ),
{
    let after = add_entry(entries, key, col, data);
    lemma_key_pos(entries, key);
    lemma_key_pos(entries, other);
    lemma_key_pos(after, key);
    lemma_key_pos(after, other);
    match key_pos(entries, key) {
        Some(i) => {
            assert(first_key_at(after, key, i));
            if other != key {
                match key_pos(entries, other) {
                    Some(p) => {
                        assert(first_key_at(after, other, p));
                    },
                    None => {
                        assert forall|k: int| 0 <= k < after.len() implies after[k].key
                            != other by {
                            if k != i {
                                assert(entries[k].key != other);
                            }
                        }
                    },
                }
            }
        },
        None => {
            let n = entries.len() as int;
            assert(first_key_at(after, key, n));
            if other != key {
                match key_pos(entries, other) {
                    Some(p) => {
                        assert(first_key_at(after, other, p));
                    },
                    None => {
                        assert forall|k: int| 0 <= k < after.len() implies after[k].key
                            != other by {
                            if k < n {
                                assert(entries[k].key != other);
                            }
                        }
                    },
                }
            }
        },
    }
}

/// What changing the entries for `key` may do to the others: every entry
/// already there keeps its place, its key and its column, an entry for
/// another key stays exactly as it was, and an entry added goes at the end
/// and is for `key`.
pub open spec fn only_key_changed(before: Seq<EntryV>, after: Seq<EntryV>, key: Seq<char>) -> bool {
    &&& before.len() <= after.len() <= before.len() + 1
    &&& forall|i: int|
        0 <= i < before.len() ==> {
            &&& #[trigger] after[i].key == before[i].key
            &&& after[i].col == before[i].col
            &&& before[i].key != key ==> after[i] == before[i]
        }
    &&& forall|i: int| before.len() <= i < after.len() ==> #[trigger] after[i].key == key
}

/// Adding for `key` leaves every other key's entry, and every column, as it
/// was.
pub proof fn lemma_add_entry_only_key(entries: Seq<EntryV>, key: Seq<char>, col: u32, data: Seq<char>)
    ensures
        only_key_changed(entries, add_entry(entries, key, col, data), key),
{
    lemma_key_pos(entries, key);
}

/// Where only the entries for `key` changed, every other key is looked up
/// as before.
pub proof fn lemma_only_key_lookup(
    before: Seq<EntryV>,
    after: Seq<EntryV>,
    key: Seq<char>,
    other: Seq<char>,
)
    requires
        only_key_changed(before, after, key),
        other != key,
    ensures
        lookup(after, other) == lookup(before, other),
{
    lemma_key_pos(before, other);
    lemma_key_pos(after, other);
    match key_pos(before, other) {
        Some(p) => {
            assert(after[p].key == before[p].key);
            assert forall|j: int| 0 <= j < p implies after[j].key != other by {
                assert(after[j].key == before[j].key);
            }
            assert(first_key_at(after, other, p));
            assert(after[p] == before[p]);
        },
        None => {
            assert forall|j: int| 0 <= j < after.len() implies after[j].key != other by {
                if j < before.len() {
                    assert(after[j].key == before[j].key);
                }
            }
        },
    }
}

/// The definition class that a sheet declares: its name, its id enum's name,
/// whether ids get the `ID_` prefix, the id enum's members, its columns, and
/// the data of each definition row.
pub struct DefType {
    pub name: String,
    pub enum_name: String,
    pub enum_use_id_prefix: bool,
    pub enum_ids: Vec<String>,
    pub fields: Vec<DefField>,
    pub data_2: Vec<DefData>,
}

/// The mathematical value of a `DefType`.
pub struct DefTypeV {
    pub name: Seq<char>,
    pub enum_name: Seq<char>,
    pub enum_use_id_prefix: bool,
    pub enum_ids: Seq<Seq<char>>,
    pub fields: Seq<DefFieldV>,
    pub data_2: Seq<Seq<EntryV>>,
}

impl View for DefType {
    type V = DefTypeV;

    open spec fn view(&self) -> DefTypeV {
        DefTypeV {
            name: self.name@,
            enum_name: self.enum_name@,
            enum_use_id_prefix: self.enum_use_id_prefix,
            enum_ids: self.enum_ids@.map_values(|s: String| s@),
            fields: self.fields@.map_values(|f: DefField| f@),
            data_2: self.data_2@.map_values(|d: DefData| d@),
        }
    }
}

/// A definition class with the given name and nothing declared yet.
pub open spec fn new_def_type(name: Seq<char>) -> DefTypeV {
    DefTypeV {
        name,
        enum_name: Seq::empty(),
        enum_use_id_prefix: true,
        enum_ids: Seq::empty(),
        fields: Seq::empty(),
        data_2: Seq::empty(),
    }
}

impl DefType {
    /// A definition class with the given name and nothing declared yet.
    pub fn new(name: String) -> (r: DefType)
        ensures
            r@ == new_def_type(name@),
    {
        let r = DefType {
            name: name,
            enum_name: String::new(),
            enum_use_id_prefix: true,
            enum_ids: Vec::new(),
            fields: Vec::new(),
            data_2: Vec::new(),
        };
        assert(r@.enum_ids =~= Seq::<Seq<char>>::empty());
        assert(r@.fields =~= Seq::<DefFieldV>::empty());
        assert(r@.data_2 =~= Seq::<Seq<EntryV>>::empty());
        r
    }
}

} // verus!
