//! The C# text that a sheet turns into: the marked blocks that a later run
//! swaps in place, the definition class, and the whole file for a new script.

use vstd::prelude::*;
use crate::model::{DefData, DefFieldData, DefFieldV, DefType, DefTypeV, EntryV, entry_view};
use crate::text::{decimal, has_text, join, join_strings, occurs_at, owned, u64_text, views};

verus! {

/// The marker word of the global fields block.
pub const FIELD_BLOCK: &'static str = "FIELDS";

/// The marker word of the definitions block.
pub const DEF_BLOCK: &'static str = "DEFS";

/// The marker word of the id enum block.
pub const ENUM_BLOCK: &'static str = "ENUM";

/// The marker word of the definition fields block.
pub const DEF_FIELDS_BLOCK: &'static str = "DEF-FIELDS";

/// The marker word of the functions block.
pub const FUNC_BLOCK: &'static str = "FUNCTIONS";

/// The line that opens the block named `inner`.
pub open spec fn start_marker(inner: Seq<char>) -> Seq<char> {
    "//-"@ + inner + "-S-"@
}

/// The line that closes the block named `inner`.
pub open spec fn end_marker(inner: Seq<char>) -> Seq<char> {
    "//-"@ + inner + "-E-"@
}

/// The comment that opens the block named `inner`.
pub fn start_block(inner: &str) -> (r: String)
    ensures
        r@ == start_marker(inner@),
{
    let mut r = String::new();
    r.append("//-");
    r.append(inner);
    r.append("-S-");
    assert(r@ =~= start_marker(inner@));
    r
}

/// The comment that closes the block named `inner`.
pub fn end_block(inner: &str) -> (r: String)
    ensures
        r@ == end_marker(inner@),
{
    let mut r = String::new();
    r.append("//-");
    r.append(inner);
    r.append("-E-");
    assert(r@ =~= end_marker(inner@));
    r
}

/// An opening marker is never the closing marker of any block.
pub proof fn lemma_markers_differ(a: Seq<char>, b: Seq<char>)
    ensures
        start_marker(a) != end_marker(b),
{
    reveal_strlit("-S-");
    reveal_strlit("-E-");
    let s = start_marker(a);
    let e = end_marker(b);
    if s == e {
        assert(s[s.len() - 2] == 'S');
        assert(e[e.len() - 2] == 'E');
    }
}

/// The id enum block: the enum `NONE = 0` and then one member per definition.
#[verifier::opaque]
pub open spec fn enums_block(d: DefTypeV) -> Seq<char> {
    start_marker(ENUM_BLOCK@) + "\npublic enum "@ + d.enum_name + " \n{ \n    NONE = 0,\n    "@
        + join(d.enum_ids, ",\n    "@) + " \n}\n"@ + end_marker(ENUM_BLOCK@)
}

/// The id enum block of `def_type`.
pub fn get_enums_block(def_type: &DefType) -> (r: String)
    ensures
        r@ == enums_block(def_type@),
{
    let enums = join_strings(&def_type.enum_ids, ",\n    ");
    let mut r = start_block(ENUM_BLOCK);
    r.append("\npublic enum ");
    r.append(def_type.enum_name.as_str());
    r.append(" \n{ \n    NONE = 0,\n    ");
    r.append(enums.as_str());
    r.append(" \n}\n");
    r.append(end_block(ENUM_BLOCK).as_str());
    reveal(enums_block);
    assert(r@ =~= enums_block(def_type@));
    r
}

/// The functions block: a `GetDef` lookup by id into the definitions array.
#[verifier::opaque]
pub open spec fn funcs_block(d: DefTypeV) -> Seq<char> {
    "    "@ + start_marker(FUNC_BLOCK@) + "\n    "@ + "public static "@ + d.name + " GetDef("@
        + d.enum_name + " id)\n    {\n        "@ + d.name
        + " ret = null;\n        int index = (int)id;\n        if(index > -1 && index < defs.Length)\n        {\n            ret = defs[index];\n        }\n        else\n        {\n            Debug.LogError($\""@
        + d.name + " GetDef({index}) not found\");\n        }\n        return ret;\n    }\n    "@
        + "\n    "@ + end_marker(FUNC_BLOCK@)
}

/// The functions block of `def_type`.
pub fn get_funcs_block(def_type: &DefType) -> (r: String)
    ensures
        r@ == funcs_block(def_type@),
{
    let mut r = String::new();
    r.append("    ");
    r.append(start_block(FUNC_BLOCK).as_str());
    r.append("\n    ");
    r.append("public static ");
    r.append(def_type.name.as_str());
    r.append(" GetDef(");
    r.append(def_type.enum_name.as_str());
    r.append(" id)\n    {\n        ");
    r.append(def_type.name.as_str());
    r.append(
        " ret = null;\n        int index = (int)id;\n        if(index > -1 && index < defs.Length)\n        {\n            ret = defs[index];\n        }\n        else\n        {\n            Debug.LogError($\"",
    );
    r.append(def_type.name.as_str());
    r.append(" GetDef({index}) not found\");\n        }\n        return ret;\n    }\n    ");
    r.append("\n    ");
    r.append(end_block(FUNC_BLOCK).as_str());
    reveal(funcs_block);
    assert(r@ =~= funcs_block(def_type@));
    r
}

/// Whether the column at `index` declares a field of the definition class: a
/// field column that declares it, other than the id column.
pub open spec fn declares_member(f: DefFieldV, index: int) -> bool {
    f.is_field && f.is_main_field && index > 0
}

/// The declarations of the first `n` columns that declare a member.
pub open spec fn member_declarations(fields: Seq<DefFieldV>, n: int) -> Seq<Seq<char>>
    decreases n,
{
    if n <= 0 {
        Seq::empty()
    } else if declares_member(fields[n - 1], n - 1) {
        member_declarations(fields, n - 1).push(fields[n - 1].declaration)
    } else {
        member_declarations(fields, n - 1)
    }
}

/// The definition fields block: the `Id` field and one declaration per
/// declaring column.
#[verifier::opaque]
pub open spec fn def_fields_block(d: DefTypeV) -> Seq<char> {
    "    "@ + start_marker(DEF_FIELDS_BLOCK@) + "\n    public "@ + d.enum_name + " Id;\n    "@
        + join(member_declarations(d.fields, d.fields.len() as int), "\n    "@) + "\n    "@
        + end_marker(DEF_FIELDS_BLOCK@)
}

/// The definition fields block of `def_type`.
pub fn get_def_fields_block(def_type: &DefType) -> (r: String)
    ensures
        r@ == def_fields_block(def_type@),
{
    let mut names: Vec<String> = Vec::new();
    let mut i: usize = 0;
    while i < def_type.fields.len()
        invariant
            i <= def_type.fields@.len(),
            def_type@.fields.len() == def_type.fields@.len(),
            views(names@) == member_declarations(def_type@.fields, i as int),
        decreases def_type.fields.len() - i,
    {
        let field = &def_type.fields[i];
        assert(def_type@.fields[i as int] == field@);
        if field.is_field && field.is_main_field && i > 0 {
            names.push(owned(field.declaration.as_str()));
            assert(views(names@) =~= member_declarations(def_type@.fields, i + 1));
        }
        i += 1;
    }
    let joined = join_strings(&names, "\n    ");
    let mut r = String::new();
    r.append("    ");
    r.append(start_block(DEF_FIELDS_BLOCK).as_str());
    r.append("\n    public ");
    r.append(def_type.enum_name.as_str());
    r.append(" Id;\n    ");
    r.append(joined.as_str());
    r.append("\n    ");
    r.append(end_block(DEF_FIELDS_BLOCK).as_str());
    reveal(def_fields_block);
    assert(r@ =~= def_fields_block(def_type@));
    r
}

/// The global fields block: one line per global field.
#[verifier::opaque]
pub open spec fn global_fields_block(fields: Seq<Seq<char>>) -> Seq<char> {
    "    "@ + start_marker(FIELD_BLOCK@) + "\n    "@ + join(fields, "\n    "@) + "\n    "@
        + end_marker(FIELD_BLOCK@)
}

/// The global fields block for `fields`; the definition class plays no part.
pub fn get_global_fields_block(fields: &Vec<String>, def_type: &DefType) -> (r: String)
    ensures
        r@ == global_fields_block(views(fields@)),
{
    let joined = join_strings(fields, "\n    ");
    let mut r = String::new();
    r.append("    ");
    r.append(start_block(FIELD_BLOCK).as_str());
    r.append("\n    ");
    r.append(joined.as_str());
    r.append("\n    ");
    r.append(end_block(FIELD_BLOCK).as_str());
    reveal(global_fields_block);
    assert(r@ =~= global_fields_block(views(fields@)));
    r
}

/// `e` put into `sorted` after every entry whose column is not greater.
pub open spec fn insert_by_col(sorted: Seq<EntryV>, e: EntryV) -> Seq<EntryV>
    decreases sorted.len(),
{
    if sorted.len() == 0 {
        seq![e]
    } else if sorted.last().col <= e.col {
        sorted.push(e)
    } else {
        insert_by_col(sorted.drop_last(), e).push(sorted.last())
    }
}

/// The entries ordered by column; entries with equal columns keep their order.
pub open spec fn sort_by_col(s: Seq<EntryV>) -> Seq<EntryV>
    decreases s.len(),
{
    if s.len() == 0 {
        s
    } else {
        insert_by_col(sort_by_col(s.drop_last()), s.last())
    }
}

/// Where `insert_by_col` puts the entry: after the last entry whose column is
/// not greater.
proof fn lemma_insert_at(sorted: Seq<EntryV>, e: EntryV, p: int)
    requires
        0 <= p <= sorted.len(),
        forall|k: int| p <= k < sorted.len() ==> sorted[k].col > e.col,
        p == 0 || sorted[p - 1].col <= e.col,
    ensures
        insert_by_col(sorted, e) == sorted.take(p).push(e) + sorted.skip(p),
    decreases sorted.len(),
{
    if sorted.len() == 0 {
        assert(sorted.take(p).push(e) + sorted.skip(p) =~= seq![e]);
    } else if sorted.last().col <= e.col {
        assert(p == sorted.len());
        assert(sorted.take(p).push(e) + sorted.skip(p) =~= sorted.push(e));
    } else {
        let d = sorted.drop_last();
        lemma_insert_at(d, e, p);
        assert(d.take(p).push(e) + d.skip(p) + seq![sorted.last()] =~= sorted.take(p).push(e)
            + sorted.skip(p));
        assert((d.take(p).push(e) + d.skip(p)).push(sorted.last()) =~= d.take(p).push(e)
            + d.skip(p) + seq![sorted.last()]);
    }
}

/// The columns of `s` never decrease.
pub open spec fn cols_sorted(s: Seq<EntryV>) -> bool {
    forall|i: int, j: int| 0 <= i <= j < s.len() ==> s[i].col <= s[j].col
}

proof fn lemma_insert_keeps_sorted(sorted: Seq<EntryV>, e: EntryV)
    requires
        cols_sorted(sorted),
    ensures
        cols_sorted(insert_by_col(sorted, e)),
        insert_by_col(sorted, e).len() == sorted.len() + 1,
    decreases sorted.len(),
{
    if sorted.len() > 0 && sorted.last().col > e.col {
        let d = sorted.drop_last();
        lemma_insert_keeps_sorted(d, e);
        let r = insert_by_col(d, e);
        assert forall|i: int, j: int| 0 <= i <= j < r.len() + 1 implies r.push(
            sorted.last(),
        )[i].col <= r.push(sorted.last())[j].col by {
            if j == r.len() && i < r.len() {
                lemma_insert_member(d, e, i);
            }
        }
    }
}

proof fn lemma_insert_member(sorted: Seq<EntryV>, e: EntryV, i: int)
    requires
        0 <= i < sorted.len() + 1,
        insert_by_col(sorted, e).len() == sorted.len() + 1,
    ensures
        insert_by_col(sorted, e)[i] == e || exists|k: int|
            0 <= k < sorted.len() && insert_by_col(sorted, e)[i] == sorted[k],
    decreases sorted.len(),
{
    if sorted.len() == 0 {
    } else if sorted.last().col <= e.col {
        if i < sorted.len() {
            assert(insert_by_col(sorted, e)[i] == sorted[i]);
        }
    } else {
        let d = sorted.drop_last();
        if i == sorted.len() {
            assert(insert_by_col(sorted, e)[i] == sorted[sorted.len() - 1]);
        } else {
            lemma_insert_len(d, e);
            lemma_insert_member(d, e, i);
            if insert_by_col(d, e)[i] != e {
                let k = choose|k: int| 0 <= k < d.len() && insert_by_col(d, e)[i] == d[k];
                assert(sorted[k] == d[k]);
            }
        }
    }
}

proof fn lemma_insert_len(sorted: Seq<EntryV>, e: EntryV)
    ensures
        insert_by_col(sorted, e).len() == sorted.len() + 1,
    decreases sorted.len(),
{
    if sorted.len() > 0 {
        lemma_insert_len(sorted.drop_last(), e);
    }
}

proof fn lemma_insert_multiset(sorted: Seq<EntryV>, e: EntryV)
    ensures
        insert_by_col(sorted, e).to_multiset() == sorted.to_multiset().insert(e),
    decreases sorted.len(),
{
    broadcast use vstd::seq_lib::group_to_multiset_ensures;

    if sorted.len() == 0 {
        assert(seq![e] =~= Seq::<EntryV>::empty().push(e));
    } else if sorted.last().col > e.col {
        let d = sorted.drop_last();
        lemma_insert_multiset(d, e);
        assert(d.push(sorted.last()) =~= sorted);
        assert(insert_by_col(d, e).push(sorted.last()).to_multiset() =~= d.to_multiset().insert(
            e,
        ).insert(sorted.last()));
        assert(sorted.to_multiset() =~= d.to_multiset().insert(sorted.last()));
    }
}

/// Sorting by column leaves the columns in order, and keeps every entry, as
/// many times as it occurs.
pub proof fn lemma_sort_by_col_sorted(s: Seq<EntryV>)
    ensures
        cols_sorted(sort_by_col(s)),
        sort_by_col(s).len() == s.len(),
        sort_by_col(s).to_multiset() == s.to_multiset(),
    decreases s.len(),
{
    broadcast use vstd::seq_lib::group_to_multiset_ensures;

    if s.len() > 0 {
        lemma_sort_by_col_sorted(s.drop_last());
        lemma_insert_keeps_sorted(sort_by_col(s.drop_last()), s.last());
        lemma_insert_multiset(sort_by_col(s.drop_last()), s.last());
        assert(s.drop_last().push(s.last()) =~= s);
    } else {
        assert(sort_by_col(s) =~= s);
    }
}

/// A copy of an entry.
fn copy_entry(e: &(String, DefFieldData)) -> (r: (String, DefFieldData))
    ensures
        entry_view(r) == entry_view(*e),
{
    (e.0.clone(), DefFieldData { col: e.1.col, data: e.1.data.clone() })
}

/// The entries of a definition row ordered by column.
pub fn sorted_entries(def: &DefData) -> (r: Vec<(String, DefFieldData)>)
    ensures
        r@.map_values(|e: (String, DefFieldData)| entry_view(e)) == sort_by_col(def@),
{
    let mut r: Vec<(String, DefFieldData)> = Vec::new();
    let mut i: usize = 0;
    assert(def@.take(0) =~= Seq::<EntryV>::empty());
    assert(r@.map_values(|e: (String, DefFieldData)| entry_view(e)) =~= Seq::<EntryV>::empty());
    while i < def.field_data.len()
        invariant
            i <= def@.len(),
            def@.len() == def.field_data@.len(),
            r@.map_values(|e: (String, DefFieldData)| entry_view(e)) == sort_by_col(
                def@.take(i as int),
            ),
        decreases def.field_data.len() - i,
    {
        let ghost sorted = r@.map_values(|e: (String, DefFieldData)| entry_view(e));
        let e = copy_entry(&def.field_data[i]);
        let ghost ev = entry_view(e);
        assert(ev == def@[i as int]);
        let mut p: usize = r.len();
        while p > 0 && r[p - 1].1.col > e.1.col
            invariant
                p <= r@.len(),
                sorted == r@.map_values(|e: (String, DefFieldData)| entry_view(e)),
                ev == entry_view(e),
                forall|k: int| p <= k < sorted.len() ==> sorted[k].col > ev.col,
            decreases p,
        {
            assert(sorted[p - 1] == entry_view(r@[p - 1]));
            p -= 1;
        }
        proof {
            if p > 0 {
                assert(sorted[p - 1] == entry_view(r@[p - 1]));
            }
            lemma_insert_at(sorted, ev, p as int);
            assert(def@.take(i + 1).drop_last() =~= def@.take(i as int));
        }
        r.insert(p, e);
        assert(r@.map_values(|e: (String, DefFieldData)| entry_view(e)) =~= sorted.take(
            p as int,
        ).push(ev) + sorted.skip(p as int));
        i += 1;
    }
    assert(def@.take(def@.len() as int) =~= def@);
    r
}

/// The texts of entries, in their order.
pub open spec fn entry_texts(s: Seq<EntryV>) -> Seq<Seq<char>> {
    s.map_values(|e: EntryV| e.data)
}

/// The initializer of the definition at `index` of `count`: its entries'
/// texts ordered by column, one per line.
pub open spec fn def_initializer(name: Seq<char>, index: int, count: int, entries: Seq<EntryV>) -> Seq<
    char,
> {
    "\n        new "@ + name + "() // INDEX ["@ + decimal((index + 1) as nat) + "]\n        {\n        "@
        + join(entry_texts(sort_by_col(entries)), "\n            "@) + "\n        },"@ + (if index
        < count - 1 {
        "\n"@
    } else {
        Seq::empty()
    })
}

/// The initializers of the first `n` definitions, one after the other.
pub open spec fn def_initializers(name: Seq<char>, defs: Seq<Seq<EntryV>>, n: int) -> Seq<char>
    decreases n,
{
    if n <= 0 {
        Seq::empty()
    } else {
        def_initializers(name, defs, n - 1) + def_initializer(
            name,
            n - 1,
            defs.len() as int,
            defs[n - 1],
        )
    }
}

/// The definitions block: the count, and the array of all definitions with
/// `null` at index 0 for the `NONE` id.
#[verifier::opaque]
pub open spec fn defs_block(d: DefTypeV) -> Seq<char> {
    "    "@ + start_marker(DEF_BLOCK@) + "\n    public const int COUNT = "@ + decimal(
        d.data_2.len(),
    ) + "; // Note: All except the NONE\n    public static "@ + d.name + "[] defs = new "@ + d.name
        + "[]\n    {\n        null, // INDEX [0] / \"NONE\" IN THE ID ENUM\n        "@
        + def_initializers(d.name, d.data_2, d.data_2.len() as int) + "\n    };\n    "@
        + end_marker(DEF_BLOCK@)
}

/// The initializer of one definition.
fn get_def_initializer(name: &String, index: usize, count: usize, def: &DefData) -> (r: String)
    requires
        index < count,
    ensures
        r@ == def_initializer(name@, index as int, count as int, def@),
{
    let sorted = sorted_entries(def);
    let ghost sv = sorted@.map_values(|e: (String, DefFieldData)| entry_view(e));
    let mut all_fields = String::new();
    let mut i: usize = 0;
    while i < sorted.len()
        invariant
            i <= sorted@.len(),
            sv == sorted@.map_values(|e: (String, DefFieldData)| entry_view(e)),
            all_fields@ == join(entry_texts(sv).take(i as int), "\n            "@),
        decreases sorted.len() - i,
    {
        assert(entry_texts(sv)[i as int] == sorted@[i as int].1.data@);
        if i != 0 {
            all_fields.append("\n            ");
        }
        all_fields.append(sorted[i].1.data.as_str());
        assert(entry_texts(sv).take(i + 1).drop_last() =~= entry_texts(sv).take(i as int));
        i += 1;
    }
    assert(entry_texts(sv).take(sorted@.len() as int) =~= entry_texts(sv));
    let mut r = String::new();
    r.append("\n        new ");
    r.append(name.as_str());
    r.append("() // INDEX [");
    r.append(u64_text((index + 1) as u64).as_str());
    r.append("]\n        {\n        ");
    r.append(all_fields.as_str());
    r.append("\n        },");
    if index < count - 1 {
        r.append("\n");
    }
    assert(r@ =~= def_initializer(name@, index as int, count as int, def@));
    r
}

/// What the definitions block holds before its first initializer.
pub open spec fn defs_head(d: DefTypeV) -> Seq<char> {
    "    "@ + start_marker(DEF_BLOCK@) + "\n    public const int COUNT = "@ + decimal(d.data_2.len())
        + "; // Note: All except the NONE\n    public static "@ + d.name + "[] defs = new "@ + d.name
        + "[]\n    {\n        null, // INDEX [0] / \"NONE\" IN THE ID ENUM\n        "@
}

/// Where the initializer of the definition at `k` starts in the block.
pub open spec fn initializer_at(d: DefTypeV, k: int) -> int {
    (defs_head(d).len() + def_initializers(d.name, d.data_2, k).len()) as int
}

/// The initializers of the first `m` definitions begin those of the first `n`.
proof fn lemma_initializers_prefix(name: Seq<char>, defs: Seq<Seq<EntryV>>, m: int, n: int)
    requires
        0 <= m <= n,
    ensures
        def_initializers(name, defs, n).take(def_initializers(name, defs, m).len() as int)
            == def_initializers(name, defs, m),
        def_initializers(name, defs, m).len() <= def_initializers(name, defs, n).len(),
    decreases n - m,
{
    if m < n {
        lemma_initializers_prefix(name, defs, m, n - 1);
        let a = def_initializers(name, defs, m);
        let b = def_initializers(name, defs, n - 1);
        assert(def_initializers(name, defs, n) == b + def_initializer(
            name,
            n - 1,
            defs.len() as int,
            defs[n - 1],
        ));
        assert((b + def_initializer(name, n - 1, defs.len() as int, defs[n - 1])).take(
            a.len() as int,
        ) =~= b.take(a.len() as int));
    }
}

/// The definitions block opens with its indented opening marker, closes with
/// its indented closing marker, states the count of definitions, and holds
/// the initializer of each definition, numbered from 1, one after the other
/// in the order of the definitions; each initializer lists its entries'
/// texts ordered by column.
pub proof fn lemma_defs_block_layout(d: DefTypeV)
    ensures
        ({
            let b = defs_block(d);
            let open = "    "@ + start_marker(DEF_BLOCK@);
            let close = "    "@ + end_marker(DEF_BLOCK@);
            let n = d.data_2.len() as int;
            &&& b.take(open.len() as int) == open
            &&& b.len() >= close.len() && b.skip(b.len() - close.len()) == close
            &&& has_text(b, "COUNT = "@ + decimal(d.data_2.len()) + ";"@)
            &&& forall|k: int|
                0 <= k < n ==> occurs_at(
                    b,
                    def_initializer(d.name, k, n, #[trigger] d.data_2[k]),
                    initializer_at(d, k),
                )
            &&& forall|k: int|
                0 <= k < n ==> #[trigger] initializer_at(d, k) < initializer_at(d, k + 1)
        }),
{
    reveal(defs_block);
    reveal_strlit("\n    public const int COUNT = ");
    reveal_strlit("\n    public const int ");
    reveal_strlit("COUNT = ");
    reveal_strlit("; // Note: All except the NONE\n    public static ");
    reveal_strlit(";");
    reveal_strlit(" // Note: All except the NONE\n    public static ");
    reveal_strlit("\n    };\n    ");
    let b = defs_block(d);
    let n = d.data_2.len() as int;
    let open = "    "@ + start_marker(DEF_BLOCK@);
    let close = "    "@ + end_marker(DEF_BLOCK@);
    let all = def_initializers(d.name, d.data_2, n);
    let tail = "\n    };\n    "@ + end_marker(DEF_BLOCK@);
    assert(b =~= defs_head(d) + all + tail);
    assert(tail =~= "\n    };\n"@ + close) by {
        reveal_strlit("\n    };\n");
        reveal_strlit("    ");
    }
    assert(b.take(open.len() as int) =~= open);
    assert(b.skip(b.len() - close.len()) =~= close);
    let count = "COUNT = "@ + decimal(d.data_2.len()) + ";"@;
    let lead = open + "\n    public const int "@;
    assert(b.subrange(lead.len() as int, (lead.len() + count.len()) as int) =~= count);
    assert(occurs_at(b, count, lead.len() as int));
    assert forall|k: int| 0 <= k < n implies occurs_at(
        b,
        def_initializer(d.name, k, n, #[trigger] d.data_2[k]),
        initializer_at(d, k),
    ) by {
        lemma_initializers_prefix(d.name, d.data_2, k + 1, n);
        let pre = def_initializers(d.name, d.data_2, k);
        let one = def_initializer(d.name, k, n, d.data_2[k]);
        assert(def_initializers(d.name, d.data_2, k + 1) == pre + one);
        let p = initializer_at(d, k);
        let l = (pre.len() + one.len()) as int;
        assert(all.take(l) == pre + one);
        assert(all =~= pre + one + all.skip(l));
        assert(b =~= defs_head(d) + pre + one + (all.skip(l) + tail));
        assert(b.subrange(p, p + one.len()) =~= one);
    }
    assert forall|k: int| 0 <= k < n implies #[trigger] initializer_at(d, k) < initializer_at(
        d,
        k + 1,
    ) by {
        reveal_strlit("\n        new ");
        assert(def_initializers(d.name, d.data_2, k + 1) == def_initializers(d.name, d.data_2, k)
            + def_initializer(d.name, k, n, d.data_2[k]));
    }
}

/// The definitions block of `def_type`.
pub fn get_defs_block(def_type: &DefType) -> (r: String)
    ensures
        r@ == defs_block(def_type@),
{
    let mut defs_array = String::new();
    let n = def_type.data_2.len();
    let mut index: usize = 0;
    while index < n
        invariant
            index <= n,
            n == def_type.data_2@.len(),
            def_type@.data_2.len() == n,
            defs_array@ == def_initializers(def_type@.name, def_type@.data_2, index as int),
        decreases n - index,
    {
        assert(def_type@.data_2[index as int] == def_type.data_2@[index as int]@);
        let piece = get_def_initializer(&def_type.name, index, n, &def_type.data_2[index]);
        defs_array.append(piece.as_str());
        index += 1;
    }
    let mut r = String::new();
    r.append("    ");
    r.append(start_block(DEF_BLOCK).as_str());
    r.append("\n    public const int COUNT = ");
    r.append(u64_text(n as u64).as_str());
    r.append("; // Note: All except the NONE\n    public static ");
    r.append(def_type.name.as_str());
    r.append("[] defs = new ");
    r.append(def_type.name.as_str());
    r.append("[]\n    {\n        null, // INDEX [0] / \"NONE\" IN THE ID ENUM\n        ");
    r.append(defs_array.as_str());
    r.append("\n    };\n    ");
    r.append(end_block(DEF_BLOCK).as_str());
    reveal(defs_block);
    assert(r@ =~= defs_block(def_type@));
    r
}

/// The `using` lines at the top of every generated script.
pub const USINGS: &'static str =
    "using System;\nusing System.Collections;\nusing System.Collections.Generic;\nusing UnityEngine;";

/// The definition class, with its id enum above it.
#[verifier::opaque]
pub open spec fn class_text(d: DefTypeV) -> Seq<char> {
    "\n"@ + enums_block(d) + "\n\npublic class "@ + d.name
        + " // ** AUTO-GENERATED CLASS FROM EXCEL SHEET, DO NOT EDIT NAME**\n{\n"@
        + def_fields_block(d) + "\n}"@
}

impl DefType {
    /// The definition class, with its id enum above it; `enums` plays no part.
    pub fn get_class_string(&self, enums: &String) -> (r: String)
        ensures
            r@ == class_text(self@),
    {
        let mut r = String::new();
        r.append("\n");
        r.append(get_enums_block(self).as_str());
        r.append("\n\npublic class ");
        r.append(self.name.as_str());
        r.append(" // ** AUTO-GENERATED CLASS FROM EXCEL SHEET, DO NOT EDIT NAME**\n{\n");
        r.append(get_def_fields_block(self).as_str());
        r.append("\n}");
        reveal(class_text);
        assert(r@ =~= class_text(self@));
        r
    }
}

/// The whole script for a sheet that has no script yet: the usings, the
/// definition class when there are definitions, and the container class with
/// the global fields and, when there are definitions, the definitions array
/// and the lookup function.
#[verifier::opaque]
pub open spec fn template_text(
    is_static: bool,
    class_name: Seq<char>,
    fields: Seq<Seq<char>>,
    d: DefTypeV,
) -> Seq<char> {
    let has_defs = d.data_2.len() > 0;
    USINGS@ + "\n"@ + (if has_defs {
        class_text(d)
    } else {
        Seq::empty()
    }) + "\n\npublic "@ + (if is_static {
        "static"@
    } else {
        Seq::empty()
    }) + " class "@ + class_name
        + " // ** AUTO-GENERATED CLASS FROM EXCEL SHEET, DO NOT EDIT NAME**\n{\n"@
        + global_fields_block(fields) + "\n\n"@ + (if has_defs {
        defs_block(d)
    } else {
        " "@
    }) + "\n\n"@ + (if has_defs {
        funcs_block(d)
    } else {
        " "@
    }) + "\n}\n    "@
}

/// The whole script for a sheet that has no script yet.
pub fn get_template(is_static: bool, class_name: &str, fields: &Vec<String>, def_type: &DefType) -> (r:
    String)
    ensures
        r@ == template_text(is_static, class_name@, views(fields@), def_type@),
{
    let has_defs = def_type.data_2.len() > 0;
    let enums = if has_defs {
        join_strings(&def_type.enum_ids, ",\n    ")
    } else {
        String::new()
    };
    let mut r = String::new();
    r.append(USINGS);
    r.append("\n");
    if has_defs {
        r.append(def_type.get_class_string(&enums).as_str());
    }
    r.append("\n\npublic ");
    if is_static {
        r.append("static");
    }
    r.append(" class ");
    r.append(class_name);
    r.append(" // ** AUTO-GENERATED CLASS FROM EXCEL SHEET, DO NOT EDIT NAME**\n{\n");
    r.append(get_global_fields_block(fields, def_type).as_str());
    r.append("\n\n");
    if has_defs {
        r.append(get_defs_block(def_type).as_str());
    } else {
        r.append(" ");
    }
    r.append("\n\n");
    if has_defs {
        r.append(get_funcs_block(def_type).as_str());
    } else {
        r.append(" ");
    }
    r.append("\n}\n    ");
    reveal(template_text);
    assert(r@ =~= template_text(is_static, class_name@, views(fields@), def_type@));
    r
}

} // verus!
