//! Running again on an unchanged sheet leaves its script as it is: each block
//! of a freshly written script is found where it was written and replaced by
//! the same text.

use vstd::prelude::*;
use crate::blocks::{
    DEF_BLOCK, DEF_FIELDS_BLOCK, ENUM_BLOCK, FIELD_BLOCK, FUNC_BLOCK, USINGS, class_text,
    def_fields_block, def_initializers, defs_block, end_marker, enums_block, funcs_block,
    global_fields_block, member_declarations, start_marker, template_text,
};
use crate::merge::{
    BLOCK_SWAP, BlockError, block_parts, blocks_to_swap, lemma_swap_in_place, merged_text,
    swap_all,
};
use crate::model::{CellV, DefTypeV};
use crate::script::script_text;
use crate::sheet::sheet_model;
use crate::text::{
    decimal, has_text, join, strip_white, lemma_has_text_concat, lemma_has_text_in_join, lemma_join_pieces,
    lemma_pieces_concat, lemma_pieces_nonempty, occurs_at, pieces,
};

verus! {

/// The text of the enum block between its marker lines.
pub open spec fn enums_body(d: DefTypeV) -> Seq<char> {
    "public enum "@ + d.enum_name + " \n{ \n    NONE = 0,\n    "@ + join(d.enum_ids, ",\n    "@)
        + " \n}"@
}

/// The text of the definition fields block between its marker lines.
pub open spec fn def_fields_body(d: DefTypeV) -> Seq<char> {
    "    public "@ + d.enum_name + " Id;\n    "@ + join(
        member_declarations(d.fields, d.fields.len() as int),
        "\n    "@,
    )
}

/// The text of the global fields block between its marker lines.
pub open spec fn fields_body(fields: Seq<Seq<char>>) -> Seq<char> {
    "    "@ + join(fields, "\n    "@)
}

/// The text of the definitions block between its marker lines.
pub open spec fn defs_body(d: DefTypeV) -> Seq<char> {
    "    public const int COUNT = "@ + decimal(d.data_2.len())
        + "; // Note: All except the NONE\n    public static "@ + d.name + "[] defs = new "@ + d.name
        + "[]\n    {\n        null, // INDEX [0] / \"NONE\" IN THE ID ENUM\n        "@
        + def_initializers(d.name, d.data_2, d.data_2.len() as int) + "\n    };"@
}

/// The text of the functions block between its marker lines.
pub open spec fn funcs_body(d: DefTypeV) -> Seq<char> {
    "    "@ + "public static "@ + d.name + " GetDef("@ + d.enum_name + " id)\n    {\n        "@
        + d.name
        + " ret = null;\n        int index = (int)id;\n        if(index > -1 && index < defs.Length)\n        {\n            ret = defs[index];\n        }\n        else\n        {\n            Debug.LogError($\""@
        + d.name + " GetDef({index}) not found\");\n        }\n        return ret;\n    }\n    "@
}

/// A block's text: its opening line, its body, its closing line.
pub open spec fn three_lines(first: Seq<char>, mid: Seq<char>, last: Seq<char>) -> Seq<char> {
    first + seq!['\n'] + mid + seq!['\n'] + last
}

/// `x` holds no line break.
pub open spec fn one_line(x: Seq<char>) -> bool {
    forall|i: int| 0 <= i < x.len() ==> x[i] != '\n'
}

proof fn lemma_one_line_concat(a: Seq<char>, b: Seq<char>)
    requires
        one_line(a),
        one_line(b),
    ensures
        one_line(a + b),
{
    assert forall|i: int| 0 <= i < (a + b).len() implies (a + b)[i] != '\n' by {
        if i < a.len() {
            assert((a + b)[i] == a[i]);
        } else {
            assert((a + b)[i] == b[i - a.len()]);
        }
    }
}

pub(crate) proof fn lemma_block_names_one_line()
    ensures
        one_line(ENUM_BLOCK@),
        one_line(DEF_FIELDS_BLOCK@),
        one_line(FIELD_BLOCK@),
        one_line(DEF_BLOCK@),
        one_line(FUNC_BLOCK@),
        one_line("//-"@),
        one_line("-S-"@),
        one_line("-E-"@),
        one_line("    "@),
{
    reveal_strlit("ENUM");
    reveal_strlit("DEF-FIELDS");
    reveal_strlit("FIELDS");
    reveal_strlit("DEFS");
    reveal_strlit("FUNCTIONS");
    reveal_strlit("//-");
    reveal_strlit("-S-");
    reveal_strlit("-E-");
    reveal_strlit("    ");
}

/// The marker lines of the block named `x`, bare or indented, are single
/// lines holding their marker.
pub(crate) proof fn lemma_marker_lines(x: Seq<char>)
    requires
        one_line(x),
    ensures
        one_line(start_marker(x)),
        one_line(end_marker(x)),
        one_line("    "@ + start_marker(x)),
        one_line("    "@ + end_marker(x)),
        has_text(start_marker(x), start_marker(x)),
        has_text(end_marker(x), end_marker(x)),
        has_text("    "@ + start_marker(x), start_marker(x)),
        has_text("    "@ + end_marker(x), end_marker(x)),
{
    lemma_block_names_one_line();
    lemma_one_line_concat("//-"@, x);
    lemma_one_line_concat("//-"@ + x, "-S-"@);
    lemma_one_line_concat("//-"@ + x, "-E-"@);
    lemma_one_line_concat("    "@, start_marker(x));
    lemma_one_line_concat("    "@, end_marker(x));
    let s = start_marker(x);
    let e = end_marker(x);
    assert(s.subrange(0, s.len() as int) =~= s);
    assert(e.subrange(0, e.len() as int) =~= e);
    assert(occurs_at(s, s, 0));
    assert(occurs_at(e, e, 0));
    lemma_has_text_concat("    "@, s, s);
    lemma_has_text_concat("    "@, e, e);
}

/// The enum block as its three parts.
pub(crate) proof fn lemma_enums_lines(d: DefTypeV)
    ensures
        enums_block(d) == three_lines(start_marker(ENUM_BLOCK@), enums_body(d), end_marker(
            ENUM_BLOCK@,
        )),
{
    reveal(enums_block);
    reveal_strlit("\npublic enum ");
    reveal_strlit("public enum ");
    reveal_strlit(" \n}\n");
    reveal_strlit(" \n}");
    assert("\npublic enum "@ =~= seq!['\n'] + "public enum "@);
    assert(" \n}\n"@ =~= " \n}"@ + seq!['\n']);
    assert(enums_block(d) =~= three_lines(
        start_marker(ENUM_BLOCK@),
        enums_body(d),
        end_marker(ENUM_BLOCK@),
    ));
}

/// The definition fields block as its three parts.
pub(crate) proof fn lemma_def_fields_lines(d: DefTypeV)
    ensures
        def_fields_block(d) == three_lines(
            "    "@ + start_marker(DEF_FIELDS_BLOCK@),
            def_fields_body(d),
            "    "@ + end_marker(DEF_FIELDS_BLOCK@),
        ),
{
    reveal(def_fields_block);
    reveal_strlit("\n    public ");
    reveal_strlit("    public ");
    reveal_strlit("\n    ");
    reveal_strlit("    ");
    assert("\n    public "@ =~= seq!['\n'] + "    public "@);
    assert("\n    "@ =~= seq!['\n'] + "    "@);
    assert(def_fields_block(d) =~= three_lines(
        "    "@ + start_marker(DEF_FIELDS_BLOCK@),
        def_fields_body(d),
        "    "@ + end_marker(DEF_FIELDS_BLOCK@),
    ));
}

/// The global fields block as its three parts.
pub(crate) proof fn lemma_fields_lines(fields: Seq<Seq<char>>)
    ensures
        global_fields_block(fields) == three_lines(
            "    "@ + start_marker(FIELD_BLOCK@),
            fields_body(fields),
            "    "@ + end_marker(FIELD_BLOCK@),
        ),
{
    reveal(global_fields_block);
    reveal_strlit("\n    ");
    reveal_strlit("    ");
    assert("\n    "@ =~= seq!['\n'] + "    "@);
    assert(global_fields_block(fields) =~= three_lines(
        "    "@ + start_marker(FIELD_BLOCK@),
        fields_body(fields),
        "    "@ + end_marker(FIELD_BLOCK@),
    ));
}

/// The definitions block as its three parts.
pub(crate) proof fn lemma_defs_lines(d: DefTypeV)
    ensures
        defs_block(d) == three_lines(
            "    "@ + start_marker(DEF_BLOCK@),
            defs_body(d),
            "    "@ + end_marker(DEF_BLOCK@),
        ),
{
    reveal(defs_block);
    reveal_strlit("\n    public const int COUNT = ");
    reveal_strlit("    public const int COUNT = ");
    reveal_strlit("\n    };\n    ");
    reveal_strlit("\n    };");
    reveal_strlit("    ");
    assert("\n    public const int COUNT = "@ =~= seq!['\n'] + "    public const int COUNT = "@);
    assert("\n    };\n    "@ =~= "\n    };"@ + seq!['\n'] + "    "@);
    assert(defs_block(d) =~= three_lines(
        "    "@ + start_marker(DEF_BLOCK@),
        defs_body(d),
        "    "@ + end_marker(DEF_BLOCK@),
    ));
}

/// The functions block as its three parts.
pub(crate) proof fn lemma_funcs_lines(d: DefTypeV)
    ensures
        funcs_block(d) == three_lines(
            "    "@ + start_marker(FUNC_BLOCK@),
            funcs_body(d),
            "    "@ + end_marker(FUNC_BLOCK@),
        ),
{
    reveal(funcs_block);
    reveal_strlit("\n    ");
    reveal_strlit("    ");
    assert("\n    "@ =~= seq!['\n'] + "    "@);
    assert(funcs_block(d) =~= three_lines(
        "    "@ + start_marker(FUNC_BLOCK@),
        funcs_body(d),
        "    "@ + end_marker(FUNC_BLOCK@),
    ));
}

/// The title line of a generated class, up to its opening brace.
pub open spec fn class_title_line() -> Seq<char> {
    " // ** AUTO-GENERATED CLASS FROM EXCEL SHEET, DO NOT EDIT NAME**\n{"@
}

/// What a fresh script holds before the line of its enum block.
pub open spec fn head_text() -> Seq<char> {
    USINGS@ + "\n"@
}

/// What lies between the enum block and the definition fields block.
pub open spec fn class_head(d: DefTypeV) -> Seq<char> {
    "\npublic class "@ + d.name + class_title_line()
}

/// What lies between the definition fields block and the global fields
/// block.
pub open spec fn container_head(name: Seq<char>) -> Seq<char> {
    "}"@ + "\n\npublic "@ + "static"@ + " class "@ + name + class_title_line()
}

/// What a fresh script holds after its functions block.
pub open spec fn tail_text() -> Seq<char> {
    "}\n    "@
}

/// The text of a fresh script with definitions before the line of its
/// enum block.
pub open spec fn before_enums() -> Seq<char> {
    head_text() + seq!['\n']
}

/// The text before the line of the definition fields block.
pub open spec fn before_def_fields(d: DefTypeV) -> Seq<char> {
    before_enums() + enums_block(d) + seq!['\n'] + class_head(d) + seq!['\n']
}

/// The text before the line of the global fields block.
pub open spec fn before_fields(name: Seq<char>, d: DefTypeV) -> Seq<char> {
    before_def_fields(d) + def_fields_block(d) + seq!['\n'] + container_head(name) + seq!['\n']
}

/// The text before the line of the definitions block.
pub open spec fn before_defs(name: Seq<char>, fields: Seq<Seq<char>>, d: DefTypeV) -> Seq<char> {
    before_fields(name, d) + global_fields_block(fields) + seq!['\n'] + seq!['\n']
}

/// The text before the line of the functions block.
pub open spec fn before_funcs(name: Seq<char>, fields: Seq<Seq<char>>, d: DefTypeV) -> Seq<char> {
    before_defs(name, fields, d) + defs_block(d) + seq!['\n'] + seq!['\n']
}

/// What a fresh script without definitions holds before the line of its
/// global fields block.
pub open spec fn lone_head(name: Seq<char>) -> Seq<char> {
    USINGS@ + "\n"@ + "\n\npublic "@ + "static"@ + " class "@ + name + class_title_line()
}

/// What a fresh script without definitions holds after its global fields
/// block.
pub open spec fn lone_tail() -> Seq<char> {
    "\n"@ + " "@ + "\n\n"@ + " "@ + "\n}\n    "@
}

/// The markers of a fresh script stand where its blocks are: no block's
/// opening marker occurs in the script before the block, and no block's
/// closing marker occurs in the block before its last line.
#[verifier::opaque]
pub open spec fn markers_in_place(name: Seq<char>, fields: Seq<Seq<char>>, d: DefTypeV) -> bool {
    if d.data_2.len() == 0 {
        &&& !has_text(lone_head(name) + seq!['\n'], start_marker(FIELD_BLOCK@))
        &&& !has_text(fields_body(fields), end_marker(FIELD_BLOCK@))
    } else {
        &&& !has_text(before_enums(), start_marker(ENUM_BLOCK@))
        &&& !has_text(enums_body(d), end_marker(ENUM_BLOCK@))
        &&& !has_text(before_def_fields(d), start_marker(DEF_FIELDS_BLOCK@))
        &&& !has_text(def_fields_body(d), end_marker(DEF_FIELDS_BLOCK@))
        &&& !has_text(before_fields(name, d), start_marker(FIELD_BLOCK@))
        &&& !has_text(fields_body(fields), end_marker(FIELD_BLOCK@))
        &&& !has_text(before_defs(name, fields, d), start_marker(DEF_BLOCK@))
        &&& !has_text(defs_body(d), end_marker(DEF_BLOCK@))
        &&& !has_text(before_funcs(name, fields, d), start_marker(FUNC_BLOCK@))
        &&& !has_text(funcs_body(d), end_marker(FUNC_BLOCK@))
    }
}

/// What follows the functions block's line break in a fresh script.
pub open spec fn after_defs(d: DefTypeV) -> Seq<char> {
    Seq::<char>::empty() + seq!['\n'] + (funcs_block(d) + seq!['\n'] + tail_text())
}

/// What follows the global fields block's line break in a fresh script.
pub open spec fn after_fields(fields: Seq<Seq<char>>, d: DefTypeV) -> Seq<char> {
    Seq::<char>::empty() + seq!['\n'] + (defs_block(d) + seq!['\n'] + after_defs(d))
}

/// What follows the definition fields block's line break in a fresh script.
pub open spec fn after_def_fields(name: Seq<char>, fields: Seq<Seq<char>>, d: DefTypeV) -> Seq<
    char,
> {
    container_head(name) + seq!['\n'] + (global_fields_block(fields) + seq!['\n'] + after_fields(
        fields,
        d,
    ))
}

/// What follows the enum block's line break in a fresh script.
pub open spec fn after_enums(name: Seq<char>, fields: Seq<Seq<char>>, d: DefTypeV) -> Seq<char> {
    class_head(d) + seq!['\n'] + (def_fields_block(d) + seq!['\n'] + after_def_fields(
        name,
        fields,
        d,
    ))
}

/// A fresh script with definitions, cut at the line breaks around its
/// blocks.
proof fn lemma_template_parts(name: Seq<char>, fields: Seq<Seq<char>>, d: DefTypeV)
    requires
        d.data_2.len() > 0,
    ensures
        template_text(true, name, fields, d) == head_text() + seq!['\n'] + (enums_block(d) + seq![
            '\n',
        ] + after_enums(name, fields, d)),
{
    reveal(template_text);
    reveal(class_text);
    reveal_strlit("\n");
    reveal_strlit("\n\npublic class ");
    reveal_strlit("\npublic class ");
    reveal_strlit(" // ** AUTO-GENERATED CLASS FROM EXCEL SHEET, DO NOT EDIT NAME**\n{\n");
    reveal_strlit(" // ** AUTO-GENERATED CLASS FROM EXCEL SHEET, DO NOT EDIT NAME**\n{");
    reveal_strlit("\n}");
    reveal_strlit("}");
    reveal_strlit("\n\n");
    reveal_strlit("\n}\n    ");
    reveal_strlit("}\n    ");
    let nl = seq!['\n'];
    assert("\n"@ =~= nl);
    assert("\n\npublic class "@ =~= nl + "\npublic class "@);
    assert(" // ** AUTO-GENERATED CLASS FROM EXCEL SHEET, DO NOT EDIT NAME**\n{\n"@
        =~= class_title_line() + nl);
    assert("\n}"@ =~= nl + "}"@);
    assert("\n\n"@ =~= nl + Seq::<char>::empty() + nl);
    assert("\n}\n    "@ =~= nl + tail_text());
    assert(template_text(true, name, fields, d) =~= head_text() + nl + (enums_block(d) + nl
        + after_enums(name, fields, d)));}

/// A fresh script without definitions, cut at the line breaks around its
/// global fields block.
proof fn lemma_lone_template_parts(name: Seq<char>, fields: Seq<Seq<char>>, d: DefTypeV)
    requires
        d.data_2.len() == 0,
    ensures
        template_text(true, name, fields, d) == lone_head(name) + seq!['\n'] + global_fields_block(
            fields,
        ) + seq!['\n'] + lone_tail(),
{
    reveal(template_text);
    reveal_strlit("\n");
    reveal_strlit(" // ** AUTO-GENERATED CLASS FROM EXCEL SHEET, DO NOT EDIT NAME**\n{\n");
    reveal_strlit(" // ** AUTO-GENERATED CLASS FROM EXCEL SHEET, DO NOT EDIT NAME**\n{");
    reveal_strlit("\n\n");
    assert(" // ** AUTO-GENERATED CLASS FROM EXCEL SHEET, DO NOT EDIT NAME**\n{\n"@
        =~= class_title_line() + seq!['\n']);
    assert("\n\n"@ =~= seq!['\n'] + "\n"@);
    assert(template_text(true, name, fields, d) =~= lone_head(name) + seq!['\n']
        + global_fields_block(fields) + seq!['\n'] + lone_tail());
}

/// Adding a block and the lines after it to the lines before a block.
proof fn lemma_join_extend(pre: Seq<Seq<char>>, blk: Seq<char>, x: Seq<char>)
    requires
        pre.len() > 0,
    ensures
        join(pre + seq![blk] + pieces(x, '\n'), seq!['\n']) == join(pre, seq!['\n']) + seq!['\n']
            + blk + seq!['\n'] + x,
{
    crate::merge::lemma_join_append(pre, seq![blk], seq!['\n']);
    lemma_pieces_nonempty(x, '\n');
    crate::merge::lemma_join_append(pre + seq![blk], pieces(x, '\n'), seq!['\n']);
    lemma_join_pieces(x, '\n');
}

/// Lines that join into a text without `m` do not hold `m`.
proof fn lemma_lines_clean(pre: Seq<Seq<char>>, text: Seq<char>, m: Seq<char>)
    requires
        join(pre, seq!['\n']) + seq!['\n'] == text,
        !has_text(text, m),
    ensures
        forall|i: int| 0 <= i < pre.len() ==> !has_text(#[trigger] pre[i], m),
{
    assert forall|i: int| 0 <= i < pre.len() implies !has_text(#[trigger] pre[i], m) by {
        if has_text(pre[i], m) {
            lemma_has_text_in_join(pre, seq!['\n'], i, m);
            lemma_has_text_concat(join(pre, seq!['\n']), seq!['\n'], m);
        }
    }
}

/// One block of a fresh script: found where it is, and written back as it
/// was.
proof fn lemma_step(
    pre: Seq<Seq<char>>,
    first: Seq<char>,
    mid: Seq<char>,
    last: Seq<char>,
    post: Seq<Seq<char>>,
    b: BLOCK_SWAP,
    start: Seq<char>,
    end: Seq<char>,
    before: Seq<char>,
)
    requires
        one_line(first),
        one_line(last),
        has_text(first, start),
        has_text(last, end),
        !has_text(mid, end),
        join(pre, seq!['\n']) + seq!['\n'] == before,
        !has_text(before, start),
    ensures
        ({
            let blk = three_lines(first, mid, last);
            let lines = pre + pieces(blk, '\n') + post;
            &&& crate::merge::swap_lines(lines, b, start, blk, end) == Ok::<
                Seq<Seq<char>>,
                BlockError,
            >(pre + seq![blk] + post)
            &&& join(pre + seq![blk] + post, "\n"@) == join(lines, "\n"@)
        }),
{
    lemma_lines_clean(pre, before, start);
    lemma_swap_in_place(pre, first, mid, last, post, b, start, end);
}

/// One block between a head and a tail: updating it with its own text gives
/// the text back.
proof fn lemma_one_block(
    head: Seq<char>,
    first: Seq<char>,
    mid: Seq<char>,
    last: Seq<char>,
    tail: Seq<char>,
    b: BLOCK_SWAP,
    start: Seq<char>,
    end: Seq<char>,
)
    requires
        one_line(first),
        one_line(last),
        has_text(first, start),
        has_text(last, end),
        !has_text(mid, end),
        !has_text(head + seq!['\n'], start),
    ensures
        ({
            let g = three_lines(first, mid, last);
            let t = head + seq!['\n'] + g + seq!['\n'] + tail;
            let out = pieces(head, '\n') + seq![g] + pieces(tail, '\n');
            &&& crate::merge::swap_lines(pieces(t, '\n'), b, start, g, end) == Ok::<
                Seq<Seq<char>>,
                BlockError,
            >(out)
            &&& join(out, "\n"@) == t
        }),
{
    let nl = seq!['\n'];
    let g = three_lines(first, mid, last);
    let t = head + nl + g + nl + tail;
    lemma_pieces_concat(head, g + nl + tail, '\n');
    lemma_pieces_concat(g, tail, '\n');
    assert(t =~= head + nl + (g + nl + tail));
    let pre = pieces(head, '\n');
    let post = pieces(tail, '\n');
    assert(pieces(t, '\n') =~= pre + pieces(g, '\n') + post);
    lemma_join_pieces(head, '\n');
    lemma_join_pieces(t, '\n');
    reveal_strlit("\n");
    assert("\n"@ =~= nl);
    lemma_step(pre, first, mid, last, post, b, start, end, head + nl);
}

/// A fresh script without definitions comes back unchanged.
proof fn lemma_fresh_lone(name: Seq<char>, fields: Seq<Seq<char>>, d: DefTypeV)
    requires
        d.data_2.len() == 0,
        markers_in_place(name, fields, d),
    ensures
        merged_text(template_text(true, name, fields, d), fields, d) == Ok::<Seq<char>, BlockError>(
            template_text(true, name, fields, d),
        ),
{
    reveal(markers_in_place);
    lemma_block_names_one_line();
    lemma_lone_template_parts(name, fields, d);
    lemma_fields_lines(fields);
    lemma_marker_lines(FIELD_BLOCK@);
    let t = template_text(true, name, fields, d);
    let g = global_fields_block(fields);
    let head = lone_head(name);
    let tail = lone_tail();
    lemma_one_block(
        head,
        "    "@ + start_marker(FIELD_BLOCK@),
        fields_body(fields),
        "    "@ + end_marker(FIELD_BLOCK@),
        tail,
        BLOCK_SWAP::FIELD_BLOCK,
        start_marker(FIELD_BLOCK@),
        end_marker(FIELD_BLOCK@),
    );
    let blocks = blocks_to_swap(d);
    let lines = pieces(t, '\n');
    let out = pieces(head, '\n') + seq![g] + pieces(tail, '\n');
    assert(blocks[0] == BLOCK_SWAP::FIELD_BLOCK);
    assert(swap_all(lines, blocks, fields, d, 0) == Ok::<Seq<Seq<char>>, BlockError>(lines));
    assert(swap_all(lines, blocks, fields, d, 1) == Ok::<Seq<Seq<char>>, BlockError>(out));
}

/// A block, then the rest of the script: where the block's markers stand
/// where it is, updating it with its own text keeps the rest and the text.
proof fn lemma_chain_step(
    pre: Seq<Seq<char>>,
    first: Seq<char>,
    mid: Seq<char>,
    last: Seq<char>,
    rest: Seq<char>,
    b: BLOCK_SWAP,
    start: Seq<char>,
    end: Seq<char>,
    before: Seq<char>,
)
    requires
        pre.len() > 0,
        one_line(first),
        one_line(last),
        has_text(first, start),
        has_text(last, end),
        !has_text(mid, end),
        join(pre, seq!['\n']) + seq!['\n'] == before,
        !has_text(before, start),
    ensures
        ({
            let nl = seq!['\n'];
            let blk = three_lines(first, mid, last);
            let lines = pre + pieces(blk + nl + rest, '\n');
            let out = pre + seq![blk] + pieces(rest, '\n');
            &&& crate::merge::swap_lines(lines, b, start, blk, end) == Ok::<
                Seq<Seq<char>>,
                BlockError,
            >(out)
            &&& join(out, "\n"@) == join(lines, "\n"@)
            &&& join(out, nl) == join(pre, nl) + nl + blk + nl + rest
        }),
{
    let nl = seq!['\n'];
    let blk = three_lines(first, mid, last);
    lemma_pieces_concat(blk, rest, '\n');
    let post = pieces(rest, '\n');
    assert(pre + pieces(blk + nl + rest, '\n') =~= pre + pieces(blk, '\n') + post);
    lemma_step(pre, first, mid, last, post, b, start, end, before);
    lemma_join_extend(pre, blk, rest);
}

/// What updating a block in place needs: lines before it that join into the
/// text before it, which lacks its opening marker; an opening and a closing
/// line that hold its markers; a body without its closing marker.
#[verifier::opaque]
pub open spec fn block_ready(
    pre: Seq<Seq<char>>,
    first: Seq<char>,
    mid: Seq<char>,
    last: Seq<char>,
    start: Seq<char>,
    end: Seq<char>,
    before: Seq<char>,
) -> bool {
    &&& pre.len() > 0
    &&& one_line(first)
    &&& one_line(last)
    &&& has_text(first, start)
    &&& has_text(last, end)
    &&& !has_text(mid, end)
    &&& join(pre, seq!['\n']) + seq!['\n'] == before
    &&& !has_text(before, start)
}

/// A block followed by a gap and a further block: updating the block with its
/// own text keeps the text, and leaves the lines before the further block
/// joining into the text before it.
proof fn lemma_chain_step_next(
    pre: Seq<Seq<char>>,
    first: Seq<char>,
    mid: Seq<char>,
    last: Seq<char>,
    x: Seq<char>,
    next: Seq<char>,
    rest: Seq<char>,
    b: BLOCK_SWAP,
    start: Seq<char>,
    end: Seq<char>,
    before: Seq<char>,
) -> (pre2: Seq<Seq<char>>)
    requires
        block_ready(pre, first, mid, last, start, end, before),
    ensures
        ({
            let nl = seq!['\n'];
            let blk = three_lines(first, mid, last);
            let lines = pre + pieces(blk + nl + (x + nl + (next + nl + rest)), '\n');
            let out = pre2 + pieces(next + nl + rest, '\n');
            &&& crate::merge::swap_lines(lines, b, start, blk, end) == Ok::<
                Seq<Seq<char>>,
                BlockError,
            >(out)
            &&& join(out, "\n"@) == join(lines, "\n"@)
            &&& pre2.len() > 0
            &&& join(pre2, nl) + nl == before + blk + nl + x + nl
        }),
{
    reveal(block_ready);
    let nl = seq!['\n'];
    let blk = three_lines(first, mid, last);
    let r = x + nl + (next + nl + rest);
    lemma_chain_step(pre, first, mid, last, r, b, start, end, before);
    lemma_pieces_concat(x, next + nl + rest, '\n');
    let pre2 = pre + seq![blk] + pieces(x, '\n');
    assert(pre + seq![blk] + pieces(r, '\n') =~= pre2 + pieces(next + nl + rest, '\n'));
    lemma_join_extend(pre, blk, x);
    assert(join(pre2, nl) + nl =~= before + blk + nl + x + nl);
    pre2
}

/// The last block of a fresh script: updating it with its own text keeps
/// the text.
proof fn lemma_chain_last(
    pre: Seq<Seq<char>>,
    first: Seq<char>,
    mid: Seq<char>,
    last: Seq<char>,
    rest: Seq<char>,
    b: BLOCK_SWAP,
    start: Seq<char>,
    end: Seq<char>,
    before: Seq<char>,
)
    requires
        block_ready(pre, first, mid, last, start, end, before),
    ensures
        ({
            let nl = seq!['\n'];
            let blk = three_lines(first, mid, last);
            let lines = pre + pieces(blk + nl + rest, '\n');
            let out = pre + seq![blk] + pieces(rest, '\n');
            &&& crate::merge::swap_lines(lines, b, start, blk, end) == Ok::<
                Seq<Seq<char>>,
                BlockError,
            >(out)
            &&& join(out, "\n"@) == join(lines, "\n"@)
        }),
{
    reveal(block_ready);
    lemma_chain_step(pre, first, mid, last, rest, b, start, end, before);
}

/// Five blocks updated one after the other are what the update of a script
/// with definitions does.
proof fn lemma_swap_all_five(
    lines: Seq<Seq<char>>,
    l1: Seq<Seq<char>>,
    l2: Seq<Seq<char>>,
    l3: Seq<Seq<char>>,
    l4: Seq<Seq<char>>,
    l5: Seq<Seq<char>>,
    fields: Seq<Seq<char>>,
    d: DefTypeV,
)
    requires
        d.data_2.len() > 0,
        crate::merge::swap_lines(
            lines,
            BLOCK_SWAP::ENUM_BLOCK,
            start_marker(ENUM_BLOCK@),
            enums_block(d),
            end_marker(ENUM_BLOCK@),
        ) == Ok::<Seq<Seq<char>>, BlockError>(l1),
        crate::merge::swap_lines(
            l1,
            BLOCK_SWAP::DEF_FIELDS_BLOCK,
            start_marker(DEF_FIELDS_BLOCK@),
            def_fields_block(d),
            end_marker(DEF_FIELDS_BLOCK@),
        ) == Ok::<Seq<Seq<char>>, BlockError>(l2),
        crate::merge::swap_lines(
            l2,
            BLOCK_SWAP::FIELD_BLOCK,
            start_marker(FIELD_BLOCK@),
            global_fields_block(fields),
            end_marker(FIELD_BLOCK@),
        ) == Ok::<Seq<Seq<char>>, BlockError>(l3),
        crate::merge::swap_lines(
            l3,
            BLOCK_SWAP::DEF_BLOCK,
            start_marker(DEF_BLOCK@),
            defs_block(d),
            end_marker(DEF_BLOCK@),
        ) == Ok::<Seq<Seq<char>>, BlockError>(l4),
        crate::merge::swap_lines(
            l4,
            BLOCK_SWAP::FUNC_BLOCK,
            start_marker(FUNC_BLOCK@),
            funcs_block(d),
            end_marker(FUNC_BLOCK@),
        ) == Ok::<Seq<Seq<char>>, BlockError>(l5),
    ensures
        swap_all(lines, blocks_to_swap(d), fields, d, 5) == Ok::<Seq<Seq<char>>, BlockError>(l5),
{
    let blocks = blocks_to_swap(d);
    assert(blocks[0] == BLOCK_SWAP::ENUM_BLOCK);
    assert(blocks[1] == BLOCK_SWAP::DEF_FIELDS_BLOCK);
    assert(blocks[2] == BLOCK_SWAP::FIELD_BLOCK);
    assert(blocks[3] == BLOCK_SWAP::DEF_BLOCK);
    assert(blocks[4] == BLOCK_SWAP::FUNC_BLOCK);
    assert(swap_all(lines, blocks, fields, d, 0) == Ok::<Seq<Seq<char>>, BlockError>(lines));
    assert(swap_all(lines, blocks, fields, d, 1) == Ok::<Seq<Seq<char>>, BlockError>(l1));
    assert(swap_all(lines, blocks, fields, d, 2) == Ok::<Seq<Seq<char>>, BlockError>(l2));
    assert(swap_all(lines, blocks, fields, d, 3) == Ok::<Seq<Seq<char>>, BlockError>(l3));
    assert(swap_all(lines, blocks, fields, d, 4) == Ok::<Seq<Seq<char>>, BlockError>(l4));
}

/// The blocks of a fresh script with definitions, one after the other: the
/// update keeps the lines' text at each block.
proof fn lemma_fresh_with_defs(name: Seq<char>, fields: Seq<Seq<char>>, d: DefTypeV)
    requires
        d.data_2.len() > 0,
        markers_in_place(name, fields, d),
    ensures
        merged_text(template_text(true, name, fields, d), fields, d) == Ok::<Seq<char>, BlockError>(
            template_text(true, name, fields, d),
        ),
{
    let nl = seq!['\n'];
    let t = template_text(true, name, fields, d);
    let x0 = head_text();
    let b0 = enums_block(d);
    let r0 = after_enums(name, fields, d);
    let lines = pieces(t, '\n');
    let pre0 = pieces(x0, '\n');
    assert(lines == pre0 + pieces(b0 + nl + r0, '\n') && join(lines, "\n"@) == t) by {
        reveal_strlit("\n");
        assert("\n"@ =~= nl);
        lemma_template_parts(name, fields, d);
        lemma_pieces_concat(x0, b0 + nl + r0, '\n');
        lemma_join_pieces(t, '\n');
    }
    assert(block_ready(
        pre0,
        start_marker(ENUM_BLOCK@),
        enums_body(d),
        end_marker(ENUM_BLOCK@),
        start_marker(ENUM_BLOCK@),
        end_marker(ENUM_BLOCK@),
        before_enums(),
    ) && b0 == three_lines(start_marker(ENUM_BLOCK@), enums_body(d), end_marker(ENUM_BLOCK@)))
        by {
        reveal(block_ready);
        reveal(markers_in_place);
        lemma_block_names_one_line();
        lemma_pieces_nonempty(x0, '\n');
        lemma_join_pieces(x0, '\n');
        lemma_enums_lines(d);
        lemma_marker_lines(ENUM_BLOCK@);
    }
    let pre1 = lemma_chain_step_next(
        pre0,
        start_marker(ENUM_BLOCK@),
        enums_body(d),
        end_marker(ENUM_BLOCK@),
        class_head(d),
        def_fields_block(d),
        after_def_fields(name, fields, d),
        BLOCK_SWAP::ENUM_BLOCK,
        start_marker(ENUM_BLOCK@),
        end_marker(ENUM_BLOCK@),
        before_enums(),
    );
    let l1 = pre1 + pieces(def_fields_block(d) + nl + after_def_fields(name, fields, d), '\n');
    assert(block_ready(
        pre1,
        "    "@ + start_marker(DEF_FIELDS_BLOCK@),
        def_fields_body(d),
        "    "@ + end_marker(DEF_FIELDS_BLOCK@),
        start_marker(DEF_FIELDS_BLOCK@),
        end_marker(DEF_FIELDS_BLOCK@),
        before_def_fields(d),
    ) && def_fields_block(d) == three_lines(
        "    "@ + start_marker(DEF_FIELDS_BLOCK@),
        def_fields_body(d),
        "    "@ + end_marker(DEF_FIELDS_BLOCK@),
    )) by {
        reveal(block_ready);
        reveal(markers_in_place);
        lemma_block_names_one_line();
        lemma_def_fields_lines(d);
        lemma_marker_lines(DEF_FIELDS_BLOCK@);
        assert(before_enums() + b0 + nl + class_head(d) + nl =~= before_def_fields(d));
    }
    let pre2 = lemma_chain_step_next(
        pre1,
        "    "@ + start_marker(DEF_FIELDS_BLOCK@),
        def_fields_body(d),
        "    "@ + end_marker(DEF_FIELDS_BLOCK@),
        container_head(name),
        global_fields_block(fields),
        after_fields(fields, d),
        BLOCK_SWAP::DEF_FIELDS_BLOCK,
        start_marker(DEF_FIELDS_BLOCK@),
        end_marker(DEF_FIELDS_BLOCK@),
        before_def_fields(d),
    );
    let l2 = pre2 + pieces(global_fields_block(fields) + nl + after_fields(fields, d), '\n');
    assert(block_ready(
        pre2,
        "    "@ + start_marker(FIELD_BLOCK@),
        fields_body(fields),
        "    "@ + end_marker(FIELD_BLOCK@),
        start_marker(FIELD_BLOCK@),
        end_marker(FIELD_BLOCK@),
        before_fields(name, d),
    ) && global_fields_block(fields) == three_lines(
        "    "@ + start_marker(FIELD_BLOCK@),
        fields_body(fields),
        "    "@ + end_marker(FIELD_BLOCK@),
    )) by {
        reveal(block_ready);
        reveal(markers_in_place);
        lemma_block_names_one_line();
        lemma_fields_lines(fields);
        lemma_marker_lines(FIELD_BLOCK@);
        assert(before_def_fields(d) + def_fields_block(d) + nl + container_head(name) + nl
            =~= before_fields(name, d));
    }
    let pre3 = lemma_chain_step_next(
        pre2,
        "    "@ + start_marker(FIELD_BLOCK@),
        fields_body(fields),
        "    "@ + end_marker(FIELD_BLOCK@),
        Seq::<char>::empty(),
        defs_block(d),
        after_defs(d),
        BLOCK_SWAP::FIELD_BLOCK,
        start_marker(FIELD_BLOCK@),
        end_marker(FIELD_BLOCK@),
        before_fields(name, d),
    );
    let l3 = pre3 + pieces(defs_block(d) + nl + after_defs(d), '\n');
    assert(block_ready(
        pre3,
        "    "@ + start_marker(DEF_BLOCK@),
        defs_body(d),
        "    "@ + end_marker(DEF_BLOCK@),
        start_marker(DEF_BLOCK@),
        end_marker(DEF_BLOCK@),
        before_defs(name, fields, d),
    ) && defs_block(d) == three_lines(
        "    "@ + start_marker(DEF_BLOCK@),
        defs_body(d),
        "    "@ + end_marker(DEF_BLOCK@),
    )) by {
        reveal(block_ready);
        reveal(markers_in_place);
        lemma_block_names_one_line();
        lemma_defs_lines(d);
        lemma_marker_lines(DEF_BLOCK@);
        assert(before_fields(name, d) + global_fields_block(fields) + nl + Seq::<char>::empty()
            + nl =~= before_defs(name, fields, d));
    }
    let pre4 = lemma_chain_step_next(
        pre3,
        "    "@ + start_marker(DEF_BLOCK@),
        defs_body(d),
        "    "@ + end_marker(DEF_BLOCK@),
        Seq::<char>::empty(),
        funcs_block(d),
        tail_text(),
        BLOCK_SWAP::DEF_BLOCK,
        start_marker(DEF_BLOCK@),
        end_marker(DEF_BLOCK@),
        before_defs(name, fields, d),
    );
    let l4 = pre4 + pieces(funcs_block(d) + nl + tail_text(), '\n');
    assert(block_ready(
        pre4,
        "    "@ + start_marker(FUNC_BLOCK@),
        funcs_body(d),
        "    "@ + end_marker(FUNC_BLOCK@),
        start_marker(FUNC_BLOCK@),
        end_marker(FUNC_BLOCK@),
        before_funcs(name, fields, d),
    ) && funcs_block(d) == three_lines(
        "    "@ + start_marker(FUNC_BLOCK@),
        funcs_body(d),
        "    "@ + end_marker(FUNC_BLOCK@),
    )) by {
        reveal(block_ready);
        reveal(markers_in_place);
        lemma_block_names_one_line();
        lemma_funcs_lines(d);
        lemma_marker_lines(FUNC_BLOCK@);
        assert(before_defs(name, fields, d) + defs_block(d) + nl + Seq::<char>::empty() + nl
            =~= before_funcs(name, fields, d));
    }
    lemma_chain_last(
        pre4,
        "    "@ + start_marker(FUNC_BLOCK@),
        funcs_body(d),
        "    "@ + end_marker(FUNC_BLOCK@),
        tail_text(),
        BLOCK_SWAP::FUNC_BLOCK,
        start_marker(FUNC_BLOCK@),
        end_marker(FUNC_BLOCK@),
        before_funcs(name, fields, d),
    );
    let l5 = pre4 + seq![funcs_block(d)] + pieces(tail_text(), '\n');
    lemma_swap_all_five(lines, l1, l2, l3, l4, l5, fields, d);
}

/// Updating a fresh script with the sheet it was written from gives the
/// script back unchanged, where its markers stand where its blocks are.
pub proof fn lemma_fresh_script_update_keeps_it(
    name: Seq<char>,
    fields: Seq<Seq<char>>,
    d: DefTypeV,
)
    requires
        markers_in_place(name, fields, d),
    ensures
        merged_text(template_text(true, name, fields, d), fields, d) == Ok::<Seq<char>, BlockError>(
            template_text(true, name, fields, d),
        ),
{
    if d.data_2.len() == 0 {
        lemma_fresh_lone(name, fields, d);
    } else {
        lemma_fresh_with_defs(name, fields, d);
    }
}

/// Running again on an unchanged sheet leaves its script as it is, where the
/// markers of the script first written stand where its blocks are.
pub proof fn lemma_rerun_keeps_script(sheet: Seq<Seq<CellV>>, sheet_name: Seq<char>)
    requires
        sheet_model(sheet) is Ok,
        markers_in_place(
            strip_white(sheet_name),
            sheet_model(sheet)->Ok_0.0,
            sheet_model(sheet)->Ok_0.1,
        ),
    ensures
        script_text(sheet, sheet_name, None) is Ok,
        script_text(sheet, sheet_name, Some(script_text(sheet, sheet_name, None)->Ok_0))
            == script_text(sheet, sheet_name, None),
{
    let m = sheet_model(sheet)->Ok_0;
    lemma_fresh_script_update_keeps_it(strip_white(sheet_name), m.0, m.1);
}

} // verus!
