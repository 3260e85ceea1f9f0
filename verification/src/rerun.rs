//! Updating a script that an update has already brought up to date, with the
//! same sheet, leaves it as it is: each block stands whole between its marker
//! lines and is replaced by the same text.

use vstd::prelude::*;
use crate::blocks::{
    DEF_BLOCK, DEF_FIELDS_BLOCK, ENUM_BLOCK, FIELD_BLOCK, FUNC_BLOCK, USINGS, end_marker,
    start_marker,
};
use crate::merge::{
    BLOCK_SWAP, block_parts, blocks_to_swap, first_line_at, first_line_with, lemma_join_append,
    lemma_line_before_block, lemma_swap_all_err, lemma_swap_in_place, lemma_swaps_keep_other_lines,
    merged_text, swap_all, swap_lines, swap_origin, swap_start,
};
use crate::script::script_text;
use crate::sheet::sheet_model;
use crate::model::DefTypeV;
use crate::stable::{
    before_def_fields, before_defs, before_enums, before_fields, before_funcs, class_head,
    class_title_line, container_head, head_text, lemma_rerun_keeps_script, lone_head,
    markers_in_place,
    def_fields_body, defs_body, enums_body, fields_body, funcs_body, lemma_block_names_one_line,
    lemma_def_fields_lines, lemma_defs_lines, lemma_enums_lines, lemma_fields_lines,
    lemma_funcs_lines, lemma_marker_lines, one_line, three_lines,
};
use crate::text::{
    has_text, occurs_at, strip_white, join, lemma_has_text_in_join, lemma_join_pieces,
    lemma_pieces_concat, lemma_pieces_nonempty, pieces,
};

verus! {

/// The opening line of a block.
pub open spec fn block_first(b: BLOCK_SWAP) -> Seq<char> {
    match b {
        BLOCK_SWAP::ENUM_BLOCK => start_marker(ENUM_BLOCK@),
        BLOCK_SWAP::DEF_FIELDS_BLOCK => "    "@ + start_marker(DEF_FIELDS_BLOCK@),
        BLOCK_SWAP::FIELD_BLOCK => "    "@ + start_marker(FIELD_BLOCK@),
        BLOCK_SWAP::DEF_BLOCK => "    "@ + start_marker(DEF_BLOCK@),
        BLOCK_SWAP::FUNC_BLOCK => "    "@ + start_marker(FUNC_BLOCK@),
    }
}

/// The closing line of a block.
pub open spec fn block_last(b: BLOCK_SWAP) -> Seq<char> {
    match b {
        BLOCK_SWAP::ENUM_BLOCK => end_marker(ENUM_BLOCK@),
        BLOCK_SWAP::DEF_FIELDS_BLOCK => "    "@ + end_marker(DEF_FIELDS_BLOCK@),
        BLOCK_SWAP::FIELD_BLOCK => "    "@ + end_marker(FIELD_BLOCK@),
        BLOCK_SWAP::DEF_BLOCK => "    "@ + end_marker(DEF_BLOCK@),
        BLOCK_SWAP::FUNC_BLOCK => "    "@ + end_marker(FUNC_BLOCK@),
    }
}

/// The text of a block between its marker lines.
pub open spec fn block_body(b: BLOCK_SWAP, fields: Seq<Seq<char>>, d: DefTypeV) -> Seq<char> {
    match b {
        BLOCK_SWAP::ENUM_BLOCK => enums_body(d),
        BLOCK_SWAP::DEF_FIELDS_BLOCK => def_fields_body(d),
        BLOCK_SWAP::FIELD_BLOCK => fields_body(fields),
        BLOCK_SWAP::DEF_BLOCK => defs_body(d),
        BLOCK_SWAP::FUNC_BLOCK => funcs_body(d),
    }
}

/// A block's new text is its opening line, its body and its closing line;
/// the opening line holds the opening marker and the closing line the
/// closing marker.
proof fn lemma_block_lines(b: BLOCK_SWAP, fields: Seq<Seq<char>>, d: DefTypeV)
    ensures
        block_parts(b, fields, d).1 == three_lines(block_first(b), block_body(b, fields, d), block_last(b)),
        one_line(block_first(b)),
        one_line(block_last(b)),
        has_text(block_first(b), block_parts(b, fields, d).0),
        has_text(block_last(b), block_parts(b, fields, d).2),
{
    lemma_block_names_one_line();
    match b {
        BLOCK_SWAP::ENUM_BLOCK => {
            lemma_enums_lines(d);
            lemma_marker_lines(ENUM_BLOCK@);
        },
        BLOCK_SWAP::DEF_FIELDS_BLOCK => {
            lemma_def_fields_lines(d);
            lemma_marker_lines(DEF_FIELDS_BLOCK@);
        },
        BLOCK_SWAP::FIELD_BLOCK => {
            lemma_fields_lines(fields);
            lemma_marker_lines(FIELD_BLOCK@);
        },
        BLOCK_SWAP::DEF_BLOCK => {
            lemma_defs_lines(d);
            lemma_marker_lines(DEF_BLOCK@);
        },
        BLOCK_SWAP::FUNC_BLOCK => {
            lemma_funcs_lines(d);
            lemma_marker_lines(FUNC_BLOCK@);
        },
    }
}

/// The lines that the element at `i` of `l` gives: itself where `i` is kept
/// whole, else its pieces between line breaks.
pub open spec fn unit(l: Seq<Seq<char>>, keep: Set<int>, i: int) -> Seq<Seq<char>> {
    if keep.contains(i) {
        seq![l[i]]
    } else {
        pieces(l[i], '\n')
    }
}

/// The lines that the elements of `l` from `a` up to `m` give, in order.
pub open spec fn expand(l: Seq<Seq<char>>, keep: Set<int>, a: int, m: int) -> Seq<Seq<char>>
    decreases m - a,
{
    if m <= a {
        Seq::empty()
    } else {
        expand(l, keep, a, m - 1) + unit(l, keep, m - 1)
    }
}

proof fn lemma_unit_nonempty(l: Seq<Seq<char>>, keep: Set<int>, i: int)
    ensures
        unit(l, keep, i).len() >= 1,
{
    lemma_pieces_nonempty(l[i], '\n');
}

proof fn lemma_expand_split(l: Seq<Seq<char>>, keep: Set<int>, a: int, b: int, m: int)
    requires
        a <= b <= m,
    ensures
        expand(l, keep, a, m) == expand(l, keep, a, b) + expand(l, keep, b, m),
    decreases m - b,
{
    if m > b {
        lemma_expand_split(l, keep, a, b, m - 1);
        assert(expand(l, keep, a, b) + expand(l, keep, b, m - 1) + unit(l, keep, m - 1)
            =~= expand(l, keep, a, b) + (expand(l, keep, b, m - 1) + unit(l, keep, m - 1)));
    } else {
        assert(expand(l, keep, a, b) + Seq::<Seq<char>>::empty() =~= expand(l, keep, a, b));
    }
}

proof fn lemma_expand_same(l: Seq<Seq<char>>, k1: Set<int>, k2: Set<int>, a: int, m: int)
    requires
        forall|i: int| a <= i < m ==> (k1.contains(i) <==> k2.contains(i)),
    ensures
        expand(l, k1, a, m) == expand(l, k2, a, m),
    decreases m - a,
{
    if m > a {
        lemma_expand_same(l, k1, k2, a, m - 1);
    }
}

/// Joining the lines that the elements give is joining the elements.
proof fn lemma_expand_join(l: Seq<Seq<char>>, keep: Set<int>, m: int)
    requires
        1 <= m <= l.len(),
    ensures
        expand(l, keep, 0, m).len() >= 1,
        join(expand(l, keep, 0, m), seq!['\n']) == join(l.take(m), seq!['\n']),
    decreases m,
{
    let nl = seq!['\n'];
    lemma_unit_nonempty(l, keep, m - 1);
    lemma_join_pieces(l[m - 1], '\n');
    assert(join(unit(l, keep, m - 1), nl) == l[m - 1]);
    if m == 1 {
        assert(expand(l, keep, 0, 0) =~= Seq::<Seq<char>>::empty());
        assert(expand(l, keep, 0, 1) =~= unit(l, keep, 0));
        assert(l.take(1) =~= seq![l[0]]);
    } else {
        lemma_expand_join(l, keep, m - 1);
        lemma_join_append(expand(l, keep, 0, m - 1), unit(l, keep, m - 1), nl);
        assert(l.take(m).drop_last() =~= l.take(m - 1));
    }
}

/// Cutting joined elements at line breaks gives the lines of every element.
proof fn lemma_pieces_of_join(l: Seq<Seq<char>>, m: int)
    requires
        1 <= m <= l.len(),
    ensures
        pieces(join(l.take(m), seq!['\n']), '\n') == expand(l, Set::<int>::empty(), 0, m),
    decreases m,
{
    let nl = seq!['\n'];
    let e = Set::<int>::empty();
    if m == 1 {
        assert(l.take(1) =~= seq![l[0]]);
        assert(expand(l, e, 0, 0) =~= Seq::<Seq<char>>::empty());
        assert(expand(l, e, 0, 1) =~= unit(l, e, 0));
    } else {
        lemma_pieces_of_join(l, m - 1);
        assert(l.take(m).drop_last() =~= l.take(m - 1));
        assert(join(l.take(m), nl) == join(l.take(m - 1), nl) + nl + l[m - 1]);
        lemma_pieces_concat(join(l.take(m - 1), nl), l[m - 1], '\n');
    }
}

/// Where no element from `a` up to `m` holds `n`, no line they give does.
proof fn lemma_expand_lacks(l: Seq<Seq<char>>, keep: Set<int>, a: int, m: int, n: Seq<char>)
    requires
        forall|i: int| a <= i < m ==> !has_text(#[trigger] l[i], n),
    ensures
        forall|j: int|
            0 <= j < expand(l, keep, a, m).len() ==> !has_text(#[trigger] expand(l, keep, a, m)[j], n),
    decreases m - a,
{
    if m > a {
        lemma_expand_lacks(l, keep, a, m - 1, n);
        let p = expand(l, keep, a, m - 1);
        let u = unit(l, keep, m - 1);
        assert forall|j: int| 0 <= j < u.len() implies !has_text(#[trigger] u[j], n) by {
            if !keep.contains(m - 1) && has_text(u[j], n) {
                lemma_join_pieces(l[m - 1], '\n');
                lemma_has_text_in_join(u, seq!['\n'], j, n);
            }
        }
        assert forall|j: int| 0 <= j < (p + u).len() implies !has_text(#[trigger] (p + u)[j], n) by {
            if j < p.len() {
                assert((p + u)[j] == p[j]);
            } else {
                assert((p + u)[j] == u[j - p.len()]);
            }
        }
    }
}

/// Updating one block whose text stands as a whole element of `l`, with no
/// earlier element holding its opening marker: the update finds exactly the
/// lines of that element and keeps it whole.
proof fn lemma_rerun_step(
    l: Seq<Seq<char>>,
    keep: Set<int>,
    pos: int,
    b: BLOCK_SWAP,
    start: Seq<char>,
    end: Seq<char>,
    first: Seq<char>,
    mid: Seq<char>,
    last: Seq<char>,
)
    requires
        0 <= pos < l.len(),
        !keep.contains(pos),
        l[pos] == three_lines(first, mid, last),
        one_line(first),
        one_line(last),
        has_text(first, start),
        has_text(last, end),
        !has_text(mid, end),
        forall|i: int| 0 <= i < pos ==> !has_text(#[trigger] l[i], start),
    ensures
        swap_lines(expand(l, keep, 0, l.len() as int), b, start, l[pos], end) == Ok::<
            Seq<Seq<char>>,
            crate::merge::BlockError,
        >(expand(l, keep.insert(pos), 0, l.len() as int)),
{
    let n = l.len() as int;
    let k2 = keep.insert(pos);
    lemma_expand_split(l, keep, 0, pos, n);
    lemma_expand_split(l, keep, pos, pos + 1, n);
    lemma_expand_split(l, k2, 0, pos, n);
    lemma_expand_split(l, k2, pos, pos + 1, n);
    lemma_expand_same(l, keep, k2, 0, pos);
    lemma_expand_same(l, keep, k2, pos + 1, n);
    assert(expand(l, keep, pos, pos) =~= Seq::<Seq<char>>::empty());
    assert(expand(l, k2, pos, pos) =~= Seq::<Seq<char>>::empty());
    assert(expand(l, keep, pos, pos + 1) =~= unit(l, keep, pos));
    assert(expand(l, k2, pos, pos + 1) =~= unit(l, k2, pos));
    let pre = expand(l, keep, 0, pos);
    let post = expand(l, keep, pos + 1, n);
    lemma_expand_lacks(l, keep, 0, pos, start);
    lemma_swap_in_place(pre, first, mid, last, post, b, start, end);
    assert(expand(l, keep, 0, n) =~= pre + pieces(l[pos], '\n') + post);
    assert(expand(l, k2, 0, n) =~= pre + seq![l[pos]] + post);
}

/// The word in a block's markers.
pub open spec fn block_name(b: BLOCK_SWAP) -> Seq<char> {
    match b {
        BLOCK_SWAP::ENUM_BLOCK => ENUM_BLOCK@,
        BLOCK_SWAP::DEF_FIELDS_BLOCK => DEF_FIELDS_BLOCK@,
        BLOCK_SWAP::FIELD_BLOCK => FIELD_BLOCK@,
        BLOCK_SWAP::DEF_BLOCK => DEF_BLOCK@,
        BLOCK_SWAP::FUNC_BLOCK => FUNC_BLOCK@,
    }
}

/// What stands before a block's marker on its marker lines.
pub open spec fn block_indent(b: BLOCK_SWAP) -> Seq<char> {
    match b {
        BLOCK_SWAP::ENUM_BLOCK => Seq::empty(),
        _ => "    "@,
    }
}

/// `x` holds no `/`.
pub open spec fn no_slash(x: Seq<char>) -> bool {
    forall|i: int| 0 <= i < x.len() ==> x[i] != '/'
}

/// The pieces of the marker lines: no `/` outside the marker prefix, and the
/// marker words of two blocks differ in one of their first four characters.
proof fn lemma_marker_words(b1: BLOCK_SWAP, b2: BLOCK_SWAP)
    ensures
        no_slash(block_name(b1)),
        no_slash(block_indent(b1)),
        no_slash("-S-"@),
        no_slash("-E-"@),
        block_name(b1).len() >= 4,
        "//-"@ == seq!['/', '/', '-'],
        block_first(b1) == block_indent(b1) + "//-"@ + block_name(b1) + "-S-"@,
        block_last(b1) == block_indent(b1) + "//-"@ + block_name(b1) + "-E-"@,
        b1 != b2 ==> block_name(b1)[0] != block_name(b2)[0] || block_name(b1)[1] != block_name(
            b2,
        )[1] || block_name(b1)[3] != block_name(b2)[3],
{
    reveal_strlit("ENUM");
    reveal_strlit("DEF-FIELDS");
    reveal_strlit("FIELDS");
    reveal_strlit("DEFS");
    reveal_strlit("FUNCTIONS");
    reveal_strlit("    ");
    reveal_strlit("-S-");
    reveal_strlit("-E-");
    reveal_strlit("//-");
    assert(block_first(b1) =~= block_indent(b1) + "//-"@ + block_name(b1) + "-S-"@);
    assert(block_last(b1) =~= block_indent(b1) + "//-"@ + block_name(b1) + "-E-"@);
}

/// The character at `i` of a text made of three lines.
proof fn lemma_three_lines_at(f: Seq<char>, m: Seq<char>, l: Seq<char>, i: int)
    requires
        0 <= i < three_lines(f, m, l).len(),
    ensures
        ({
            let t = three_lines(f, m, l);
            let a = f.len() as int;
            let c = a + 1 + m.len();
            &&& i < a ==> t[i] == f[i]
            &&& i == a ==> t[i] == '\n'
            &&& a < i < c ==> t[i] == m[i - a - 1]
            &&& i == c ==> t[i] == '\n'
            &&& i > c ==> t[i] == l[i - c - 1]
        }),
{
}

/// In a marker line, two `/` in a row stand only at the start of the marker.
proof fn lemma_slash_pair(ind: Seq<char>, nm: Seq<char>, suf: Seq<char>, q: int)
    requires
        no_slash(ind),
        no_slash(nm),
        no_slash(suf),
        0 <= q,
        q + 1 < (ind + seq!['/', '/', '-'] + nm + suf).len(),
        (ind + seq!['/', '/', '-'] + nm + suf)[q] == '/',
        (ind + seq!['/', '/', '-'] + nm + suf)[q + 1] == '/',
    ensures
        q == ind.len(),
{
    let line = ind + seq!['/', '/', '-'] + nm + suf;
    let il = ind.len() as int;
    if q < il {
        assert(line[q] == ind[q]);
    } else if q == il + 1 {
        assert(line[q + 1] == '-');
    } else if q == il + 2 {
        assert(line[q] == '-');
    } else if q > il + 2 && q < il + 3 + nm.len() {
        assert(line[q] == nm[q - il - 3]);
    } else if q >= il + 3 + nm.len() {
        assert(line[q] == suf[q - il - 3 - nm.len()]);
    }
}

/// The only places a text made of two marker lines around a body without the
/// marker prefix holds the marker prefix are the starts of its markers.
proof fn lemma_prefix_only_at_markers(
    ind: Seq<char>,
    nm: Seq<char>,
    sf: Seq<char>,
    sl: Seq<char>,
    body: Seq<char>,
    p: int,
)
    requires
        no_slash(ind),
        no_slash(nm),
        no_slash(sf),
        no_slash(sl),
        !has_text(body, seq!['/', '/', '-']),
        occurs_at(
            three_lines(ind + seq!['/', '/', '-'] + nm + sf, body, ind + seq!['/', '/', '-'] + nm + sl),
            seq!['/', '/', '-'],
            p,
        ),
    ensures
        p == ind.len() || p == (ind + seq!['/', '/', '-'] + nm + sf).len() + 1 + body.len() + 1
            + ind.len(),
{
    let dd = seq!['/', '/', '-'];
    let f = ind + dd + nm + sf;
    let l = ind + dd + nm + sl;
    let t = three_lines(f, body, l);
    let a = f.len() as int;
    let c = a + 1 + body.len();
    assert(t[p] == '/' && t[p + 1] == '/' && t[p + 2] == '-') by {
        assert(t[p] == t.subrange(p, p + 3)[0]);
        assert(t[p + 1] == t.subrange(p, p + 3)[1]);
        assert(t[p + 2] == t.subrange(p, p + 3)[2]);
    }
    lemma_three_lines_at(f, body, l, p);
    lemma_three_lines_at(f, body, l, p + 1);
    lemma_three_lines_at(f, body, l, p + 2);
    if p < a {
        if p + 1 < a {
            lemma_slash_pair(ind, nm, sf, p);
        }
    } else if a < p < c {
        if p + 2 < c {
            assert forall|i: int| 0 <= i < 3 implies body.subrange(p - a - 1, p - a - 1 + 3)[i]
                == dd[i] by {
                lemma_three_lines_at(f, body, l, p + i);
            }
            assert(body.subrange(p - a - 1, p - a - 1 + 3) =~= dd);
            assert(occurs_at(body, dd, p - a - 1));
        }
    } else if p > c {
        lemma_slash_pair(ind, nm, sl, p - c - 1);
    }
}

/// A text without the marker prefix holds no marker.
proof fn lemma_no_prefix_no_marker(body: Seq<char>, x: Seq<char>)
    requires
        !has_text(body, seq!['/', '/', '-']),
    ensures
        !has_text(body, seq!['/', '/', '-'] + x),
{
    let dd = seq!['/', '/', '-'];
    let m = dd + x;
    if has_text(body, m) {
        let p = choose|p: int| occurs_at(body, m, p);
        assert(body.subrange(p, p + 3) =~= body.subrange(p, p + m.len()).subrange(0, 3));
        assert(m.subrange(0, 3) =~= dd);
        assert(occurs_at(body, dd, p));
    }
}

/// Two marker lines around a body without the marker prefix hold no opening
/// marker of another word.
proof fn lemma_lines_lack_other_start(ind: Seq<char>, nm: Seq<char>, other: Seq<char>, body: Seq<char>)
    requires
        no_slash(ind),
        no_slash(nm),
        no_slash("-S-"@),
        no_slash("-E-"@),
        nm.len() >= 4,
        other.len() >= 4,
        nm[0] != other[0] || nm[1] != other[1] || nm[3] != other[3],
        !has_text(body, seq!['/', '/', '-']),
    ensures
        !has_text(
            three_lines(
                ind + seq!['/', '/', '-'] + nm + "-S-"@,
                body,
                ind + seq!['/', '/', '-'] + nm + "-E-"@,
            ),
            seq!['/', '/', '-'] + other + "-S-"@,
        ),
{
    let dd = seq!['/', '/', '-'];
    let f = ind + dd + nm + "-S-"@;
    let l = ind + dd + nm + "-E-"@;
    let t = three_lines(f, body, l);
    let st = dd + other + "-S-"@;
    if has_text(t, st) {
        let p = choose|p: int| occurs_at(t, st, p);
        assert(t.subrange(p, p + 3) =~= t.subrange(p, p + st.len()).subrange(0, 3));
        assert(st.subrange(0, 3) =~= dd);
        assert(occurs_at(t, dd, p));
        lemma_prefix_only_at_markers(ind, nm, "-S-"@, "-E-"@, body, p);
        assert forall|i: int| 0 <= i < 4 implies t[p + 3 + i] == nm[i] && t[p + 3 + i]
            == other[i] by {
            assert(t[p + 3 + i] == t.subrange(p, p + st.len())[3 + i]);
            assert(st[3 + i] == other[i]);
            lemma_three_lines_at(f, body, l, p + 3 + i);
            if p == ind.len() {
                assert(f[p + 3 + i] == nm[i]);
            } else {
                let c = f.len() + 1 + body.len();
                assert(l[p + 3 + i - c - 1] == nm[i]);
            }
        }
        assert(t[p + 3] == nm[0]);
        assert(t[p + 4] == nm[1]);
        assert(t[p + 6] == nm[3]);
    }
}

/// A block's opening and closing markers.
proof fn lemma_block_markers(b: BLOCK_SWAP, fields: Seq<Seq<char>>, d: DefTypeV)
    ensures
        block_parts(b, fields, d).0 == "//-"@ + block_name(b) + "-S-"@,
        block_parts(b, fields, d).2 == "//-"@ + block_name(b) + "-E-"@,
{
    match b {
        BLOCK_SWAP::ENUM_BLOCK => {},
        BLOCK_SWAP::DEF_FIELDS_BLOCK => {},
        BLOCK_SWAP::FIELD_BLOCK => {},
        BLOCK_SWAP::DEF_BLOCK => {},
        BLOCK_SWAP::FUNC_BLOCK => {},
    }
}

/// Where a block's body lacks the marker prefix `//-`, its text holds no
/// other block's opening marker, and its body not its own closing marker.
pub proof fn lemma_clean_body_markers_apart(
    b1: BLOCK_SWAP,
    b2: BLOCK_SWAP,
    fields: Seq<Seq<char>>,
    d: DefTypeV,
)
    requires
        !has_text(block_body(b1, fields, d), "//-"@),
    ensures
        b1 != b2 ==> !has_text(block_parts(b1, fields, d).1, block_parts(b2, fields, d).0),
        !has_text(block_body(b1, fields, d), block_parts(b1, fields, d).2),
{
    lemma_marker_words(b1, b2);
    lemma_marker_words(b2, b1);
    lemma_block_lines(b1, fields, d);
    lemma_block_markers(b1, fields, d);
    lemma_block_markers(b2, fields, d);
    let body = block_body(b1, fields, d);
    lemma_no_prefix_no_marker(body, block_name(b1) + "-E-"@);
    assert(seq!['/', '/', '-'] + (block_name(b1) + "-E-"@) =~= "//-"@ + block_name(b1) + "-E-"@);
    if b1 != b2 {
        lemma_lines_lack_other_start(block_indent(b1), block_name(b1), block_name(b2), body);
    }
}

/// The new texts of the blocks hold their markers only where they belong: no
/// block's text holds another block's opening marker, and no block's body
/// holds its own closing marker.
pub open spec fn markers_apart(fields: Seq<Seq<char>>, d: DefTypeV) -> bool {
    let bl = blocks_to_swap(d);
    &&& forall|j: int, k: int|
        0 <= j < bl.len() && 0 <= k < bl.len() && j != k ==> !has_text(
            #[trigger] block_parts(bl[j], fields, d).1,
            #[trigger] block_parts(bl[k], fields, d).0,
        )
    &&& forall|k: int|
        0 <= k < bl.len() ==> !has_text(
            block_body(bl[k], fields, d),
            #[trigger] block_parts(bl[k], fields, d).2,
        )
}

/// No block's body holds the marker prefix `//-`.
pub open spec fn bodies_clean(fields: Seq<Seq<char>>, d: DefTypeV) -> bool {
    let bl = blocks_to_swap(d);
    forall|k: int| 0 <= k < bl.len() ==> !has_text(#[trigger] block_body(bl[k], fields, d), "//-"@)
}

/// Blocks whose bodies lack the marker prefix hold their markers only where
/// they belong.
pub proof fn lemma_clean_bodies_apart(fields: Seq<Seq<char>>, d: DefTypeV)
    requires
        bodies_clean(fields, d),
    ensures
        markers_apart(fields, d),
{
    let bl = blocks_to_swap(d);
    assert forall|j: int, k: int|
        0 <= j < bl.len() && 0 <= k < bl.len() && j != k implies !has_text(
        #[trigger] block_parts(bl[j], fields, d).1,
        #[trigger] block_parts(bl[k], fields, d).0,
    ) by {
        assert(!has_text(block_body(bl[j], fields, d), "//-"@));
        lemma_clean_body_markers_apart(bl[j], bl[k], fields, d);
    }
    assert forall|k: int| 0 <= k < bl.len() implies !has_text(
        block_body(bl[k], fields, d),
        #[trigger] block_parts(bl[k], fields, d).2,
    ) by {
        assert(!has_text(block_body(bl[k], fields, d), "//-"@));
        lemma_clean_body_markers_apart(bl[k], bl[k], fields, d);
    }
}

/// Updating `old` leaves every block it puts in where it put it: no later
/// block's update runs over an earlier block's new text.
pub open spec fn blocks_survive(old: Seq<char>, fields: Seq<Seq<char>>, d: DefTypeV) -> bool {
    let bl = blocks_to_swap(d);
    forall|k: int|
        0 <= k < bl.len() ==> #[trigger] swap_origin(
            pieces(old, '\n'),
            bl,
            fields,
            d,
            bl.len() as int,
        ).contains(-(k + 1))
}

/// Where the `k`-th block's new text stands.
pub open spec fn block_pos(o: Seq<int>, k: int) -> int {
    choose|i: int| 0 <= i < o.len() && o[i] == -(k + 1)
}

/// The positions of the first `m` blocks' new texts.
pub open spec fn kept_blocks(o: Seq<int>, m: int) -> Set<int>
    decreases m,
{
    if m <= 0 {
        Set::empty()
    } else {
        kept_blocks(o, m - 1).insert(block_pos(o, m - 1))
    }
}

proof fn lemma_kept_blocks(o: Seq<int>, m: int, i: int)
    requires
        kept_blocks(o, m).contains(i),
    ensures
        exists|k: int| 0 <= k < m && i == block_pos(o, k),
    decreases m,
{
    if m > 0 && i != block_pos(o, m - 1) {
        lemma_kept_blocks(o, m - 1, i);
    }
}

/// The second update, block by block: after `m` blocks, the lines are those
/// of the first update's result, with the first `m` blocks' texts whole.
proof fn lemma_rerun_blocks(
    lines: Seq<Seq<char>>,
    bl: Seq<BLOCK_SWAP>,
    fields: Seq<Seq<char>>,
    d: DefTypeV,
    m: int,
)
    requires
        bl == blocks_to_swap(d),
        swap_all(lines, bl, fields, d, bl.len() as int) is Ok,
        markers_apart(fields, d),
        forall|k: int|
            0 <= k < bl.len() ==> #[trigger] swap_origin(
                lines,
                bl,
                fields,
                d,
                bl.len() as int,
            ).contains(-(k + 1)),
        0 <= m <= bl.len(),
    ensures
        ({
            let n = bl.len() as int;
            let l = swap_all(lines, bl, fields, d, n)->Ok_0;
            let o = swap_origin(lines, bl, fields, d, n);
            swap_all(expand(l, Set::<int>::empty(), 0, l.len() as int), bl, fields, d, m) == Ok::<
                Seq<Seq<char>>,
                crate::merge::BlockError,
            >(expand(l, kept_blocks(o, m), 0, l.len() as int))
        }),
    decreases m,
{
    let n = bl.len() as int;
    let l = swap_all(lines, bl, fields, d, n)->Ok_0;
    let o = swap_origin(lines, bl, fields, d, n);
    if m > 0 {
        lemma_rerun_blocks(lines, bl, fields, d, m - 1);
        let k = m - 1;
        lemma_swaps_keep_other_lines(lines, bl, fields, d, n);
        assert(o.contains(-(k + 1)));
        let pos = block_pos(o, k);
        assert(0 <= pos < o.len() && o[pos] == -(k + 1));
        let parts = block_parts(bl[k], fields, d);
        assert(l[pos] == parts.1);
        let keep = kept_blocks(o, k);
        if keep.contains(pos) {
            lemma_kept_blocks(o, k, pos);
            let j = choose|j: int| 0 <= j < k && pos == block_pos(o, j);
            assert(o.contains(-(j + 1)));
            assert(o[pos] == -(j + 1));
        }
        lemma_block_lines(bl[k], fields, d);
        if swap_all(lines, bl, fields, d, k) is Err {
            lemma_swap_all_err(lines, bl, fields, d, k, n);
        }
        if swap_all(lines, bl, fields, d, k + 1) is Err {
            lemma_swap_all_err(lines, bl, fields, d, k + 1, n);
        }
        lemma_swaps_keep_other_lines(lines, bl, fields, d, k);
        let lk = swap_all(lines, bl, fields, d, k)->Ok_0;
        let ok = swap_origin(lines, bl, fields, d, k);
        let sk = swap_start(lines, bl, fields, d, k);
        assert(swap_lines(lk, bl[k], parts.0, parts.1, parts.2) is Ok);
        assert(first_line_at(lk, 0, parts.0, sk)) by {
            reveal(swap_lines);
            assert(first_line_with(lk, 0, parts.0) is Some);
        }
        assert forall|i: int| 0 <= i < pos implies !has_text(#[trigger] l[i], parts.0) by {
            if o[i] >= 0 {
                lemma_line_before_block(lines, bl, fields, d, k, n, i, pos);
                let i2 = choose|i2: int|
                    0 <= i2 < sk && #[trigger] swap_origin(lines, bl, fields, d, k)[i2] == o[i];
                assert(ok[i2] == o[i]);
                assert(lk[i2] == lines[o[i]]);
            } else {
                let j = -o[i] - 1;
                assert(o[i] != o[pos]);
                assert(l[i] == block_parts(bl[j], fields, d).1);
            }
        }
        lemma_rerun_step(
            l,
            keep,
            pos,
            bl[k],
            parts.0,
            parts.2,
            block_first(bl[k]),
            block_body(bl[k], fields, d),
            block_last(bl[k]),
        );
    }
}

/// Updating a script that an update of `old` gave, with the same fields and
/// class, gives it back unchanged, where the blocks' texts hold their markers
/// only where they belong and the first update ran over none of the blocks it
/// put in.
pub proof fn lemma_update_again_keeps_it(old: Seq<char>, fields: Seq<Seq<char>>, d: DefTypeV)
    requires
        merged_text(old, fields, d) is Ok,
        markers_apart(fields, d),
        blocks_survive(old, fields, d),
    ensures
        merged_text(merged_text(old, fields, d)->Ok_0, fields, d) == merged_text(old, fields, d),
{
    let lines = pieces(old, '\n');
    let bl = blocks_to_swap(d);
    let n = bl.len() as int;
    let l = swap_all(lines, bl, fields, d, n)->Ok_0;
    let o = swap_origin(lines, bl, fields, d, n);
    lemma_swaps_keep_other_lines(lines, bl, fields, d, n);
    assert(o.contains(-1));
    let c1 = join(l, "\n"@);
    reveal_strlit("\n");
    assert("\n"@ =~= seq!['\n']);
    assert(l.take(l.len() as int) =~= l);
    lemma_pieces_of_join(l, l.len() as int);
    lemma_rerun_blocks(lines, bl, fields, d, n);
    lemma_expand_join(l, kept_blocks(o, n), l.len() as int);
}

/// Running again, on an unchanged sheet, over a script that a run updated
/// leaves it as it is, where the blocks' texts hold their markers only where
/// they belong and the update ran over none of the blocks it put in.
pub proof fn lemma_rerun_keeps_updated_script(
    sheet: Seq<Seq<crate::model::CellV>>,
    sheet_name: Seq<char>,
    old: Seq<char>,
)
    requires
        sheet_model(sheet) is Ok,
        merged_text(old, sheet_model(sheet)->Ok_0.0, sheet_model(sheet)->Ok_0.1) is Ok,
        markers_apart(sheet_model(sheet)->Ok_0.0, sheet_model(sheet)->Ok_0.1),
        blocks_survive(old, sheet_model(sheet)->Ok_0.0, sheet_model(sheet)->Ok_0.1),
    ensures
        script_text(sheet, sheet_name, Some(old)) is Ok,
        script_text(sheet, sheet_name, Some(script_text(sheet, sheet_name, Some(old))->Ok_0))
            == script_text(sheet, sheet_name, Some(old)),
{
    let m = sheet_model(sheet)->Ok_0;
    lemma_update_again_keeps_it(old, m.0, m.1);
}

/// Every `/` in `x` has a character other than `-` right after it.
pub open spec fn slashes_safe(x: Seq<char>) -> bool {
    forall|i: int| 0 <= i < x.len() && #[trigger] x[i] == '/' ==> i + 1 < x.len() && x[i + 1] != '-'
}

proof fn lemma_safe_concat(a: Seq<char>, b: Seq<char>)
    requires
        slashes_safe(a),
        slashes_safe(b),
    ensures
        slashes_safe(a + b),
{
    assert forall|i: int| 0 <= i < (a + b).len() && #[trigger] (a + b)[i] == '/' implies i + 1 < (a
        + b).len() && (a + b)[i + 1] != '-' by {
        if i < a.len() {
            assert((a + b)[i] == a[i]);
            assert((a + b)[i + 1] == a[i + 1]);
        } else {
            assert((a + b)[i] == b[i - a.len()]);
            assert((a + b)[i + 1] == b[i + 1 - a.len()]);
        }
    }
}

proof fn lemma_safe_lacks_prefix(x: Seq<char>, m: Seq<char>)
    requires
        slashes_safe(x),
        m.len() >= 3,
        m[0] == '/',
        m[1] == '/',
        m[2] == '-',
    ensures
        !has_text(x, m),
{
    if has_text(x, m) {
        let p = choose|p: int| occurs_at(x, m, p);
        assert(x[p + 1] == x.subrange(p, p + m.len())[1]);
        assert(x[p + 2] == x.subrange(p, p + m.len())[2]);
    }
}

/// Where neither side holds `m`, and `m` holds no line break, a line break
/// between them makes no `m`.
proof fn lemma_lacks_across_break(a: Seq<char>, b: Seq<char>, m: Seq<char>)
    requires
        m.len() > 0,
        one_line(m),
        !has_text(a, m),
        !has_text(b, m),
    ensures
        !has_text(a + seq!['\n'] + b, m),
{
    let t = a + seq!['\n'] + b;
    if has_text(t, m) {
        let p = choose|p: int| occurs_at(t, m, p);
        let w = t.subrange(p, p + m.len());
        if p + m.len() <= a.len() {
            assert(w =~= a.subrange(p, p + m.len()));
            assert(occurs_at(a, m, p));
        } else if p > a.len() {
            assert(w =~= b.subrange(p - a.len() - 1, p - a.len() - 1 + m.len()));
            assert(occurs_at(b, m, p - a.len() - 1));
        } else {
            let j = a.len() - p;
            assert(w[j] == t[a.len() as int]);
            assert(m[j] == '\n');
        }
    }
}

/// An opening marker is a single line starting with the marker prefix.
proof fn lemma_marker_shape(name: Seq<char>)
    requires
        one_line(name),
    ensures
        ({
            let st = "//-"@ + name + "-S-"@;
            &&& st.len() >= 3
            &&& st[0] == '/' && st[1] == '/' && st[2] == '-'
            &&& one_line(st)
        }),
{
    reveal_strlit("//-");
    reveal_strlit("-S-");
    let st = "//-"@ + name + "-S-"@;
    assert forall|i: int| 0 <= i < st.len() implies st[i] != '\n' by {
        if 3 <= i < 3 + name.len() {
            assert(st[i] == name[i - 3]);
        }
    }
}

proof fn lemma_name_one_line(b: BLOCK_SWAP)
    ensures
        one_line(block_name(b)),
{
    lemma_block_names_one_line();
    match b {
        BLOCK_SWAP::ENUM_BLOCK => {},
        BLOCK_SWAP::DEF_FIELDS_BLOCK => {},
        BLOCK_SWAP::FIELD_BLOCK => {},
        BLOCK_SWAP::DEF_BLOCK => {},
        BLOCK_SWAP::FUNC_BLOCK => {},
    }
}

proof fn lemma_start_shape(b: BLOCK_SWAP, fields: Seq<Seq<char>>, d: DefTypeV)
    ensures
        ({
            let st = block_parts(b, fields, d).0;
            &&& st.len() >= 3
            &&& st[0] == '/' && st[1] == '/' && st[2] == '-'
            &&& one_line(st)
        }),
{
    lemma_block_markers(b, fields, d);
    lemma_name_one_line(b);
    lemma_marker_shape(block_name(b));
}

/// The literal text around the names in a fresh script has every `/`
/// followed by a space.
proof fn lemma_heads_safe(name: Seq<char>, d: DefTypeV)
    requires
        no_slash(name),
        no_slash(d.name),
    ensures
        slashes_safe(head_text()),
        slashes_safe(class_head(d)),
        slashes_safe(container_head(name)),
        slashes_safe(lone_head(name)),
{
    reveal_strlit(" // ** AUTO-GENERATED CLASS FROM EXCEL SHEET, DO NOT EDIT NAME**\n{");
    reveal_strlit("using System;\nusing System.Collections;\nusing System.Collections.Generic;\nusing UnityEngine;");
    reveal_strlit("\n");
    reveal_strlit("\npublic class ");
    reveal_strlit("}");
    reveal_strlit("\n\npublic ");
    reveal_strlit("static");
    reveal_strlit(" class ");
    let ct = class_title_line();
    assert(slashes_safe(ct));
    assert(slashes_safe(USINGS@));
    assert(slashes_safe("\n"@));
    assert(slashes_safe("\npublic class "@));
    assert(slashes_safe("}"@));
    assert(slashes_safe("\n\npublic "@));
    assert(slashes_safe("static"@));
    assert(slashes_safe(" class "@));
    assert(slashes_safe(name));
    assert(slashes_safe(d.name));
    lemma_safe_concat(USINGS@, "\n"@);
    lemma_safe_concat("\npublic class "@, d.name);
    lemma_safe_concat("\npublic class "@ + d.name, ct);
    lemma_safe_concat("}"@, "\n\npublic "@);
    lemma_safe_concat("}"@ + "\n\npublic "@, "static"@);
    lemma_safe_concat("}"@ + "\n\npublic "@ + "static"@, " class "@);
    lemma_safe_concat("}"@ + "\n\npublic "@ + "static"@ + " class "@, name);
    lemma_safe_concat("}"@ + "\n\npublic "@ + "static"@ + " class "@ + name, ct);
    lemma_safe_concat(USINGS@ + "\n"@, "\n\npublic "@);
    lemma_safe_concat(USINGS@ + "\n"@ + "\n\npublic "@, "static"@);
    lemma_safe_concat(USINGS@ + "\n"@ + "\n\npublic "@ + "static"@, " class "@);
    lemma_safe_concat(USINGS@ + "\n"@ + "\n\npublic "@ + "static"@ + " class "@, name);
    lemma_safe_concat(USINGS@ + "\n"@ + "\n\npublic "@ + "static"@ + " class "@ + name, ct);
}

/// A fresh script whose blocks' bodies lack the marker prefix `//-`, and
/// whose class and sheet names hold no `/`, has its markers where its blocks
/// are.
pub proof fn lemma_clean_fresh_markers_in_place(name: Seq<char>, fields: Seq<Seq<char>>, d: DefTypeV)
    requires
        bodies_clean(fields, d),
        no_slash(name),
        no_slash(d.name),
    ensures
        markers_in_place(name, fields, d),
{
    reveal(markers_in_place);
    lemma_heads_safe(name, d);
    let bl = blocks_to_swap(d);
    let e = Seq::<char>::empty();
    let nl = seq!['\n'];
    if d.data_2.len() == 0 {
        let st = block_parts(BLOCK_SWAP::FIELD_BLOCK, fields, d).0;
        assert(bl[0] == BLOCK_SWAP::FIELD_BLOCK);
        assert(!has_text(block_body(bl[0], fields, d), "//-"@));
        lemma_clean_body_markers_apart(BLOCK_SWAP::FIELD_BLOCK, BLOCK_SWAP::FIELD_BLOCK, fields, d);
        lemma_start_shape(BLOCK_SWAP::FIELD_BLOCK, fields, d);
        lemma_safe_lacks_prefix(lone_head(name), st);
        lemma_lacks_across_break(lone_head(name), e, st);
        assert(lone_head(name) + nl + e =~= lone_head(name) + nl);
    } else {
        let bs = seq![
            BLOCK_SWAP::ENUM_BLOCK,
            BLOCK_SWAP::DEF_FIELDS_BLOCK,
            BLOCK_SWAP::FIELD_BLOCK,
            BLOCK_SWAP::DEF_BLOCK,
            BLOCK_SWAP::FUNC_BLOCK,
        ];
        assert(bl == bs);
        assert forall|i: int, k: int| 0 <= i < 5 && 0 <= k < 5 && i != k implies !has_text(
            #[trigger] block_parts(bs[i], fields, d).1,
            #[trigger] block_parts(bs[k], fields, d).0,
        ) by {
            assert(!has_text(block_body(bl[i], fields, d), "//-"@));
            lemma_clean_body_markers_apart(bs[i], bs[k], fields, d);
        }
        assert forall|i: int| 0 <= i < 5 implies !has_text(
            block_body(bs[i], fields, d),
            #[trigger] block_parts(bs[i], fields, d).2,
        ) by {
            assert(!has_text(block_body(bl[i], fields, d), "//-"@));
            lemma_clean_body_markers_apart(bs[i], bs[i], fields, d);
        }
        let en = BLOCK_SWAP::ENUM_BLOCK;
        let df = BLOCK_SWAP::DEF_FIELDS_BLOCK;
        let fb = BLOCK_SWAP::FIELD_BLOCK;
        let db = BLOCK_SWAP::DEF_BLOCK;
        let fu = BLOCK_SWAP::FUNC_BLOCK;
        let s_en = block_parts(en, fields, d).0;
        let s_df = block_parts(df, fields, d).0;
        let s_fb = block_parts(fb, fields, d).0;
        let s_db = block_parts(db, fields, d).0;
        let s_fu = block_parts(fu, fields, d).0;
        lemma_start_shape(en, fields, d);
        lemma_start_shape(df, fields, d);
        lemma_start_shape(fb, fields, d);
        lemma_start_shape(db, fields, d);
        lemma_start_shape(fu, fields, d);
        let h = head_text();
        let t_en = block_parts(en, fields, d).1;
        let t_df = block_parts(df, fields, d).1;
        let t_fb = block_parts(fb, fields, d).1;
        let t_db = block_parts(db, fields, d).1;
        assert(!has_text(t_en, s_df) && !has_text(t_en, s_fb) && !has_text(t_en, s_db)
            && !has_text(t_en, s_fu)) by {
            assert(bs[0] == en && bs[1] == df && bs[2] == fb && bs[3] == db && bs[4] == fu);
        }
        assert(!has_text(t_df, s_fb) && !has_text(t_df, s_db) && !has_text(t_df, s_fu)) by {
            assert(bs[1] == df && bs[2] == fb && bs[3] == db && bs[4] == fu);
        }
        assert(!has_text(t_fb, s_db) && !has_text(t_fb, s_fu)) by {
            assert(bs[2] == fb && bs[3] == db && bs[4] == fu);
        }
        assert(!has_text(t_db, s_fu)) by {
            assert(bs[3] == db && bs[4] == fu);
        }
        assert(!has_text(block_body(en, fields, d), block_parts(en, fields, d).2)
            && !has_text(block_body(df, fields, d), block_parts(df, fields, d).2)
            && !has_text(block_body(fb, fields, d), block_parts(fb, fields, d).2)
            && !has_text(block_body(db, fields, d), block_parts(db, fields, d).2)
            && !has_text(block_body(fu, fields, d), block_parts(fu, fields, d).2)) by {
            assert(bs[0] == en && bs[1] == df && bs[2] == fb && bs[3] == db && bs[4] == fu);
            assert(block_parts(bs[0], fields, d).2 == block_parts(en, fields, d).2);
            assert(block_parts(bs[1], fields, d).2 == block_parts(df, fields, d).2);
            assert(block_parts(bs[2], fields, d).2 == block_parts(fb, fields, d).2);
            assert(block_parts(bs[3], fields, d).2 == block_parts(db, fields, d).2);
            assert(block_parts(bs[4], fields, d).2 == block_parts(fu, fields, d).2);
        }
        let ch = class_head(d);
        let co = container_head(name);
        assert forall|m: Seq<char>|
            m.len() >= 3 && m[0] == '/' && m[1] == '/' && m[2] == '-' implies !has_text(h, m)
            && !has_text(ch, m) && !has_text(co, m) by {
            lemma_safe_lacks_prefix(h, m);
            lemma_safe_lacks_prefix(ch, m);
            lemma_safe_lacks_prefix(co, m);
        }
        // before the enum block
        lemma_lacks_across_break(h, e, s_en);
        assert(before_enums() =~= h + nl + e);
        // before the definition fields block
        let x1 = h + nl + t_en;
        lemma_lacks_across_break(h, t_en, s_df);
        lemma_lacks_across_break(x1, ch, s_df);
        lemma_lacks_across_break(x1 + nl + ch, e, s_df);
        assert(before_def_fields(d) =~= x1 + nl + ch + nl + e);
        // before the global fields block
        lemma_lacks_across_break(h, t_en, s_fb);
        lemma_lacks_across_break(x1, ch, s_fb);
        lemma_lacks_across_break(x1 + nl + ch, t_df, s_fb);
        let x2 = x1 + nl + ch + nl + t_df;
        lemma_lacks_across_break(x2, co, s_fb);
        lemma_lacks_across_break(x2 + nl + co, e, s_fb);
        assert(before_fields(name, d) =~= x2 + nl + co + nl + e);
        // before the definitions block
        lemma_lacks_across_break(h, t_en, s_db);
        lemma_lacks_across_break(x1, ch, s_db);
        lemma_lacks_across_break(x1 + nl + ch, t_df, s_db);
        lemma_lacks_across_break(x2, co, s_db);
        lemma_lacks_across_break(x2 + nl + co, t_fb, s_db);
        let x3 = x2 + nl + co + nl + t_fb;
        lemma_lacks_across_break(x3, e, s_db);
        lemma_lacks_across_break(x3 + nl + e, e, s_db);
        assert(before_defs(name, fields, d) =~= x3 + nl + e + nl + e);
        // before the functions block
        lemma_lacks_across_break(h, t_en, s_fu);
        lemma_lacks_across_break(x1, ch, s_fu);
        lemma_lacks_across_break(x1 + nl + ch, t_df, s_fu);
        lemma_lacks_across_break(x2, co, s_fu);
        lemma_lacks_across_break(x2 + nl + co, t_fb, s_fu);
        lemma_lacks_across_break(x3, e, s_fu);
        lemma_lacks_across_break(x3 + nl + e, t_db, s_fu);
        let x4 = x3 + nl + e + nl + t_db;
        lemma_lacks_across_break(x4, e, s_fu);
        lemma_lacks_across_break(x4 + nl + e, e, s_fu);
        assert(before_funcs(name, fields, d) =~= x4 + nl + e + nl + e);
    }
}

/// Running again on an unchanged sheet leaves its script as it is, whether
/// the first run wrote the script fresh or updated an existing one, where no
/// block's body holds the marker prefix `//-`, the class and sheet names hold
/// no `/`, and an update ran over none of the blocks it put in.
pub proof fn lemma_rerun_keeps_clean_script(
    sheet: Seq<Seq<crate::model::CellV>>,
    sheet_name: Seq<char>,
    existing: Option<Seq<char>>,
)
    requires
        script_text(sheet, sheet_name, existing) is Ok,
        bodies_clean(sheet_model(sheet)->Ok_0.0, sheet_model(sheet)->Ok_0.1),
        no_slash(strip_white(sheet_name)),
        no_slash(sheet_model(sheet)->Ok_0.1.name),
        existing is Some ==> blocks_survive(
            existing->Some_0,
            sheet_model(sheet)->Ok_0.0,
            sheet_model(sheet)->Ok_0.1,
        ),
    ensures
        script_text(sheet, sheet_name, Some(script_text(sheet, sheet_name, existing)->Ok_0))
            == script_text(sheet, sheet_name, existing),
{
    let m = sheet_model(sheet)->Ok_0;
    match existing {
        None => {
            lemma_clean_fresh_markers_in_place(strip_white(sheet_name), m.0, m.1);
            lemma_rerun_keeps_script(sheet, sheet_name);
        },
        Some(old) => {
            lemma_clean_bodies_apart(m.0, m.1);
            lemma_rerun_keeps_updated_script(sheet, sheet_name, old);
        },
    }
}

} // verus!
