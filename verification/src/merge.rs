//! Bringing an existing script up to date: each marked block is found by its
//! opening and closing marker lines and replaced by the block generated anew,
//! the rest of the script is kept as it is.

use vstd::prelude::*;
use crate::blocks::{
    DEF_BLOCK, DEF_FIELDS_BLOCK, ENUM_BLOCK, FIELD_BLOCK, FUNC_BLOCK, def_fields_block, defs_block,
    end_block, end_marker, enums_block, funcs_block, get_def_fields_block, get_defs_block,
    get_enums_block, get_funcs_block, get_global_fields_block, global_fields_block, start_block,
    start_marker,
};
use crate::model::{DefType, DefTypeV};
use crate::text::{
    has_text, join, join_strings, lemma_has_text_in_join, lemma_join_pieces, lemma_pieces_concat,
    lemma_pieces_single, owned, pieces, split_on, text_contains, views,
};

verus! {

/// The blocks that a script update replaces.
#[allow(non_camel_case_types)]
#[derive(Clone, Copy, Debug, PartialEq, Eq, Structural)]
pub enum BLOCK_SWAP {
    ENUM_BLOCK,
    DEF_FIELDS_BLOCK,
    FIELD_BLOCK,
    DEF_BLOCK,
    FUNC_BLOCK,
}

/// Why a script cannot be updated.
#[derive(Clone, Copy, Debug, PartialEq, Eq, Structural)]
pub enum BlockError {
    /// No line holds the block's opening marker.
    StartNotFound(BLOCK_SWAP),
    /// No line after the opening marker holds the block's closing marker.
    EndNotFound(BLOCK_SWAP),
}

/// The blocks to replace, in order: only the global fields when the sheet
/// has no definitions, else all five.
pub open spec fn blocks_to_swap(d: DefTypeV) -> Seq<BLOCK_SWAP> {
    if d.data_2.len() == 0 {
        seq![BLOCK_SWAP::FIELD_BLOCK]
    } else {
        seq![
            BLOCK_SWAP::ENUM_BLOCK,
            BLOCK_SWAP::DEF_FIELDS_BLOCK,
            BLOCK_SWAP::FIELD_BLOCK,
            BLOCK_SWAP::DEF_BLOCK,
            BLOCK_SWAP::FUNC_BLOCK,
        ]
    }
}

/// A block's opening marker, its new text, and its closing marker.
pub open spec fn block_parts(b: BLOCK_SWAP, fields: Seq<Seq<char>>, d: DefTypeV) -> (
    Seq<char>,
    Seq<char>,
    Seq<char>,
) {
    match b {
        BLOCK_SWAP::ENUM_BLOCK => (
            start_marker(ENUM_BLOCK@),
            enums_block(d),
            end_marker(ENUM_BLOCK@),
        ),
        BLOCK_SWAP::DEF_FIELDS_BLOCK => (
            start_marker(DEF_FIELDS_BLOCK@),
            def_fields_block(d),
            end_marker(DEF_FIELDS_BLOCK@),
        ),
        BLOCK_SWAP::FIELD_BLOCK => (
            start_marker(FIELD_BLOCK@),
            global_fields_block(fields),
            end_marker(FIELD_BLOCK@),
        ),
        BLOCK_SWAP::DEF_BLOCK => (start_marker(DEF_BLOCK@), defs_block(d), end_marker(DEF_BLOCK@)),
        BLOCK_SWAP::FUNC_BLOCK => (
            start_marker(FUNC_BLOCK@),
            funcs_block(d),
            end_marker(FUNC_BLOCK@),
        ),
    }
}

/// `i` is the first line at or after `from` that holds `needle`.
pub open spec fn first_line_at(lines: Seq<Seq<char>>, from: int, needle: Seq<char>, i: int) -> bool {
    from <= i < lines.len() && has_text(lines[i], needle) && forall|j: int|
        from <= j < i ==> !has_text(lines[j], needle)
}

/// The first line at or after `from` that holds `needle`, if any.
pub open spec fn first_line_with(lines: Seq<Seq<char>>, from: int, needle: Seq<char>) -> Option<
    int,
> {
    if exists|i: int| first_line_at(lines, from, needle, i) {
        Some(choose|i: int| first_line_at(lines, from, needle, i))
    } else {
        None
    }
}

/// The lines after replacing the lines from the first that holds `start`
/// through the next that holds `end` with the single line `inner`.
#[verifier::opaque]
pub open spec fn swap_lines(
    lines: Seq<Seq<char>>,
    b: BLOCK_SWAP,
    start: Seq<char>,
    inner: Seq<char>,
    end: Seq<char>,
) -> Result<Seq<Seq<char>>, BlockError> {
    match first_line_with(lines, 0, start) {
        None => Err(BlockError::StartNotFound(b)),
        Some(s) => match first_line_with(lines, s + 1, end) {
            None => Err(BlockError::EndNotFound(b)),
            Some(e) => Ok(lines.take(s).push(inner) + lines.skip(e + 1)),
        },
    }
}

/// The lines after replacing the first `n` blocks of `blocks`, in order.
pub open spec fn swap_all(
    lines: Seq<Seq<char>>,
    blocks: Seq<BLOCK_SWAP>,
    fields: Seq<Seq<char>>,
    d: DefTypeV,
    n: int,
) -> Result<Seq<Seq<char>>, BlockError>
    decreases n,
{
    if n <= 0 {
        Ok(lines)
    } else {
        match swap_all(lines, blocks, fields, d, n - 1) {
            Err(e) => Err(e),
            Ok(l) => {
                let p = block_parts(blocks[n - 1], fields, d);
                swap_lines(l, blocks[n - 1], p.0, p.1, p.2)
            },
        }
    }
}

/// The updated text of an existing script: its lines with every block
/// replaced, joined again with line breaks.
pub open spec fn merged_text(contents: Seq<char>, fields: Seq<Seq<char>>, d: DefTypeV) -> Result<
    Seq<char>,
    BlockError,
> {
    let blocks = blocks_to_swap(d);
    match swap_all(pieces(contents, '\n'), blocks, fields, d, blocks.len() as int) {
        Err(e) => Err(e),
        Ok(l) => Ok(join(l, "\n"@)),
    }
}

/// The line the `k`-th update found its block's opening marker on, in the
/// lines as the earlier updates left them.
pub open spec fn swap_start(
    lines: Seq<Seq<char>>,
    blocks: Seq<BLOCK_SWAP>,
    fields: Seq<Seq<char>>,
    d: DefTypeV,
    k: int,
) -> int {
    let l = swap_all(lines, blocks, fields, d, k)->Ok_0;
    first_line_with(l, 0, block_parts(blocks[k], fields, d).0)->Some_0
}

/// The line the `k`-th update found its block's closing marker on.
pub open spec fn swap_end(
    lines: Seq<Seq<char>>,
    blocks: Seq<BLOCK_SWAP>,
    fields: Seq<Seq<char>>,
    d: DefTypeV,
    k: int,
) -> int {
    let l = swap_all(lines, blocks, fields, d, k)->Ok_0;
    first_line_with(
        l,
        swap_start(lines, blocks, fields, d, k) + 1,
        block_parts(blocks[k], fields, d).2,
    )->Some_0
}

/// For each line after the first `n` updates, the index of the line of
/// `lines` it is, or `-(k + 1)` for the block that the `k`-th update put in.
pub open spec fn swap_origin(
    lines: Seq<Seq<char>>,
    blocks: Seq<BLOCK_SWAP>,
    fields: Seq<Seq<char>>,
    d: DefTypeV,
    n: int,
) -> Seq<int>
    decreases n,
{
    if n <= 0 {
        Seq::new(lines.len(), |i: int| i)
    } else {
        let prev = swap_origin(lines, blocks, fields, d, n - 1);
        let s = swap_start(lines, blocks, fields, d, n - 1);
        let e = swap_end(lines, blocks, fields, d, n - 1);
        prev.take(s).push(-n) + prev.skip(e + 1)
    }
}

/// After the first `n` updates, every line is either a line of `lines`,
/// unchanged, or the new text of one of the updated blocks, and none is there
/// twice; the lines of `lines` that are left keep their order; and each line
/// of `lines` that is gone lay, when the update of some block ran, between
/// that block's opening and closing marker lines.
pub proof fn lemma_swaps_keep_other_lines(
    lines: Seq<Seq<char>>,
    blocks: Seq<BLOCK_SWAP>,
    fields: Seq<Seq<char>>,
    d: DefTypeV,
    n: int,
)
    requires
        0 <= n <= blocks.len(),
        swap_all(lines, blocks, fields, d, n) is Ok,
    ensures
        ({
            let out = swap_all(lines, blocks, fields, d, n)->Ok_0;
            let o = swap_origin(lines, blocks, fields, d, n);
            &&& o.len() == out.len()
            &&& forall|i: int|
                0 <= i < o.len() && 0 <= #[trigger] o[i] ==> o[i] < lines.len() && out[i]
                    == lines[o[i]]
            &&& forall|i: int, j: int|
                0 <= i < j < o.len() && 0 <= #[trigger] o[i] && 0 <= #[trigger] o[j] ==> o[i]
                    < o[j]
            &&& forall|i: int|
                0 <= i < o.len() && #[trigger] o[i] < 0 ==> -n <= o[i] && out[i] == block_parts(
                    blocks[-o[i] - 1],
                    fields,
                    d,
                ).1
            &&& forall|i: int, j: int|
                0 <= i < o.len() && 0 <= j < o.len() && i != j ==> #[trigger] o[i] != #[trigger] o[j]
            &&& forall|t: int|
                0 <= t < lines.len() && !o.contains(t) ==> exists|k: int, p: int|
                    0 <= k < n && swap_start(lines, blocks, fields, d, k) <= p <= swap_end(
                        lines,
                        blocks,
                        fields,
                        d,
                        k,
                    ) && #[trigger] swap_origin(lines, blocks, fields, d, k)[p] == t
        }),
    decreases n,
{
    let out = swap_all(lines, blocks, fields, d, n)->Ok_0;
    let o = swap_origin(lines, blocks, fields, d, n);
    if n == 0 {
        assert forall|t: int| 0 <= t < lines.len() && !o.contains(t) implies false by {
            assert(o[t] == t);
        }
    } else {
        if swap_all(lines, blocks, fields, d, n - 1) is Err {
            lemma_swap_all_err(lines, blocks, fields, d, n - 1, n);
        }
        lemma_swaps_keep_other_lines(lines, blocks, fields, d, n - 1);
        let l = swap_all(lines, blocks, fields, d, n - 1)->Ok_0;
        let prev = swap_origin(lines, blocks, fields, d, n - 1);
        let b = blocks[n - 1];
        let parts = block_parts(b, fields, d);
        lemma_swap_keeps_the_rest(l, b, parts.0, parts.1, parts.2);
        let s = swap_start(lines, blocks, fields, d, n - 1);
        let e = swap_end(lines, blocks, fields, d, n - 1);
        assert(out == swap_lines(l, b, parts.0, parts.1, parts.2)->Ok_0);
        assert(o == prev.take(s).push(-n) + prev.skip(e + 1));
        assert(o.len() == out.len());
        assert forall|i: int| 0 <= i < o.len() implies (i < s ==> o[i] == prev[i] && out[i]
            == l[i]) && (i == s ==> o[i] == -n && out[i] == parts.1) && (i > s ==> o[i] == prev[i
            + (e - s)] && out[i] == l[i + (e - s)]) by {
            if i > s {
                assert(out[(i + (e - s)) - (e - s)] == l[i + (e - s)]);
            }
        }
        assert forall|i: int| 0 <= i < o.len() && 0 <= #[trigger] o[i] implies o[i] < lines.len()
            && out[i] == lines[o[i]] by {
            if i < s {
                assert(prev[i] == o[i]);
            } else if i > s {
                assert(prev[i + (e - s)] == o[i]);
            }
        }
        assert forall|i: int, j: int|
            0 <= i < j < o.len() && 0 <= #[trigger] o[i] && 0 <= #[trigger] o[j] implies o[i]
            < o[j] by {
            let pi = if i < s {
                i
            } else {
                i + (e - s)
            };
            let pj = if j < s {
                j
            } else {
                j + (e - s)
            };
            assert(prev[pi] == o[i]);
            assert(prev[pj] == o[j]);
        }
        assert forall|i: int| 0 <= i < o.len() && #[trigger] o[i] < 0 implies -n <= o[i] && out[i]
            == block_parts(blocks[-o[i] - 1], fields, d).1 by {
            if i != s {
                let pi = if i < s {
                    i
                } else {
                    i + (e - s)
                };
                assert(prev[pi] == o[i]);
                assert(out[i] == l[pi]);
            }
        }
        assert forall|i: int, j: int|
            0 <= i < o.len() && 0 <= j < o.len() && i != j implies #[trigger] o[i] != #[trigger] o[j] by {
            let pi = if i < s {
                i
            } else {
                i + (e - s)
            };
            let pj = if j < s {
                j
            } else {
                j + (e - s)
            };
            if i != s {
                assert(prev[pi] == o[i]);
                assert(o[i] >= -(n - 1));
            }
            if j != s {
                assert(prev[pj] == o[j]);
                assert(o[j] >= -(n - 1));
            }
        }
        assert forall|t: int| 0 <= t < lines.len() && !o.contains(t) implies exists|k: int, p: int|
            0 <= k < n && swap_start(lines, blocks, fields, d, k) <= p <= swap_end(
                lines,
                blocks,
                fields,
                d,
                k,
            ) && #[trigger] swap_origin(lines, blocks, fields, d, k)[p] == t by {
            if prev.contains(t) {
                let p = choose|p: int| 0 <= p < prev.len() && prev[p] == t;
                if p < s {
                    assert(o[p] == t);
                } else if p > e {
                    assert(o[p - (e - s)] == t);
                } else {
                    assert(swap_origin(lines, blocks, fields, d, n - 1)[p] == t);
                }
            } else {
                let (k, p) = choose|k: int, p: int|
                    0 <= k < n - 1 && swap_start(lines, blocks, fields, d, k) <= p <= swap_end(
                        lines,
                        blocks,
                        fields,
                        d,
                        k,
                    ) && #[trigger] swap_origin(lines, blocks, fields, d, k)[p] == t;
                assert(swap_origin(lines, blocks, fields, d, k)[p] == t);
            }
        }
    }
}

/// Two lines that one update leaves in place were there before it, in the
/// same order.
proof fn lemma_origin_order_step(
    lines: Seq<Seq<char>>,
    blocks: Seq<BLOCK_SWAP>,
    fields: Seq<Seq<char>>,
    d: DefTypeV,
    m: int,
    i: int,
    j: int,
)
    requires
        0 <= m < blocks.len(),
        swap_all(lines, blocks, fields, d, m + 1) is Ok,
        0 <= i < j < swap_origin(lines, blocks, fields, d, m + 1).len(),
        swap_origin(lines, blocks, fields, d, m + 1)[i] != -(m + 1),
        swap_origin(lines, blocks, fields, d, m + 1)[j] != -(m + 1),
    ensures
        exists|i2: int, j2: int|
            0 <= i2 < j2 < swap_origin(lines, blocks, fields, d, m).len()
                && #[trigger] swap_origin(lines, blocks, fields, d, m)[i2] == swap_origin(
                lines,
                blocks,
                fields,
                d,
                m + 1,
            )[i] && #[trigger] swap_origin(lines, blocks, fields, d, m)[j2] == swap_origin(
                lines,
                blocks,
                fields,
                d,
                m + 1,
            )[j],
{
    if swap_all(lines, blocks, fields, d, m) is Err {
        lemma_swap_all_err(lines, blocks, fields, d, m, m + 1);
    }
    lemma_swaps_keep_other_lines(lines, blocks, fields, d, m);
    let l = swap_all(lines, blocks, fields, d, m)->Ok_0;
    let prev = swap_origin(lines, blocks, fields, d, m);
    let o = swap_origin(lines, blocks, fields, d, m + 1);
    let parts = block_parts(blocks[m], fields, d);
    lemma_swap_keeps_the_rest(l, blocks[m], parts.0, parts.1, parts.2);
    let s = swap_start(lines, blocks, fields, d, m);
    let e = swap_end(lines, blocks, fields, d, m);
    assert(o == prev.take(s).push(-(m + 1)) + prev.skip(e + 1));
    let i2 = if i < s {
        i
    } else {
        i + (e - s)
    };
    let j2 = if j < s {
        j
    } else {
        j + (e - s)
    };
    assert(prev[i2] == o[i]);
    assert(prev[j2] == o[j]);
}

/// A line of `lines` that stands before the block of the `k`-th update once
/// `n` updates have run stood, when that update ran, before the line it found
/// the block's opening marker on.
pub proof fn lemma_line_before_block(
    lines: Seq<Seq<char>>,
    blocks: Seq<BLOCK_SWAP>,
    fields: Seq<Seq<char>>,
    d: DefTypeV,
    k: int,
    n: int,
    i: int,
    pos: int,
)
    requires
        0 <= k < n <= blocks.len(),
        swap_all(lines, blocks, fields, d, n) is Ok,
        0 <= i < pos < swap_origin(lines, blocks, fields, d, n).len(),
        swap_origin(lines, blocks, fields, d, n)[i] >= 0,
        swap_origin(lines, blocks, fields, d, n)[pos] == -(k + 1),
    ensures
        exists|i2: int|
            0 <= i2 < swap_start(lines, blocks, fields, d, k) && #[trigger] swap_origin(
                lines,
                blocks,
                fields,
                d,
                k,
            )[i2] == swap_origin(lines, blocks, fields, d, n)[i],
    decreases n - k,
{
    if swap_all(lines, blocks, fields, d, n - 1) is Err {
        lemma_swap_all_err(lines, blocks, fields, d, n - 1, n);
    }
    let o = swap_origin(lines, blocks, fields, d, n);
    if n == k + 1 {
        lemma_swaps_keep_other_lines(lines, blocks, fields, d, k);
        let l = swap_all(lines, blocks, fields, d, k)->Ok_0;
        let prev = swap_origin(lines, blocks, fields, d, k);
        let parts = block_parts(blocks[k], fields, d);
        lemma_swap_keeps_the_rest(l, blocks[k], parts.0, parts.1, parts.2);
        let s = swap_start(lines, blocks, fields, d, k);
        let e = swap_end(lines, blocks, fields, d, k);
        assert(o == prev.take(s).push(-(k + 1)) + prev.skip(e + 1));
        if pos < s {
            assert(prev[pos] == o[pos]);
        } else if pos > s {
            assert(prev[pos + (e - s)] == o[pos]);
        }
        assert(pos == s);
        assert(prev[i] == o[i]);
    } else {
        lemma_origin_order_step(lines, blocks, fields, d, n - 1, i, pos);
        let (i2, j2) = choose|i2: int, j2: int|
            0 <= i2 < j2 < swap_origin(lines, blocks, fields, d, n - 1).len()
                && #[trigger] swap_origin(lines, blocks, fields, d, n - 1)[i2] == o[i]
                && #[trigger] swap_origin(lines, blocks, fields, d, n - 1)[j2] == o[pos];
        lemma_line_before_block(lines, blocks, fields, d, k, n - 1, i2, j2);
    }
}

/// Swapping a block keeps every line before it and every line after it, and
/// puts the new text where the block was.
pub proof fn lemma_swap_keeps_the_rest(
    lines: Seq<Seq<char>>,
    b: BLOCK_SWAP,
    start: Seq<char>,
    inner: Seq<char>,
    end: Seq<char>,
)
    requires
        swap_lines(lines, b, start, inner, end) is Ok,
    ensures
        ({
            let s = first_line_with(lines, 0, start)->Some_0;
            let e = first_line_with(lines, s + 1, end)->Some_0;
            let out = swap_lines(lines, b, start, inner, end)->Ok_0;
            &&& 0 <= s < e < lines.len()
            &&& out.len() == lines.len() - (e - s)
            &&& forall|i: int| 0 <= i < s ==> out[i] == lines[i]
            &&& out[s] == inner
            &&& forall|i: int| e < i < lines.len() ==> out[i - (e - s)] == lines[i]
        }),
{
    reveal(swap_lines);
    let s = choose|i: int| first_line_at(lines, 0, start, i);
    let s1 = s + 1;
    let e = choose|i: int| first_line_at(lines, s1, end, i);
    let out = lines.take(s).push(inner) + lines.skip(e + 1);
    assert forall|i: int| e < i < lines.len() implies out[i - (e - s)] == lines[i] by {
        assert(out[i - (e - s)] == lines.skip(e + 1)[i - (e - s) - (s + 1)]);
    }
}

/// Joining two non-empty runs of pieces is joining each and putting the
/// separator between.
pub proof fn lemma_join_append(a: Seq<Seq<char>>, b: Seq<Seq<char>>, sep: Seq<char>)
    requires
        a.len() > 0,
        b.len() > 0,
    ensures
        join(a + b, sep) == join(a, sep) + sep + join(b, sep),
    decreases b.len(),
{
    if b.len() == 1 {
        assert((a + b).drop_last() =~= a);
        assert((a + b).last() == b[0]);
    } else {
        lemma_join_append(a, b.drop_last(), sep);
        assert((a + b).drop_last() =~= a + b.drop_last());
        assert((a + b).last() == b.last());
        assert(join(a, sep) + sep + join(b.drop_last(), sep) + sep + b.last() =~= join(a, sep)
            + sep + (join(b.drop_last(), sep) + sep + b.last()));
    }
}

/// A block whose lines already hold what would be written is left as it is:
/// the script text comes out unchanged.
pub proof fn lemma_up_to_date_block_kept(
    lines: Seq<Seq<char>>,
    b: BLOCK_SWAP,
    start: Seq<char>,
    inner: Seq<char>,
    end: Seq<char>,
)
    requires
        swap_lines(lines, b, start, inner, end) is Ok,
        ({
            let s = first_line_with(lines, 0, start)->Some_0;
            let e = first_line_with(lines, s + 1, end)->Some_0;
            join(lines.subrange(s, e + 1), "\n"@) == inner
        }),
    ensures
        join(swap_lines(lines, b, start, inner, end)->Ok_0, "\n"@) == join(lines, "\n"@),
{
    reveal(swap_lines);
    let sep = "\n"@;
    lemma_swap_keeps_the_rest(lines, b, start, inner, end);
    let s = first_line_with(lines, 0, start)->Some_0;
    let e = first_line_with(lines, s + 1, end)->Some_0;
    let p = lines.take(s);
    let m = lines.subrange(s, e + 1);
    let q = lines.skip(e + 1);
    let one = seq![inner];
    let out = swap_lines(lines, b, start, inner, end)->Ok_0;
    assert(out =~= p + one + q);
    assert(lines =~= p + m + q);
    assert(join(one, sep) == inner);
    if p.len() > 0 && q.len() > 0 {
        lemma_join_append(p + one, q, sep);
        lemma_join_append(p, one, sep);
        lemma_join_append(p + m, q, sep);
        lemma_join_append(p, m, sep);
    } else if p.len() > 0 {
        assert(out =~= p + one);
        assert(lines =~= p + m);
        lemma_join_append(p, one, sep);
        lemma_join_append(p, m, sep);
    } else if q.len() > 0 {
        assert(out =~= one + q);
        assert(lines =~= m + q);
        lemma_join_append(one, q, sep);
        lemma_join_append(m, q, sep);
    } else {
        assert(out =~= one);
        assert(lines =~= m);
    }
}

/// A first line found is the one `first_line_with` gives.
proof fn lemma_first_line_unique(lines: Seq<Seq<char>>, from: int, needle: Seq<char>, i: int)
    requires
        first_line_at(lines, from, needle, i),
    ensures
        first_line_with(lines, from, needle) == Some(i),
{
    let w = choose|k: int| first_line_at(lines, from, needle, k);
    assert(first_line_at(lines, from, needle, w));
    if w < i {
    } else if w > i {
    }
}

/// A block whose text is `first`, a line break, `mid`, a line break and
/// `last`: where its opening marker occurs on no earlier line and its closing
/// marker nowhere in `mid`, the update finds exactly its lines, and writing the
/// same text back changes nothing.
pub proof fn lemma_swap_in_place(
    pre: Seq<Seq<char>>,
    first: Seq<char>,
    mid: Seq<char>,
    last: Seq<char>,
    post: Seq<Seq<char>>,
    b: BLOCK_SWAP,
    start: Seq<char>,
    end: Seq<char>,
)
    requires
        forall|i: int| 0 <= i < pre.len() ==> !has_text(#[trigger] pre[i], start),
        forall|i: int| 0 <= i < first.len() ==> first[i] != '\n',
        forall|i: int| 0 <= i < last.len() ==> last[i] != '\n',
        has_text(first, start),
        has_text(last, end),
        !has_text(mid, end),
    ensures
        ({
            let blk = first + seq!['\n'] + mid + seq!['\n'] + last;
            let lines = pre + pieces(blk, '\n') + post;
            &&& swap_lines(lines, b, start, blk, end) == Ok::<Seq<Seq<char>>, BlockError>(
                pre + seq![blk] + post,
            )
            &&& join(pre + seq![blk] + post, "\n"@) == join(lines, "\n"@)
        }),
{
    reveal(swap_lines);
    reveal_strlit("\n");
    assert("\n"@ =~= seq!['\n']);
    let blk = first + seq!['\n'] + mid + seq!['\n'] + last;
    let ml = mid + seq!['\n'] + last;
    assert(blk =~= first + seq!['\n'] + ml);
    lemma_pieces_concat(first, ml, '\n');
    lemma_pieces_concat(mid, last, '\n');
    lemma_pieces_single(first, '\n');
    lemma_pieces_single(last, '\n');
    let pm = pieces(mid, '\n');
    assert(pieces(blk, '\n') =~= seq![first] + pm + seq![last]);
    let lines = pre + pieces(blk, '\n') + post;
    let p = pre.len() as int;
    let q = p + 1 + pm.len();
    assert forall|j: int| 0 <= j < pm.len() implies !has_text(#[trigger] pm[j], end) by {
        lemma_join_pieces(mid, '\n');
        if has_text(pm[j], end) {
            lemma_has_text_in_join(pm, seq!['\n'], j, end);
        }
    }
    assert(lines[p] == first);
    assert(lines[q] == last);
    assert forall|j: int| 0 <= j < p implies !has_text(lines[j], start) by {
        assert(lines[j] == pre[j]);
    }
    assert(first_line_at(lines, 0, start, p));
    lemma_first_line_unique(lines, 0, start, p);
    assert forall|j: int| p + 1 <= j < q implies !has_text(lines[j], end) by {
        assert(lines[j] == pm[j - p - 1]);
    }
    assert(first_line_at(lines, p + 1, end, q));
    lemma_first_line_unique(lines, p + 1, end, q);
    assert(lines.take(p).push(blk) + lines.skip(q + 1) =~= pre + seq![blk] + post);
    assert(lines.subrange(p, q + 1) =~= pieces(blk, '\n'));
    lemma_join_pieces(blk, '\n');
    lemma_up_to_date_block_kept(lines, b, start, blk, end);
}

/// The first line at or after `from` that holds `needle`.
fn find_line(lines: &Vec<String>, from: usize, needle: &String) -> (r: Option<usize>)
    ensures
        match r {
            Some(i) => first_line_with(views(lines@), from as int, needle@) == Some(i as int)
                && i < lines@.len(),
            None => first_line_with(views(lines@), from as int, needle@) is None,
        },
{
    let ghost lv = views(lines@);
    let mut i: usize = from;
    while i < lines.len()
        invariant
            from <= i,
            lv == views(lines@),
            lv.len() == lines@.len(),
            forall|j: int| from <= j < i ==> !has_text(#[trigger] lv[j], needle@),
        decreases lines.len() - i,
    {
        assert(lv[i as int] == lines@[i as int]@);
        if text_contains(lines[i].as_str(), needle.as_str()) {
            proof {
                assert(first_line_at(lv, from as int, needle@, i as int));
                let w = choose|k: int| first_line_at(lv, from as int, needle@, k);
                if w < i {
                } else if w > i {
                }
            }
            return Some(i);
        }
        i += 1;
    }
    None
}

/// Replaces the lines from the first holding `start` through the next holding
/// `end` with the single line `inner`.
fn swap_block(lines: &Vec<String>, b: BLOCK_SWAP, start: &String, inner: &String, end: &String) -> (r:
    Result<Vec<String>, BlockError>)
    ensures
        match swap_lines(views(lines@), b, start@, inner@, end@) {
            Ok(l) => r is Ok && views(r->Ok_0@) == l,
            Err(e) => r is Err && r->Err_0 == e,
        },
{
    proof {
        reveal(swap_lines);
    }
    let ll = lines.len();
    let s = match find_line(lines, 0, start) {
        Some(s) => s,
        None => {
            return Err(BlockError::StartNotFound(b));
        },
    };
    let e = match find_line(lines, s + 1, end) {
        Some(e) => e,
        None => {
            return Err(BlockError::EndNotFound(b));
        },
    };
    let ghost lv = views(lines@);
    let mut out: Vec<String> = Vec::new();
    let mut i: usize = 0;
    while i < s
        invariant
            i <= s < lines@.len(),
            lv == views(lines@),
            views(out@) == lv.take(i as int),
        decreases s - i,
    {
        assert(lv[i as int] == lines@[i as int]@);
        let ghost prev = views(out@);
        out.push(owned(lines[i].as_str()));
        assert(views(out@) =~= prev.push(lv[i as int]));
        assert(views(out@) =~= lv.take(i + 1));
        i += 1;
    }
    out.push(owned(inner.as_str()));
    let mut k: usize = e + 1;
    assert(views(out@) =~= lv.take(s as int).push(inner@) + lv.skip(e + 1).take(0));
    while k < lines.len()
        invariant
            e + 1 <= k <= lines@.len(),
            lv == views(lines@),
            views(out@) == lv.take(s as int).push(inner@) + lv.skip(e + 1).take(k - (e + 1)),
        decreases lines.len() - k,
    {
        assert(lv[k as int] == lines@[k as int]@);
        let ghost prev = views(out@);
        out.push(owned(lines[k].as_str()));
        assert(views(out@) =~= prev.push(lv[k as int]));
        assert(views(out@) =~= lv.take(s as int).push(inner@) + lv.skip(e + 1).take(
            k + 1 - (e + 1),
        ));
        k += 1;
    }
    assert(lv.skip(e + 1).take(lines@.len() - (e + 1)) =~= lv.skip(e + 1));
    Ok(out)
}

/// A block's opening marker, its new text, and its closing marker.
fn get_block_parts(b: BLOCK_SWAP, fields: &Vec<String>, def_type: &DefType) -> (r: (
    String,
    String,
    String,
))
    ensures
        (r.0@, r.1@, r.2@) == block_parts(b, views(fields@), def_type@),
{
    match b {
        BLOCK_SWAP::ENUM_BLOCK => (
            start_block(ENUM_BLOCK),
            get_enums_block(def_type),
            end_block(ENUM_BLOCK),
        ),
        BLOCK_SWAP::DEF_FIELDS_BLOCK => (
            start_block(DEF_FIELDS_BLOCK),
            get_def_fields_block(def_type),
            end_block(DEF_FIELDS_BLOCK),
        ),
        BLOCK_SWAP::FIELD_BLOCK => (
            start_block(FIELD_BLOCK),
            get_global_fields_block(fields, def_type),
            end_block(FIELD_BLOCK),
        ),
        BLOCK_SWAP::DEF_BLOCK => (
            start_block(DEF_BLOCK),
            get_defs_block(def_type),
            end_block(DEF_BLOCK),
        ),
        BLOCK_SWAP::FUNC_BLOCK => (
            start_block(FUNC_BLOCK),
            get_funcs_block(def_type),
            end_block(FUNC_BLOCK),
        ),
    }
}

/// Once an update fails, going on fails the same way.
pub(crate) proof fn lemma_swap_all_err(
    lines: Seq<Seq<char>>,
    blocks: Seq<BLOCK_SWAP>,
    fields: Seq<Seq<char>>,
    d: DefTypeV,
    n: int,
    m: int,
)
    requires
        0 <= n <= m,
        swap_all(lines, blocks, fields, d, n) is Err,
    ensures
        swap_all(lines, blocks, fields, d, m) == swap_all(lines, blocks, fields, d, n),
    decreases m - n,
{
    if m > n {
        lemma_swap_all_err(lines, blocks, fields, d, n, m - 1);
    }
}

/// The updated text of an existing script.
pub fn merge_blocks(contents: &str, global_fields: &Vec<String>, def_type: &DefType) -> (r: Result<
    String,
    BlockError,
>)
    ensures
        match merged_text(contents@, views(global_fields@), def_type@) {
            Ok(t) => r is Ok && r->Ok_0@ == t,
            Err(e) => r is Err && r->Err_0 == e,
        },
{
    let ghost fv = views(global_fields@);
    let mut lines = split_on(contents, '\n');
    let ghost l0 = views(lines@);
    let blocks: Vec<BLOCK_SWAP> = if def_type.data_2.len() == 0 {
        vec![BLOCK_SWAP::FIELD_BLOCK]
    } else {
        vec![
            BLOCK_SWAP::ENUM_BLOCK,
            BLOCK_SWAP::DEF_FIELDS_BLOCK,
            BLOCK_SWAP::FIELD_BLOCK,
            BLOCK_SWAP::DEF_BLOCK,
            BLOCK_SWAP::FUNC_BLOCK,
        ]
    };
    assert(blocks@ =~= blocks_to_swap(def_type@));
    let mut i: usize = 0;
    while i < blocks.len()
        invariant
            i <= blocks@.len(),
            blocks@ == blocks_to_swap(def_type@),
            fv == views(global_fields@),
            l0 == pieces(contents@, '\n'),
            swap_all(l0, blocks@, fv, def_type@, i as int) == Ok::<Seq<Seq<char>>, BlockError>(
                views(lines@),
            ),
        decreases blocks.len() - i,
    {
        let b = blocks[i];
        let (start, inner, end) = get_block_parts(b, global_fields, def_type);
        match swap_block(&lines, b, &start, &inner, &end) {
            Ok(l) => {
                lines = l;
            },
            Err(e) => {
                proof {
                    lemma_swap_all_err(l0, blocks@, fv, def_type@, i + 1, blocks@.len() as int);
                }
                return Err(e);
            },
        }
        i += 1;
    }
    Ok(join_strings(&lines, "\n"))
}

} // verus!
