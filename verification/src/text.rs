//! Character-level text helpers: whitespace removal, decimal rendering,
//! joining, quoting, searching and splitting, each stated over `Seq<char>`.

use vstd::prelude::*;

verus! {

/// Appends one character; trusted wrapper around `String::push`, which std
/// documents as appending the given char to the end of the string.
#[verifier::external_body]
pub(crate) fn push_char(s: &mut String, c: char)
    ensures
        final(s)@ == old(s)@.push(c),
{
    s.push(c);
}

/// Removes the last character; trusted wrapper around `String::pop`, which std
/// documents as removing and returning the last char, or `None` when empty.
#[verifier::external_body]
pub(crate) fn pop_char(s: &mut String) -> (r: Option<char>)
    ensures
        old(s)@.len() == 0 ==> r is None && final(s)@ == old(s)@,
        old(s)@.len() > 0 ==> r == Some(old(s)@.last()) && final(s)@ == old(s)@.drop_last(),
{
    s.pop()
}

/// The characters of a string slice, in order.
pub fn to_chars(s: &str) -> (r: Vec<char>)
    ensures
        r@ == s@,
{
    let mut r: Vec<char> = Vec::new();
    for c in it: s.chars()
        invariant
            r@ == it.seq().take(it.index() as int),
            it.seq() == s@,
    {
        r.push(c);
    }
    r
}

/// A string holding `v[from..to]`.
pub fn string_of(v: &Vec<char>, from: usize, to: usize) -> (r: String)
    requires
        from <= to <= v@.len(),
    ensures
        r@ == v@.subrange(from as int, to as int),
{
    let mut r = String::new();
    let mut i = from;
    while i < to
        invariant
            from <= i <= to <= v@.len(),
            r@ == v@.subrange(from as int, i as int),
        decreases to - i,
    {
        push_char(&mut r, v[i]);
        i += 1;
        assert(r@ =~= v@.subrange(from as int, i as int));
    }
    r
}

/// A copy of a string slice as an owned `String`.
pub fn owned(s: &str) -> (r: String)
    ensures
        r@ == s@,
{
    let mut r = String::new();
    r.append(s);
    assert(r@ =~= s@);
    r
}

/// The characters that Unicode gives the White_Space property, which is what
/// `char::is_whitespace` tests and what `str::split_whitespace` splits on.
pub open spec fn is_white(c: char) -> bool {
    let u = c as u32;
    ||| 0x09 <= u <= 0x0d
    ||| u == 0x20
    ||| u == 0x85
    ||| u == 0xa0
    ||| u == 0x1680
    ||| 0x2000 <= u <= 0x200a
    ||| u == 0x2028
    ||| u == 0x2029
    ||| u == 0x202f
    ||| u == 0x205f
    ||| u == 0x3000
}

/// Whether `c` is a Unicode white-space character.
pub fn is_white_char(c: char) -> (r: bool)
    ensures
        r == is_white(c),
{
    let u = c as u32;
    (0x09 <= u && u <= 0x0d) || u == 0x20 || u == 0x85 || u == 0xa0 || u == 0x1680 || (0x2000
        <= u && u <= 0x200a) || u == 0x2028 || u == 0x2029 || u == 0x202f || u == 0x205f || u
        == 0x3000
}

/// `s` with every white-space character taken out, the rest in order.
pub open spec fn strip_white(s: Seq<char>) -> Seq<char> {
    s.filter(|c: char| !is_white(c))
}

/// One step of `strip_white`: what appending a character does.
pub proof fn lemma_strip_white_push(s: Seq<char>, c: char)
    ensures
        strip_white(s.push(c)) == if is_white(c) {
            strip_white(s)
        } else {
            strip_white(s).push(c)
        },
{
    reveal(Seq::filter);
    assert(s.push(c).drop_last() =~= s);
}

/// Whitespace removal leaves no whitespace, and doing it twice is doing it
/// once.
pub proof fn lemma_strip_white_idempotent(s: Seq<char>)
    ensures
        forall|i: int| 0 <= i < strip_white(s).len() ==> !is_white(#[trigger] strip_white(s)[i]),
        strip_white(strip_white(s)) == strip_white(s),
    decreases s.len(),
{
    reveal(Seq::filter);
    if s.len() > 0 {
        lemma_strip_white_idempotent(s.drop_last());
        lemma_strip_white_push(s.drop_last(), s.last());
        assert(s.drop_last().push(s.last()) =~= s);
        if !is_white(s.last()) {
            lemma_strip_white_push(strip_white(s.drop_last()), s.last());
        }
    } else {
        assert(strip_white(s) =~= s);
    }
}

/// A text without white space is its own stripped form.
pub proof fn lemma_strip_white_none(s: Seq<char>)
    requires
        forall|i: int| 0 <= i < s.len() ==> !is_white(#[trigger] s[i]),
    ensures
        strip_white(s) == s,
    decreases s.len(),
{
    reveal(Seq::filter);
    if s.len() > 0 {
        lemma_strip_white_none(s.drop_last());
        lemma_strip_white_push(s.drop_last(), s.last());
        assert(s.drop_last().push(s.last()) =~= s);
    } else {
        assert(strip_white(s) =~= s);
    }
}

/// Joins the pieces of `s` that whitespace separates, that is, drops all
/// whitespace.
pub fn remove_whitespace(s: &str) -> (r: String)
    ensures
        r@ == strip_white(s@),
{
    let v = to_chars(s);
    let mut r = String::new();
    let mut i: usize = 0;
    proof {
        reveal(Seq::filter);
        assert(v@.take(0) =~= Seq::<char>::empty());
    }
    while i < v.len()
        invariant
            i <= v@.len(),
            r@ == strip_white(v@.take(i as int)),
        decreases v.len() - i,
    {
        let c = v[i];
        proof {
            lemma_strip_white_push(v@.take(i as int), c);
            assert(v@.take(i as int).push(c) =~= v@.take(i + 1));
        }
        if !is_white_char(c) {
            push_char(&mut r, c);
        }
        i += 1;
    }
    assert(v@.take(v@.len() as int) =~= v@);
    r
}

/// The decimal digit for `d`, where `0 <= d < 10`.
pub open spec fn digit_char(d: int) -> char {
    if d == 0 {
        '0'
    } else if d == 1 {
        '1'
    } else if d == 2 {
        '2'
    } else if d == 3 {
        '3'
    } else if d == 4 {
        '4'
    } else if d == 5 {
        '5'
    } else if d == 6 {
        '6'
    } else if d == 7 {
        '7'
    } else if d == 8 {
        '8'
    } else {
        '9'
    }
}

/// The decimal rendering of a natural number, without leading zeros.
pub open spec fn decimal(n: nat) -> Seq<char>
    decreases n,
{
    if n < 10 {
        seq![digit_char(n as int)]
    } else {
        decimal(n / 10).push(digit_char((n % 10) as int))
    }
}

/// The decimal rendering of an integer, with a leading `-` when negative.
pub open spec fn signed_decimal(i: int) -> Seq<char> {
    if i < 0 {
        seq!['-'] + decimal((-i) as nat)
    } else {
        decimal(i as nat)
    }
}

fn digit(d: u64) -> (c: char)
    requires
        d < 10,
    ensures
        c == digit_char(d as int),
{
    if d == 0 {
        '0'
    } else if d == 1 {
        '1'
    } else if d == 2 {
        '2'
    } else if d == 3 {
        '3'
    } else if d == 4 {
        '4'
    } else if d == 5 {
        '5'
    } else if d == 6 {
        '6'
    } else if d == 7 {
        '7'
    } else if d == 8 {
        '8'
    } else {
        '9'
    }
}

/// The decimal text of `n`, as `format!("{}", n)` writes it.
pub fn u64_text(n: u64) -> (r: String)
    ensures
        r@ == decimal(n as nat),
    decreases n,
{
    if n < 10 {
        let mut r = String::new();
        push_char(&mut r, digit(n));
        assert(r@ =~= seq![digit_char(n as int)]);
        r
    } else {
        let mut r = u64_text(n / 10);
        push_char(&mut r, digit(n % 10));
        r
    }
}

/// The decimal text of `i`, as `format!("{}", i)` writes it.
pub fn i64_text(i: i64) -> (r: String)
    ensures
        r@ == signed_decimal(i as int),
{
    if i < 0 {
        let m: i128 = -(i as i128);
        let mut r = String::new();
        push_char(&mut r, '-');
        let d = u64_text(m as u64);
        r.append(d.as_str());
        assert(r@ =~= seq!['-'] + decimal((-i) as nat));
        r
    } else {
        u64_text(i as u64)
    }
}

/// The pieces joined with `sep` between each two, as `[..].join(sep)` does.
pub open spec fn join(parts: Seq<Seq<char>>, sep: Seq<char>) -> Seq<char>
    decreases parts.len(),
{
    if parts.len() == 0 {
        Seq::empty()
    } else if parts.len() == 1 {
        parts[0]
    } else {
        join(parts.drop_last(), sep) + sep + parts.last()
    }
}

/// The texts of a sequence of strings.
pub open spec fn views(v: Seq<String>) -> Seq<Seq<char>> {
    v.map_values(|s: String| s@)
}

/// `parts` joined with `sep`.
pub fn join_strings(parts: &Vec<String>, sep: &str) -> (r: String)
    ensures
        r@ == join(views(parts@), sep@),
{
    let mut r = String::new();
    let ghost pv = views(parts@);
    let mut i: usize = 0;
    while i < parts.len()
        invariant
            i <= parts@.len(),
            pv == views(parts@),
            r@ == join(pv.take(i as int), sep@),
        decreases parts.len() - i,
    {
        if i != 0 {
            r.append(sep);
        }
        r.append(parts[i].as_str());
        proof {
            assert(pv.take(i + 1).drop_last() =~= pv.take(i as int));
        }
        i += 1;
    }
    assert(pv.take(parts@.len() as int) =~= pv);
    r
}

/// The body of a C# string literal for `s`: a `"` not preceded by `\` gets a
/// `\` in front, and a line break (`\n`, or `\r\n`) becomes the two
/// characters `\n`; all else is kept.
pub open spec fn escape_body(s: Seq<char>) -> Seq<char>
    decreases s.len(),
{
    if s.len() == 0 {
        Seq::empty()
    } else {
        let c = s.last();
        let prev = if s.len() > 1 {
            s[s.len() - 2]
        } else {
            ' '
        };
        let b = escape_body(s.drop_last());
        if c == '\n' {
            (if prev == '\r' {
                b.drop_last()
            } else {
                b
            }) + seq!['\\', 'n']
        } else if c == '"' && prev != '\\' {
            b + seq!['\\', '"']
        } else {
            b.push(c)
        }
    }
}

/// A quoted C# string literal for `s`.
pub open spec fn quoted(s: Seq<char>) -> Seq<char> {
    seq!['"'] + escape_body(s) + seq!['"']
}

/// A text with no `"` and no line break comes out between quotes, unchanged.
pub proof fn lemma_quoted_plain(s: Seq<char>)
    requires
        forall|i: int| 0 <= i < s.len() ==> s[i] != '"' && s[i] != '\n',
    ensures
        quoted(s) == seq!['"'] + s + seq!['"'],
{
    lemma_escape_plain(s);
}

proof fn lemma_escape_plain(s: Seq<char>)
    requires
        forall|i: int| 0 <= i < s.len() ==> s[i] != '"' && s[i] != '\n',
    ensures
        escape_body(s) == s,
    decreases s.len(),
{
    if s.len() > 0 {
        lemma_escape_plain(s.drop_last());
        assert(s.drop_last().push(s.last()) =~= s);
    } else {
        assert(escape_body(s) =~= s);
    }
}

proof fn lemma_escape_body_nonempty(s: Seq<char>)
    requires
        s.len() > 0,
    ensures
        escape_body(s).len() > 0,
{
}

/// What holds of an escaped body at each step: it has no line break, each
/// `"` in it has a `\` just before, and it ends as `s` does when `s` ends
/// with `\` or `\r`.
proof fn lemma_escape_body_shape(s: Seq<char>)
    ensures
        s.len() > 0 ==> escape_body(s).len() > 0,
        forall|i: int| 0 <= i < escape_body(s).len() ==> #[trigger] escape_body(s)[i] != '\n',
        forall|i: int|
            0 <= i < escape_body(s).len() && #[trigger] escape_body(s)[i] == '"' ==> i > 0
                && escape_body(s)[i - 1] == '\\',
        s.len() > 0 && (s.last() == '\\' || s.last() == '\r') ==> escape_body(s).last()
            == s.last(),
    decreases s.len(),
{
    if s.len() > 0 {
        let d = s.drop_last();
        lemma_escape_body_shape(d);
        let b = escape_body(d);
        let c = s.last();
        let prev = if s.len() > 1 {
            s[s.len() - 2]
        } else {
            ' '
        };
        if s.len() > 1 {
            assert(d.last() == prev);
        }
        let r = escape_body(s);
        if c == '\n' {
            let bb = if prev == '\r' {
                b.drop_last()
            } else {
                b
            };
            assert(r == bb + seq!['\\', 'n']);
            assert forall|i: int| 0 <= i < r.len() && #[trigger] r[i] == '"' implies i > 0 && r[i
                - 1] == '\\' by {
                assert(i < bb.len());
                assert(bb[i] == b[i]);
                assert(bb[i - 1] == b[i - 1]);
            }
            assert forall|i: int| 0 <= i < r.len() implies #[trigger] r[i] != '\n' by {
                if i < bb.len() {
                    assert(bb[i] == b[i]);
                }
            }
        } else if c == '"' && prev != '\\' {
            assert(r == b + seq!['\\', '"']);
            assert forall|i: int| 0 <= i < r.len() && #[trigger] r[i] == '"' implies i > 0 && r[i
                - 1] == '\\' by {
                if i < b.len() {
                    assert(r[i - 1] == b[i - 1]);
                }
            }
            assert forall|i: int| 0 <= i < r.len() implies #[trigger] r[i] != '\n' by {
                if i < b.len() {
                    assert(r[i] == b[i]);
                }
            }
        } else {
            assert(r == b.push(c));
            assert forall|i: int| 0 <= i < r.len() && #[trigger] r[i] == '"' implies i > 0 && r[i
                - 1] == '\\' by {
                if i < b.len() {
                    assert(r[i] == b[i]);
                    assert(r[i - 1] == b[i - 1]);
                } else {
                    assert(c == '"' && prev == '\\');
                    assert(s.len() > 1);
                    assert(r[i - 1] == b.last());
                }
            }
            assert forall|i: int| 0 <= i < r.len() implies #[trigger] r[i] != '\n' by {
                if i < b.len() {
                    assert(r[i] == b[i]);
                }
            }
        }
    }
}

/// What the character at `i` of `s` becomes in a C# string literal: a `\r`
/// that a line break follows disappears, a line break becomes `\n`, a `"`
/// not preceded by `\` gets a `\` in front, and every other character, a
/// lone `\r` among them, stays as it is.
pub open spec fn escaped_char(s: Seq<char>, i: int) -> Seq<char> {
    let c = s[i];
    if c == '\r' && i + 1 < s.len() && s[i + 1] == '\n' {
        Seq::empty()
    } else if c == '\n' {
        seq!['\\', 'n']
    } else if c == '"' && (i == 0 || s[i - 1] != '\\') {
        seq!['\\', '"']
    } else {
        seq![c]
    }
}

/// What the first `n` characters of `s` become, one after the other.
pub open spec fn escaped_prefix(s: Seq<char>, n: int) -> Seq<char>
    decreases n,
{
    if n <= 0 {
        Seq::empty()
    } else {
        escaped_prefix(s, n - 1) + escaped_char(s, n - 1)
    }
}

/// The body escaped so far: what each character read becomes, and a `\r`
/// still held back when a line break follows it.
proof fn lemma_escape_body_prefix(s: Seq<char>, n: int)
    requires
        0 <= n <= s.len(),
    ensures
        escape_body(s.take(n)) == escaped_prefix(s, n) + (if 0 < n < s.len() && s[n - 1] == '\r'
            && s[n] == '\n' {
            seq!['\r']
        } else {
            Seq::<char>::empty()
        }),
    decreases n,
{
    if n == 0 {
        assert(s.take(0) =~= Seq::<char>::empty());
    } else {
        let m = n - 1;
        lemma_escape_body_prefix(s, m);
        let t = s.take(n);
        assert(t.drop_last() =~= s.take(m));
        assert(t.last() == s[m]);
        if m > 0 {
            assert(t[t.len() - 2] == s[m - 1]);
        }
        let e = escaped_prefix(s, m);
        let b = escape_body(s.take(m));
        let c = s[m];
        if c == '\n' {
            if m > 0 && s[m - 1] == '\r' {
                assert(b == e.push('\r'));
                assert(b.drop_last() =~= e);
            }
            assert(escape_body(t) =~= escaped_prefix(s, n));
        } else if c == '"' && (m == 0 || s[m - 1] != '\\') {
            assert(escape_body(t) =~= escaped_prefix(s, n));
        } else {
            assert(escape_body(t) == b.push(c));
            if c == '\r' && n < s.len() && s[n] == '\n' {
                assert(escape_body(t) =~= escaped_prefix(s, n) + seq!['\r']);
            } else {
                assert(escape_body(t) =~= escaped_prefix(s, n));
            }
        }
    }
}

proof fn lemma_escaped_prefix_grows(s: Seq<char>, n: int, m: int)
    requires
        0 <= n <= m,
    ensures
        escaped_prefix(s, m).take(escaped_prefix(s, n).len() as int) == escaped_prefix(s, n),
        escaped_prefix(s, n).len() <= escaped_prefix(s, m).len(),
    decreases m - n,
{
    if n < m {
        lemma_escaped_prefix_grows(s, n, m - 1);
        let a = escaped_prefix(s, n);
        let b = escaped_prefix(s, m - 1);
        assert((b + escaped_char(s, m - 1)).take(a.len() as int) =~= b.take(a.len() as int));
    }
}

/// A rendered C# string literal is two quotes around a body that holds no
/// line break and no `"` without a `\` just before it. The body is what each
/// character of `s` becomes, one after the other, so each `\r` that no line
/// break follows stands in the result, at the place of its character.
pub proof fn lemma_quoted_shape(s: Seq<char>)
    ensures
        quoted(s).len() >= 2,
        quoted(s)[0] == '"',
        quoted(s).last() == '"',
        forall|i: int| 0 <= i < quoted(s).len() ==> #[trigger] quoted(s)[i] != '\n',
        forall|i: int|
            0 < i < quoted(s).len() - 1 && #[trigger] quoted(s)[i] == '"' ==> quoted(s)[i - 1]
                == '\\',
        quoted(s) == seq!['"'] + escaped_prefix(s, s.len() as int) + seq!['"'],
        forall|i: int|
            0 <= i < s.len() && #[trigger] s[i] == '\r' && !(i + 1 < s.len() && s[i + 1] == '\n')
                ==> quoted(s)[1int + escaped_prefix(s, i).len()] == '\r',
{
    lemma_escape_body_shape(s);
    let b = escape_body(s);
    let q = quoted(s);
    assert forall|i: int| 0 <= i < q.len() implies #[trigger] q[i] != '\n' by {
        if 0 < i < q.len() - 1 {
            assert(q[i] == b[i - 1]);
        }
    }
    assert forall|i: int| 0 < i < q.len() - 1 && #[trigger] q[i] == '"' implies q[i - 1]
        == '\\' by {
        assert(q[i] == b[i - 1]);
        assert(q[i - 1] == b[i - 2]);
    }
    let n = s.len() as int;
    lemma_escape_body_prefix(s, n);
    assert(s.take(n) =~= s);
    assert(b =~= escaped_prefix(s, n));
    assert forall|i: int|
        0 <= i < s.len() && #[trigger] s[i] == '\r' && !(i + 1 < s.len() && s[i + 1] == '\n')
            implies q[1int + escaped_prefix(s, i).len()] == '\r' by {
        lemma_escaped_prefix_grows(s, i + 1, n);
        let a = escaped_prefix(s, i);
        assert(escaped_char(s, i) =~= seq!['\r']);
        assert(escaped_prefix(s, i + 1) == a + seq!['\r']);
        assert(b.take(a.len() + 1int) == a + seq!['\r']);
        assert(b[a.len() as int] == b.take(a.len() + 1int)[a.len() as int]);
        assert(q[1int + a.len()] == b[a.len() as int]);
    }
}

/// Renders `s` as a C# string literal.
pub fn final_string_value(s: &str) -> (r: String)
    ensures
        r@ == quoted(s@),
{
    let v = to_chars(s);
    let mut r = String::new();
    push_char(&mut r, '"');
    let mut i: usize = 0;
    assert(v@.take(0) =~= Seq::<char>::empty());
    while i < v.len()
        invariant
            i <= v@.len(),
            r@ == seq!['"'] + escape_body(v@.take(i as int)),
        decreases v.len() - i,
    {
        let c = v[i];
        let prev = if i > 0 {
            v[i - 1]
        } else {
            ' '
        };
        let ghost b = escape_body(v@.take(i as int));
        proof {
            assert(v@.take(i + 1).drop_last() =~= v@.take(i as int));
            if i > 0 {
                assert(v@.take(i + 1)[i - 1] == v@[i - 1]);
            }
        }
        if c == '"' && prev != '\\' {
            push_char(&mut r, '\\');
        }
        if c == '\n' {
            if prev == '\r' {
                proof {
                    lemma_escape_body_nonempty(v@.take(i as int));
                    assert((seq!['"'] + b).drop_last() =~= seq!['"'] + b.drop_last());
                }
                pop_char(&mut r);
            }
            push_char(&mut r, '\\');
            push_char(&mut r, 'n');
            i += 1;
            assert(r@ =~= seq!['"'] + escape_body(v@.take(i as int)));
        } else {
            push_char(&mut r, c);
            i += 1;
            assert(r@ =~= seq!['"'] + escape_body(v@.take(i as int)));
        }
    }
    push_char(&mut r, '"');
    assert(v@.take(v@.len() as int) =~= v@);
    r
}

/// Whether `n` occurs in `h` starting at index `i`.
pub open spec fn occurs_at(h: Seq<char>, n: Seq<char>, i: int) -> bool {
    0 <= i && i + n.len() <= h.len() && h.subrange(i, i + n.len()) == n
}

/// Whether `n` occurs somewhere in `h`, as `str::contains` tests.
pub open spec fn has_text(h: Seq<char>, n: Seq<char>) -> bool {
    exists|i: int| occurs_at(h, n, i)
}

/// Whether two texts are equal, character by character.
pub fn same_text(a: &str, b: &str) -> (r: bool)
    ensures
        r == (a@ == b@),
{
    let av = to_chars(a);
    let bv = to_chars(b);
    if av.len() != bv.len() {
        return false;
    }
    let mut i: usize = 0;
    while i < av.len()
        invariant
            i <= av@.len(),
            av@ == a@,
            bv@ == b@,
            av@.len() == bv@.len(),
            forall|k: int| 0 <= k < i ==> av@[k] == bv@[k],
        decreases av.len() - i,
    {
        if av[i] != bv[i] {
            assert(a@[i as int] != b@[i as int]);
            return false;
        }
        i += 1;
    }
    assert(av@ =~= bv@);
    true
}

/// Whether `n` occurs in `hv` at `i`, compared character by character.
fn matches_at(hv: &Vec<char>, nv: &Vec<char>, i: usize) -> (r: bool)
    requires
        i + nv@.len() <= hv@.len(),
    ensures
        r == occurs_at(hv@, nv@, i as int),
{
    let mut j: usize = 0;
    while j < nv.len()
        invariant
            i + nv@.len() <= hv@.len(),
            j <= nv@.len(),
            forall|k: int| 0 <= k < j ==> hv@[i + k] == nv@[k],
        decreases nv.len() - j,
    {
        let hl = hv.len();
        assert(i + j < hl);
        if hv[i + j] != nv[j] {
            assert(hv@.subrange(i as int, i + nv@.len())[j as int] != nv@[j as int]);
            return false;
        }
        j += 1;
    }
    assert(hv@.subrange(i as int, i + nv@.len()) =~= nv@);
    true
}

/// Whether `n` occurs in `h`.
pub fn text_contains(h: &str, n: &str) -> (r: bool)
    ensures
        r == has_text(h@, n@),
{
    let hv = to_chars(h);
    let nv = to_chars(n);
    if nv.len() > hv.len() {
        return false;
    }
    let last = hv.len() - nv.len();
    let mut i: usize = 0;
    while i <= last
        invariant
            last == hv@.len() - nv@.len(),
            nv@.len() <= hv@.len(),
            hv@ == h@,
            nv@ == n@,
            i <= last + 1,
            forall|k: int| 0 <= k < i ==> !occurs_at(hv@, nv@, k),
        decreases last + 1 - i,
    {
        if matches_at(&hv, &nv, i) {
            assert(occurs_at(h@, n@, i as int));
            return true;
        }
        if i == last {
            return false;
        }
        i += 1;
    }
    false
}

/// The least index of `c` in `s`, if it occurs.
pub open spec fn first_index(s: Seq<char>, c: char) -> Option<int> {
    if exists|i: int| 0 <= i < s.len() && s[i] == c {
        Some(choose|i: int| 0 <= i < s.len() && s[i] == c && forall|j: int| 0 <= j < i ==> s[j] != c)
    } else {
        None
    }
}

/// The index of the first `c` in `v`, if any.
pub fn find_char(v: &Vec<char>, c: char) -> (r: Option<usize>)
    ensures
        match r {
            Some(i) => i < v@.len() && v@[i as int] == c && first_index(v@, c) == Some(i as int),
            None => first_index(v@, c) is None,
        },
{
    let mut i: usize = 0;
    while i < v.len()
        invariant
            i <= v@.len(),
            forall|j: int| 0 <= j < i ==> v@[j] != c,
        decreases v.len() - i,
    {
        if v[i] == c {
            proof {
                let w = choose|k: int|
                    0 <= k < v@.len() && v@[k] == c && forall|j: int| 0 <= j < k ==> v@[j] != c;
                assert(0 <= i < v@.len() && v@[i as int] == c && forall|j: int|
                    0 <= j < i ==> v@[j] != c);
                if w < i {
                } else if w > i {
                }
            }
            return Some(i);
        }
        i += 1;
    }
    None
}

/// The number of bytes that UTF-8 takes for `c`.
pub open spec fn utf8_width(c: char) -> int {
    let u = c as u32;
    if u < 0x80 {
        1
    } else if u < 0x800 {
        2
    } else if u < 0x10000 {
        3
    } else {
        4
    }
}

/// What `&s[n..]` gives, with `n` a byte offset: `None` where the slice would
/// panic (`n` past the end, or inside a character).
pub open spec fn byte_skip(s: Seq<char>, n: int) -> Option<Seq<char>>
    decreases s.len(),
{
    if n == 0 {
        Some(s)
    } else if n < 0 || s.len() == 0 {
        None
    } else {
        byte_skip(s.drop_first(), n - utf8_width(s[0]))
    }
}

/// Skipping the bytes of a prefix of one-byte characters leaves the rest.
pub proof fn lemma_byte_skip_ascii(a: Seq<char>, b: Seq<char>)
    requires
        forall|i: int| 0 <= i < a.len() ==> (#[trigger] a[i] as u32) < 0x80,
    ensures
        byte_skip(a + b, a.len() as int) == Some(b),
    decreases a.len(),
{
    if a.len() == 0 {
        assert(a + b =~= b);
    } else {
        let t = a.drop_first();
        assert forall|i: int| 0 <= i < t.len() implies (#[trigger] t[i] as u32) < 0x80 by {
            assert(t[i] == a[i + 1]);
        }
        lemma_byte_skip_ascii(t, b);
        assert((a + b).drop_first() =~= t + b);
        assert((a + b)[0] == a[0]);
    }
}

fn utf8_width_of(c: char) -> (r: usize)
    ensures
        r == utf8_width(c),
{
    let u = c as u32;
    if u < 0x80 {
        1
    } else if u < 0x800 {
        2
    } else if u < 0x10000 {
        3
    } else {
        4
    }
}

/// `&s[n..]` for a byte offset `n`, or `None` where that slice panics.
pub fn skip_bytes(s: &str, n: usize) -> (r: Option<String>)
    ensures
        match r {
            Some(t) => byte_skip(s@, n as int) == Some(t@),
            None => byte_skip(s@, n as int) is None,
        },
{
    let v = to_chars(s);
    let mut i: usize = 0;
    let mut left: usize = n;
    assert(v@.skip(0) =~= v@);
    while left > 0 && i < v.len()
        invariant
            i <= v@.len(),
            v@ == s@,
            left <= n,
            byte_skip(v@, n as int) == byte_skip(v@.skip(i as int), left as int),
        decreases v.len() - i,
    {
        let w = utf8_width_of(v[i]);
        assert(v@.skip(i as int).drop_first() =~= v@.skip(i + 1));
        assert(byte_skip(v@.skip(i as int), left as int) == byte_skip(
            v@.skip(i + 1),
            left - w,
        ));
        if w > left {
            assert(byte_skip(v@.skip(i + 1), left - w) is None);
            return None;
        }
        left = left - w;
        i += 1;
    }
    if left > 0 {
        assert(v@.skip(i as int).len() == 0);
        return None;
    }
    Some(string_of(&v, i, v.len()))
}

/// The pieces of `s` between `sep` characters, as `s.split(sep)` yields them.
pub open spec fn pieces(s: Seq<char>, sep: char) -> Seq<Seq<char>>
    decreases s.len(),
{
    if s.len() == 0 {
        seq![Seq::<char>::empty()]
    } else {
        let r = pieces(s.drop_last(), sep);
        if s.last() == sep {
            r.push(Seq::<char>::empty())
        } else {
            r.update(r.len() - 1, r.last().push(s.last()))
        }
    }
}

/// The pieces of `s` between `|` characters.
pub open spec fn split_bar(s: Seq<char>) -> Seq<Seq<char>> {
    pieces(s, '|')
}

/// The pieces of `s` between `sep` characters.
pub fn split_on(s: &str, sep: char) -> (r: Vec<String>)
    ensures
        views(r@) == pieces(s@, sep),
{
    let v = to_chars(s);
    let mut done: Vec<String> = Vec::new();
    let mut cur = String::new();
    let mut i: usize = 0;
    assert(v@.take(0) =~= Seq::<char>::empty());
    assert(views(done@).push(cur@) =~= pieces(v@.take(0), sep));
    while i < v.len()
        invariant
            i <= v@.len(),
            views(done@).push(cur@) == pieces(v@.take(i as int), sep),
        decreases v.len() - i,
    {
        let c = v[i];
        proof {
            assert(v@.take(i + 1).drop_last() =~= v@.take(i as int));
        }
        if c == sep {
            let piece = cur;
            done.push(piece);
            cur = String::new();
            i += 1;
            assert(views(done@).push(cur@) =~= pieces(v@.take(i as int), sep));
        } else {
            push_char(&mut cur, c);
            i += 1;
            assert(views(done@).push(cur@) =~= pieces(v@.take(i as int), sep));
        }
    }
    done.push(cur);
    assert(v@.take(v@.len() as int) =~= v@);
    assert(views(done@) =~= pieces(v@, sep));
    done
}

/// `pieces` always yields at least one piece.
pub proof fn lemma_pieces_nonempty(s: Seq<char>, sep: char)
    ensures
        pieces(s, sep).len() >= 1,
    decreases s.len(),
{
    if s.len() > 0 {
        lemma_pieces_nonempty(s.drop_last(), sep);
    }
}

/// Splitting around a separator splits each side: the pieces of
/// `a + sep + b` are the pieces of `a` and then the pieces of `b`.
pub proof fn lemma_pieces_concat(a: Seq<char>, b: Seq<char>, sep: char)
    ensures
        pieces(a + seq![sep] + b, sep) == pieces(a, sep) + pieces(b, sep),
    decreases b.len(),
{
    let ab = a + seq![sep] + b;
    if b.len() == 0 {
        assert(ab.drop_last() =~= a);
        assert(pieces(a, sep).push(Seq::<char>::empty()) =~= pieces(a, sep) + pieces(b, sep));
    } else {
        lemma_pieces_concat(a, b.drop_last(), sep);
        lemma_pieces_nonempty(b.drop_last(), sep);
        assert(ab.drop_last() =~= a + seq![sep] + b.drop_last());
        let x = pieces(a, sep);
        let y = pieces(b.drop_last(), sep);
        if b.last() == sep {
            assert((x + y).push(Seq::<char>::empty()) =~= x + y.push(Seq::<char>::empty()));
        } else {
            let xy = x + y;
            assert(xy.update(xy.len() - 1, xy.last().push(b.last())) =~= x + y.update(
                y.len() - 1,
                y.last().push(b.last()),
            ));
        }
    }
}

/// A text without the separator is one piece.
pub proof fn lemma_pieces_single(a: Seq<char>, sep: char)
    requires
        forall|i: int| 0 <= i < a.len() ==> a[i] != sep,
    ensures
        pieces(a, sep) == seq![a],
    decreases a.len(),
{
    if a.len() > 0 {
        lemma_pieces_single(a.drop_last(), sep);
        assert(a.drop_last().push(a.last()) =~= a);
        assert(seq![a.drop_last()].update(0, a.drop_last().push(a.last())) =~= seq![a]);
    } else {
        assert(a =~= Seq::<char>::empty());
    }
}

/// Joining the pieces of a text with the separator gives the text back.
pub proof fn lemma_join_pieces(x: Seq<char>, sep: char)
    ensures
        join(pieces(x, sep), seq![sep]) == x,
    decreases x.len(),
{
    if x.len() > 0 {
        let d = x.drop_last();
        lemma_join_pieces(d, sep);
        lemma_pieces_nonempty(d, sep);
        let p = pieces(d, sep);
        if x.last() == sep {
            let q = p.push(Seq::<char>::empty());
            assert(q.drop_last() =~= p);
            assert(join(q, seq![sep]) == join(p, seq![sep]) + seq![sep] + Seq::<char>::empty());
            assert(d.push(sep) =~= x);
            assert(join(p, seq![sep]) + seq![sep] + Seq::<char>::empty() =~= x);
        } else {
            let q = p.update(p.len() - 1, p.last().push(x.last()));
            assert(d.push(x.last()) =~= x);
            if p.len() == 1 {
                assert(join(q, seq![sep]) == q[0]);
            } else {
                assert(q.drop_last() =~= p.drop_last());
                assert(join(q, seq![sep]) == join(p.drop_last(), seq![sep]) + seq![sep]
                    + p.last().push(x.last()));
                assert(join(p.drop_last(), seq![sep]) + seq![sep] + p.last().push(x.last())
                    =~= (join(p.drop_last(), seq![sep]) + seq![sep] + p.last()).push(x.last()));
            }
        }
    }
}

/// What occurs in a part of a text occurs in the text.
pub proof fn lemma_has_text_concat(a: Seq<char>, b: Seq<char>, n: Seq<char>)
    ensures
        has_text(a, n) ==> has_text(a + b, n),
        has_text(b, n) ==> has_text(a + b, n),
{
    if has_text(a, n) {
        let i = choose|i: int| occurs_at(a, n, i);
        assert((a + b).subrange(i, i + n.len()) =~= a.subrange(i, i + n.len()));
        assert(occurs_at(a + b, n, i));
    }
    if has_text(b, n) {
        let i = choose|i: int| occurs_at(b, n, i);
        let j = i + a.len();
        assert((a + b).subrange(j, j + n.len()) =~= b.subrange(i, i + n.len()));
        assert(occurs_at(a + b, n, j));
    }
}

/// What occurs in one of the joined pieces occurs in the joined text.
pub proof fn lemma_has_text_in_join(parts: Seq<Seq<char>>, sep: Seq<char>, i: int, n: Seq<char>)
    requires
        0 <= i < parts.len(),
        has_text(parts[i], n),
    ensures
        has_text(join(parts, sep), n),
    decreases parts.len(),
{
    if parts.len() > 1 {
        let d = parts.drop_last();
        if i < parts.len() - 1 {
            assert(d[i] == parts[i]);
            lemma_has_text_in_join(d, sep, i, n);
            lemma_has_text_concat(join(d, sep), sep + parts.last(), n);
            assert(join(d, sep) + sep + parts.last() =~= join(d, sep) + (sep + parts.last()));
        } else {
            lemma_has_text_concat(join(d, sep) + sep, parts.last(), n);
        }
    }
}

} // verus!
