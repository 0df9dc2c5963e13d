//! Lines of text as sequences of characters, and the operations on single lines.

use vstd::prelude::*;
use vstd::utf8::{
    decode_utf8, encode_scalar, encode_utf8, encode_utf8_first_scalar, group_utf8_lib,
    is_ascii_chars, is_ascii_chars_encode_utf8, is_char_boundary, is_continuation_byte,
    valid_utf8,
};

verus! {

/// The characters of each line of a buffer.
pub open spec fn line_views(buffer: Seq<String>) -> Seq<Seq<char>> {
    buffer.map_values(|s: String| s@)
}

/// The characters of the lines `lo..hi`, each followed by a newline.
pub open spec fn lines_between(lines: Seq<Seq<char>>, lo: int, hi: int) -> Seq<char>
    decreases hi - lo,
{
    if hi <= lo {
        Seq::empty()
    } else {
        lines_between(lines, lo, hi - 1) + lines[hi - 1] + seq!['\n']
    }
}

/// The number of bytes of the UTF-8 encoding of `l`: a line's length in columns.
pub open spec fn byte_len(l: Seq<char>) -> nat {
    encode_utf8(l).len()
}

/// Whether byte column `x` of `l` is where a character begins, or the end of `l`.
pub open spec fn on_boundary(l: Seq<char>, x: int) -> bool {
    is_char_boundary(encode_utf8(l), x)
}

/// The characters of `l` before byte column `x`.
pub open spec fn before_byte(l: Seq<char>, x: int) -> Seq<char> {
    decode_utf8(encode_utf8(l).take(x))
}

/// The characters of `l` from byte column `x` on.
pub open spec fn from_byte(l: Seq<char>, x: int) -> Seq<char> {
    decode_utf8(encode_utf8(l).skip(x))
}

/// The characters of `l` from byte column `a` up to byte column `b`.
pub open spec fn bytes_between(l: Seq<char>, a: int, b: int) -> Seq<char> {
    decode_utf8(encode_utf8(l).subrange(a, b))
}

/// The encoding of two character sequences one after the other is their encodings one
/// after the other.
pub proof fn lemma_encode_append(a: Seq<char>, b: Seq<char>)
    ensures
        encode_utf8(a + b) == encode_utf8(a) + encode_utf8(b),
    decreases a.len(),
{
    if a.len() == 0 {
        assert(a + b =~= b);
        assert(encode_utf8(a) + encode_utf8(b) =~= encode_utf8(b));
    } else {
        assert((a + b).drop_first() =~= a.drop_first() + b);
        assert((a + b)[0] == a[0]);
        lemma_encode_append(a.drop_first(), b);
        assert(encode_utf8(a + b) =~= encode_utf8(a) + encode_utf8(b));
    }
}

/// One character takes one to four bytes; an ASCII character takes the one byte of its
/// code.
pub proof fn lemma_encode_char(c: char)
    ensures
        1 <= encode_utf8(seq![c]).len() <= 4,
        is_ascii_chars(seq![c]) ==> encode_utf8(seq![c]) == seq![c as u8],
{
    assert(seq![c].drop_first() =~= Seq::<char>::empty());
    assert(seq![c][0] == c);
    assert(encode_utf8(Seq::<char>::empty()) =~= Seq::<u8>::empty());
    assert(encode_utf8(seq![c]) == encode_scalar(c as u32) + encode_utf8(seq![c].drop_first()));
    assert(encode_utf8(seq![c]) =~= encode_scalar(c as u32));
    if is_ascii_chars(seq![c]) {
        is_ascii_chars_encode_utf8(seq![c]);
        assert(encode_utf8(seq![c]) =~= seq![c as u8]);
    }
}

/// The end of the first of two character sequences is a boundary of the two together.
pub proof fn lemma_boundary_concat(a: Seq<char>, b: Seq<char>)
    ensures
        is_char_boundary(encode_utf8(a + b), encode_utf8(a).len() as int),
    decreases a.len(),
{
    broadcast use group_utf8_lib;

    if a.len() > 0 {
        let ab = a + b;
        let a1 = a.drop_first();
        assert(ab.drop_first() =~= a1 + b);
        assert(ab[0] == a[0]);
        encode_utf8_first_scalar(ab);
        lemma_encode_char(a[0]);
        lemma_boundary_concat(a1, b);
        let bytes = encode_utf8(ab);
        let k = encode_scalar(a[0] as u32).len() as int;
        assert(bytes.subrange(k, bytes.len() as int) =~= encode_utf8(a1 + b));
        assert(is_char_boundary(bytes, encode_utf8(a).len() as int));
    }
}

/// Splitting `l` at a boundary gives the characters before and from it, which are `l`
/// together and whose encodings are the bytes before and from it.
pub proof fn lemma_split_at_boundary(l: Seq<char>, x: int)
    requires
        on_boundary(l, x),
    ensures
        0 <= x <= byte_len(l),
        l == before_byte(l, x) + from_byte(l, x),
        encode_utf8(before_byte(l, x)) == encode_utf8(l).take(x),
        encode_utf8(from_byte(l, x)) == encode_utf8(l).skip(x),
        byte_len(before_byte(l, x)) == x,
{
    broadcast use group_utf8_lib;

    let bytes = encode_utf8(l);
    if x != 0 {
        assert(0 <= x <= bytes.len());
    }
    assert(bytes.take(x) =~= bytes.subrange(0, x));
    assert(bytes.skip(x) =~= bytes.subrange(x, bytes.len() as int));
    assert(valid_utf8(bytes.subrange(0, x)));
    assert(valid_utf8(bytes.subrange(x, bytes.len() as int)));
    assert(decode_utf8(bytes) =~= decode_utf8(bytes.subrange(0, x)) + decode_utf8(
        bytes.subrange(x, bytes.len() as int),
    ));
}

/// In two character sequences one after the other, the first ends at the byte column of
/// its encoding's length.
pub proof fn lemma_concat_split(a: Seq<char>, b: Seq<char>)
    ensures
        on_boundary(a + b, byte_len(a) as int),
        before_byte(a + b, byte_len(a) as int) == a,
        from_byte(a + b, byte_len(a) as int) == b,
        byte_len(a + b) == byte_len(a) + byte_len(b),
{
    broadcast use group_utf8_lib;

    lemma_encode_append(a, b);
    lemma_boundary_concat(a, b);
    let n = byte_len(a) as int;
    assert(encode_utf8(a + b).take(n) =~= encode_utf8(a));
    assert(encode_utf8(a + b).skip(n) =~= encode_utf8(b));
}

/// A boundary of `l` at or after boundary `s` is a boundary of the bytes from `s` on.
pub proof fn lemma_boundary_skip(l: Seq<char>, s: int, x: int)
    requires
        on_boundary(l, s),
        on_boundary(l, x),
        s <= x,
    ensures
        is_char_boundary(encode_utf8(l).skip(s), x - s),
{
    broadcast use group_utf8_lib;

    lemma_split_at_boundary(l, s);
    lemma_split_at_boundary(l, x);
    let bytes = encode_utf8(l);
    let rest = bytes.skip(s);
    assert(valid_utf8(rest));
    if x < bytes.len() {
        assert(rest[x - s] == bytes[x]);
        assert(!is_continuation_byte(bytes[x]));
    } else {
        assert(x - s == rest.len());
    }
}

/// Between two boundaries `a <= b`, `l` is what comes before `a`, the characters from `a`
/// up to `b`, and what comes from `b` on.
pub proof fn lemma_split_between(l: Seq<char>, a: int, b: int)
    requires
        on_boundary(l, a),
        on_boundary(l, b),
        a <= b,
    ensures
        l == before_byte(l, a) + bytes_between(l, a, b) + from_byte(l, b),
        from_byte(l, a) == bytes_between(l, a, b) + from_byte(l, b),
        before_byte(l, b) == before_byte(l, a) + bytes_between(l, a, b),
{
    broadcast use group_utf8_lib;

    lemma_split_at_boundary(l, a);
    lemma_split_at_boundary(l, b);
    lemma_boundary_skip(l, a, b);
    let bytes = encode_utf8(l);
    let rest = bytes.skip(a);
    let f = from_byte(l, a);
    assert(encode_utf8(f) == rest);
    assert(on_boundary(f, b - a));
    lemma_split_at_boundary(f, b - a);
    assert(rest.take(b - a) =~= bytes.subrange(a, b));
    assert(rest.skip(b - a) =~= bytes.skip(b));
    lemma_concat_split(before_byte(l, a), bytes_between(l, a, b));
    lemma_encode_append(before_byte(l, a), bytes_between(l, a, b));
    assert(bytes.take(b) =~= bytes.take(a) + bytes.subrange(a, b));
}

/// All of `lines` joined by newlines, the way a buffer is written out.
pub open spec fn joined(lines: Seq<Seq<char>>) -> Seq<char> {
    if lines.len() == 0 {
        Seq::empty()
    } else {
        lines_between(lines, 0, lines.len() - 1) + lines.last()
    }
}

/// The pieces of `s` between its newlines: one more piece than `s` has newlines.
pub open spec fn pieces(s: Seq<char>) -> Seq<Seq<char>>
    decreases s.len(),
{
    if s.len() == 0 {
        seq![Seq::empty()]
    } else {
        let p = pieces(s.drop_last());
        if s.last() == '\n' {
            p.push(Seq::empty())
        } else {
            p.update(p.len() - 1, p.last().push(s.last()))
        }
    }
}

/// `l` without one trailing carriage return.
pub open spec fn strip_cr(l: Seq<char>) -> Seq<char> {
    if l.len() > 0 && l.last() == '\r' {
        l.drop_last()
    } else {
        l
    }
}

/// The lines of `s`: split at each newline; a carriage return just before a newline is
/// dropped; a final empty piece (after a last newline, or of the empty text) is no line.
pub open spec fn text_lines(s: Seq<char>) -> Seq<Seq<char>> {
    let p = pieces(s);
    let n = if p.last().len() == 0 {
        p.len() - 1
    } else {
        p.len() as int
    };
    Seq::new(n as nat, |i: int| if i < p.len() - 1 { strip_cr(p[i]) } else { p[i] })
}

pub proof fn lemma_pieces_nonempty(s: Seq<char>)
    ensures
        pieces(s).len() >= 1,
    decreases s.len(),
{
    if s.len() > 0 {
        lemma_pieces_nonempty(s.drop_last());
    }
}

/// Appends `c` to `s` with `String::push`, which std documents as appending the character
/// to the end of the string.
#[verifier::external_body]
pub(crate) fn push_char(s: &mut String, c: char)
    ensures
        final(s)@ == old(s)@.push(c),
{
    s.push(c);
}

/// Splits `text` into its lines (see `text_lines`).
pub fn split_lines(text: &str) -> (r: Vec<String>)
    ensures
        line_views(r@) == text_lines(text@),
{
    let mut done: Vec<String> = Vec::new();
    let mut cur = String::new();
    let mut pending_cr = false;
    let ghost mut seen: Seq<char> = Seq::empty();
    for c in it: text.chars()
        invariant
            seen == it.seq().take(it.index() as int),
            it.seq() == text@,
            pieces(seen).len() >= 1,
            line_views(done@) == Seq::new(
                (pieces(seen).len() - 1) as nat,
                |i: int| strip_cr(pieces(seen)[i]),
            ),
            cur@ == strip_cr(pieces(seen).last()),
            pending_cr == (pieces(seen).last().len() > 0 && pieces(seen).last().last() == '\r'),
    {
        let ghost old_seen = seen;
        proof {
            seen = seen.push(c);
            assert(seen.drop_last() == old_seen);
            lemma_pieces_nonempty(seen);
        }
        if c == '\n' {
            proof {
                assert(pieces(seen) == pieces(old_seen).push(Seq::empty()));
            }
            let ghost old_views = line_views(done@);
            let ghost old_cur = cur@;
            done.push(cur);
            cur = String::new();
            pending_cr = false;
            proof {
                let n = pieces(seen).len() - 1;
                assert(old_views.len() == pieces(old_seen).len() - 1);
                assert(done@.len() == old_views.len() + 1);
                assert(n == pieces(old_seen).len());
                assert forall|i: int| 0 <= i < n implies line_views(done@)[i] == strip_cr(
                    pieces(seen)[i],
                ) by {
                    if i < n - 1 {
                        assert(old_views[i] == strip_cr(pieces(old_seen)[i]));
                        assert(line_views(done@)[i] == done@[i]@);
                    } else {
                        assert(line_views(done@)[i] == old_cur);
                    }
                }
                assert(line_views(done@) =~= Seq::new(
                    (pieces(seen).len() - 1) as nat,
                    |i: int| strip_cr(pieces(seen)[i]),
                ));
            }
        } else if c == '\r' {
            proof {
                assert(pieces(seen) == pieces(old_seen).update(
                    pieces(old_seen).len() - 1,
                    pieces(old_seen).last().push(c),
                ));
            }
            if pending_cr {
                push_char(&mut cur, '\r');
            }
            pending_cr = true;
            proof {
                assert(line_views(done@) =~= Seq::new(
                    (pieces(seen).len() - 1) as nat,
                    |i: int| strip_cr(pieces(seen)[i]),
                ));
                assert(cur@ =~= strip_cr(pieces(seen).last()));
            }
        } else {
            proof {
                assert(pieces(seen) == pieces(old_seen).update(
                    pieces(old_seen).len() - 1,
                    pieces(old_seen).last().push(c),
                ));
            }
            if pending_cr {
                push_char(&mut cur, '\r');
            }
            push_char(&mut cur, c);
            pending_cr = false;
            proof {
                assert(line_views(done@) =~= Seq::new(
                    (pieces(seen).len() - 1) as nat,
                    |i: int| strip_cr(pieces(seen)[i]),
                ));
                assert(cur@ =~= strip_cr(pieces(seen).last()));
            }
        }
    }
    proof {
        assert(seen =~= text@);
    }
    let ghost p = pieces(text@);
    if pending_cr {
        push_char(&mut cur, '\r');
    }
    assert(cur@ =~= p.last());
    let ghost old_views = line_views(done@);
    assert(old_views.len() == p.len() - 1);
    if cur.as_str().unicode_len() > 0 {
        done.push(cur);
    }
    proof {
        let t = text_lines(text@);
        assert(line_views(done@).len() == t.len());
        assert forall|i: int| 0 <= i < t.len() implies line_views(done@)[i] == t[i] by {
            if i < p.len() - 1 {
                assert(old_views[i] == strip_cr(p[i]));
                assert(line_views(done@)[i] == done@[i]@);
            }
        }
        assert(line_views(done@) =~= text_lines(text@));
    }
    done
}

/// Joins `lines` with newlines between them (see `joined`).
pub fn join_lines(lines: &Vec<String>) -> (r: String)
    ensures
        r@ == joined(line_views(lines@)),
{
    let ghost ls = line_views(lines@);
    let mut r = String::new();
    let n = lines.len();
    for i in 0..n
        invariant
            n == lines@.len(),
            ls == line_views(lines@),
            i == 0 ==> r@ == Seq::<char>::empty(),
            i > 0 ==> r@ == lines_between(ls, 0, i - 1) + ls[i - 1],
    {
        if i > 0 {
            push_newline(&mut r);
            assert(lines_between(ls, 0, i as int) == lines_between(ls, 0, i - 1) + ls[i - 1]
                + seq!['\n']);
        }
        r.append(lines[i].as_str());
        proof {
            if i == 0 {
                assert(lines_between(ls, 0, 0) =~= Seq::<char>::empty());
            }
        }
    }
    r
}

pub proof fn lemma_views_update(b: Seq<String>, i: int, s: String)
    requires
        0 <= i < b.len(),
    ensures
        line_views(b.update(i, s)) == line_views(b).update(i, s@),
{
    assert(line_views(b.update(i, s)) =~= line_views(b).update(i, s@));
}

pub proof fn lemma_views_insert(b: Seq<String>, i: int, s: String)
    requires
        0 <= i <= b.len(),
    ensures
        line_views(b.insert(i, s)) == line_views(b).insert(i, s@),
{
    assert(line_views(b.insert(i, s)) =~= line_views(b).insert(i, s@));
}

pub proof fn lemma_views_remove(b: Seq<String>, i: int)
    requires
        0 <= i < b.len(),
    ensures
        line_views(b.remove(i)) == line_views(b).remove(i),
{
    assert(line_views(b.remove(i)) =~= line_views(b).remove(i));
}

/// The parts of `line` before and from byte column `x`, a boundary.
pub fn split_line(line: &String, x: usize) -> (r: (String, String))
    requires
        on_boundary(line@, x as int),
    ensures
        r.0@ == before_byte(line@, x as int),
        r.1@ == from_byte(line@, x as int),
{
    broadcast use group_utf8_lib;

    let (a, b) = line.as_str().split_at(x);
    proof {
        let bytes = encode_utf8(line@);
        assert(bytes.take(x as int) =~= bytes.subrange(0, x as int));
        assert(bytes.skip(x as int) =~= bytes.subrange(x as int, bytes.len() as int));
        assert(a@ == decode_utf8(encode_utf8(a@)));
        assert(b@ == decode_utf8(encode_utf8(b@)));
    }
    (String::from_str(a), String::from_str(b))
}

/// `line` with `ins` put in at byte column `x`, a boundary.
pub fn line_with_str(line: &String, x: usize, ins: &str) -> (r: String)
    requires
        on_boundary(line@, x as int),
    ensures
        r@ == before_byte(line@, x as int) + ins@ + from_byte(line@, x as int),
{
    let (mut r, b) = split_line(line, x);
    r.append(ins);
    r.append(b.as_str());
    r
}

/// `line` with `c` put in at byte column `x`, a boundary.
pub fn line_with_char(line: &String, x: usize, c: char) -> (r: String)
    requires
        on_boundary(line@, x as int),
    ensures
        r@ == before_byte(line@, x as int) + seq![c] + from_byte(line@, x as int),
{
    let (mut r, b) = split_line(line, x);
    push_char(&mut r, c);
    r.append(b.as_str());
    r
}

/// `line` without the character that begins at byte column `x`.
pub fn line_without_char(line: &String, x: usize) -> (r: String)
    requires
        on_boundary(line@, x as int),
        x < byte_len(line@),
    ensures
        r@ == before_byte(line@, x as int) + from_byte(line@, x as int).drop_first(),
{
    proof {
        lemma_split_at_boundary(line@, x as int);
        assert(from_byte(line@, x as int).len() > 0) by {
            if from_byte(line@, x as int).len() == 0 {
                assert(encode_utf8(from_byte(line@, x as int)) =~= Seq::<u8>::empty());
            }
        }
    }
    let (mut r, b) = split_line(line, x);
    let n = b.as_str().unicode_len();
    r.append(b.as_str().substring_char(1, n));
    assert(b@.subrange(1, n as int) =~= b@.drop_first());
    r
}

/// The characters of `a` before byte column `x` followed by those of `b` from byte
/// column `y` on; both columns are boundaries.
pub fn splice(a: &String, x: usize, b: &String, y: usize) -> (r: String)
    requires
        on_boundary(a@, x as int),
        on_boundary(b@, y as int),
    ensures
        r@ == before_byte(a@, x as int) + from_byte(b@, y as int),
{
    let (mut r, _) = split_line(a, x);
    let (_, rest) = split_line(b, y);
    r.append(rest.as_str());
    r
}

/// The characters of `line` from byte column `from` up to byte column `to`, both
/// boundaries.
pub fn line_part(line: &String, from: usize, to: usize) -> (r: String)
    requires
        on_boundary(line@, from as int),
        on_boundary(line@, to as int),
        from <= to,
    ensures
        r@ == bytes_between(line@, from as int, to as int),
{
    broadcast use group_utf8_lib;

    let (_, rest) = line.as_str().split_at(from);
    proof {
        lemma_boundary_skip(line@, from as int, to as int);
        let bytes = encode_utf8(line@);
        assert(bytes.skip(from as int) =~= bytes.subrange(from as int, bytes.len() as int));
    }
    let (mid, _) = rest.split_at(to - from);
    proof {
        let bytes = encode_utf8(line@);
        assert(encode_utf8(mid@) =~= bytes.subrange(from as int, to as int));
        assert(mid@ == decode_utf8(encode_utf8(mid@)));
    }
    String::from_str(mid)
}

/// The number of bytes of `line`.
pub fn byte_count(line: &String) -> (r: usize)
    ensures
        r == byte_len(line@),
{
    line.as_str().as_bytes().len()
}

/// Whether byte column `x` of `line` is a boundary.
pub fn is_boundary(line: &String, x: usize) -> (r: bool)
    ensures
        r == on_boundary(line@, x as int),
{
    line.as_str().is_char_boundary(x)
}

/// The number of characters of `line`.
pub fn char_count(line: &String) -> (r: usize)
    ensures
        r == line@.len(),
{
    line.as_str().unicode_len()
}

/// The characters of `s`.
pub fn chars_of(s: &str) -> (r: Vec<char>)
    ensures
        r@ == s@,
{
    let mut r: Vec<char> = Vec::new();
    for c in it: s.chars()
        invariant
            it.seq() == s@,
            r@ == it.seq().take(it.index() as int),
    {
        r.push(c);
    }
    assert(r@ =~= s@);
    r
}

/// `lines_between` depends only on the lines in its range.
pub proof fn lemma_between_same(l1: Seq<Seq<char>>, l2: Seq<Seq<char>>, lo: int, hi: int)
    requires
        forall|i: int| lo <= i < hi ==> l1[i] == l2[i],
    ensures
        lines_between(l1, lo, hi) == lines_between(l2, lo, hi),
    decreases hi - lo,
{
    if hi > lo {
        lemma_between_same(l1, l2, lo, hi - 1);
    }
}

/// `lines_between` of a range is that of its two parts one after the other.
pub proof fn lemma_between_split(l: Seq<Seq<char>>, lo: int, mid: int, hi: int)
    requires
        lo <= mid <= hi,
    ensures
        lines_between(l, lo, hi) == lines_between(l, lo, mid) + lines_between(l, mid, hi),
    decreases hi - mid,
{
    if hi == mid {
        assert(lines_between(l, mid, hi) =~= Seq::<char>::empty());
        assert(lines_between(l, lo, hi) =~= lines_between(l, lo, mid) + Seq::<char>::empty());
    } else {
        lemma_between_split(l, lo, mid, hi - 1);
        assert(lines_between(l, lo, hi) =~= lines_between(l, lo, mid) + lines_between(
            l,
            mid,
            hi,
        ));
    }
}

/// `lines_between` of the lines from `k` on is that of `lines` shifted by `k`.
pub proof fn lemma_between_skip(l: Seq<Seq<char>>, k: int, lo: int, hi: int)
    requires
        0 <= k <= l.len(),
        0 <= lo,
        hi <= l.len() - k,
    ensures
        lines_between(l.skip(k), lo, hi) == lines_between(l, lo + k, hi + k),
    decreases hi - lo,
{
    if hi > lo {
        lemma_between_skip(l, k, lo, hi - 1);
    }
}

/// What follows line `y` when `lines` are joined: nothing after the last line, else a
/// newline and the later lines joined.
pub open spec fn tail_after(lines: Seq<Seq<char>>, y: int) -> Seq<char> {
    if y + 1 < lines.len() {
        seq!['\n'] + joined(lines.skip(y + 1))
    } else {
        Seq::empty()
    }
}

/// The joined text before position (x, y), with `x` a byte column.
pub open spec fn text_before(lines: Seq<Seq<char>>, x: int, y: int) -> Seq<char> {
    lines_between(lines, 0, y) + before_byte(lines[y], x)
}

/// The joined text from position (x, y) on, with `x` a byte column.
pub open spec fn text_after(lines: Seq<Seq<char>>, x: int, y: int) -> Seq<char> {
    from_byte(lines[y], x) + tail_after(lines, y)
}

/// The joined lines are the text before a position where a character begins (or a line
/// ends) followed by the text after it.
pub proof fn lemma_joined_at(lines: Seq<Seq<char>>, x: int, y: int)
    requires
        0 <= y < lines.len(),
        on_boundary(lines[y], x),
    ensures
        joined(lines) == text_before(lines, x, y) + text_after(lines, x, y),
        joined(lines) == lines_between(lines, 0, y) + lines[y] + tail_after(lines, y),
{
    let n = lines.len();
    lemma_between_split(lines, 0, y, n - 1);
    if y + 1 < n {
        let rest = lines.skip(y + 1);
        lemma_between_split(lines, y, y + 1, n - 1);
        lemma_between_skip(lines, y + 1, 0, n - 1 - (y + 1));
        assert(lines_between(lines, y, y + 1) =~= lines[y] + seq!['\n']) by {
            assert(lines_between(lines, y, y) =~= Seq::<char>::empty());
        }
        assert(rest.last() == lines.last());
        assert(joined(lines) =~= lines_between(lines, 0, y) + lines[y] + tail_after(lines, y));
    } else {
        assert(lines_between(lines, y, n - 1) =~= Seq::<char>::empty());
        assert(joined(lines) =~= lines_between(lines, 0, y) + lines[y] + tail_after(lines, y));
    }
    lemma_split_at_boundary(lines[y], x);
    assert(joined(lines) =~= text_before(lines, x, y) + text_after(lines, x, y));
}

/// Whether no carriage return of `s` stands just before a newline.
pub open spec fn no_crlf(s: Seq<char>) -> bool {
    forall|j: int| 0 < j < s.len() && #[trigger] s[j] == '\n' ==> s[j - 1] != '\r'
}

/// Facts on the pieces of a text: they joined by newlines give the text back, the last
/// piece ends as the text does, and it is empty exactly after a final newline.
pub proof fn lemma_pieces(s: Seq<char>)
    ensures
        pieces(s).len() >= 1,
        joined(pieces(s)) == s,
        pieces(s).last().len() > 0 ==> s.len() > 0 && pieces(s).last().last() == s.last(),
        s.len() > 0 ==> (s.last() == '\n' <==> pieces(s).last().len() == 0),
        no_crlf(s) ==> forall|i: int|
            0 <= i < pieces(s).len() - 1 ==> !(pieces(s)[i].len() > 0 && pieces(s)[i].last()
                == '\r'),
    decreases s.len(),
{
    let p = pieces(s);
    if s.len() == 0 {
        assert(joined(p) =~= s) by {
            assert(lines_between(p, 0, 0) =~= Seq::<char>::empty());
        }
    } else {
        let s0 = s.drop_last();
        let c = s.last();
        let p0 = pieces(s0);
        lemma_pieces(s0);
        assert(s0 + seq![c] =~= s);
        let n0 = p0.len() as int;
        if c == '\n' {
            assert(p == p0.push(Seq::empty()));
            lemma_between_same(p, p0, 0, n0 - 1);
            assert(lines_between(p, 0, n0) == lines_between(p, 0, n0 - 1) + p0.last() + seq![
                '\n',
            ]);
            assert(joined(p) =~= s);
            if no_crlf(s) {
                assert(no_crlf(s0));
                assert forall|i: int| 0 <= i < p.len() - 1 implies !(p[i].len() > 0 && p[i].last()
                    == '\r') by {
                    if i == n0 - 1 {
                        if p0.last().len() > 0 {
                            assert(s[s.len() - 1] == '\n');
                            assert(s[s.len() - 2] == s0.last());
                        }
                    }
                }
            }
        } else {
            assert(p == p0.update(n0 - 1, p0.last().push(c)));
            lemma_between_same(p, p0, 0, n0 - 1);
            assert(joined(p) =~= s);
            if no_crlf(s) {
                assert(no_crlf(s0));
            }
        }
    }
}

/// Joining lines is joining all but the last, a newline, and the last.
pub proof fn lemma_joined_last(lines: Seq<Seq<char>>)
    requires
        lines.len() >= 2,
    ensures
        joined(lines) == joined(lines.drop_last()) + seq!['\n'] + lines.last(),
{
    let n = lines.len();
    lemma_between_same(lines, lines.drop_last(), 0, n - 2);
    assert(joined(lines) =~= joined(lines.drop_last()) + seq!['\n'] + lines.last());
}

/// Characters without a newline all go onto the last piece.
pub proof fn lemma_pieces_append(s: Seq<char>, t: Seq<char>)
    requires
        !t.contains('\n'),
    ensures
        pieces(s + t) == pieces(s).update(pieces(s).len() - 1, pieces(s).last() + t),
    decreases t.len(),
{
    lemma_pieces_nonempty(s);
    if t.len() == 0 {
        assert(s + t =~= s);
        assert(pieces(s).update(pieces(s).len() - 1, pieces(s).last() + t) =~= pieces(s));
    } else {
        let t0 = t.drop_last();
        assert(!t0.contains('\n')) by {
            if t0.contains('\n') {
                let k = choose|k: int| 0 <= k < t0.len() && t0[k] == '\n';
                assert(t[k] == '\n');
            }
        }
        assert(t[t.len() - 1] != '\n');
        lemma_pieces_append(s, t0);
        assert((s + t).drop_last() =~= s + t0);
        assert((s + t).last() == t.last());
        let q = pieces(s + t0);
        lemma_pieces_nonempty(s + t0);
        assert(pieces(s + t) == q.update(q.len() - 1, q.last().push(t.last())));
        assert((pieces(s).last() + t0).push(t.last()) =~= pieces(s).last() + t);
        assert(pieces(s + t) =~= pieces(s).update(pieces(s).len() - 1, pieces(s).last() + t));
    }
}

/// Lines without newlines are the pieces of their joined text.
pub proof fn lemma_pieces_of_joined(lines: Seq<Seq<char>>)
    requires
        lines.len() >= 1,
        forall|i: int| 0 <= i < lines.len() ==> !(#[trigger] lines[i]).contains('\n'),
    ensures
        pieces(joined(lines)) == lines,
    decreases lines.len(),
{
    if lines.len() == 1 {
        assert(joined(lines) =~= Seq::<char>::empty() + lines[0]) by {
            assert(lines_between(lines, 0, 0) =~= Seq::<char>::empty());
        }
        lemma_pieces_append(Seq::empty(), lines[0]);
        assert(pieces(joined(lines)) =~= lines);
    } else {
        let front = lines.drop_last();
        lemma_pieces_of_joined(front);
        lemma_joined_last(lines);
        let j0 = joined(front) + seq!['\n'];
        assert(j0.drop_last() =~= joined(front));
        assert(pieces(j0) == pieces(joined(front)).push(Seq::empty()));
        assert(!lines.last().contains('\n'));
        lemma_pieces_append(j0, lines.last());
        assert(pieces(joined(lines)) =~= lines);
    }
}

/// Loading a text and saving it again gives the text back, but for a final newline,
/// when no carriage return stands before a newline.
pub proof fn law_save_after_load(s: Seq<char>)
    requires
        no_crlf(s),
    ensures
        joined(text_lines(s)) == if s.len() > 0 && s.last() == '\n' {
            s.drop_last()
        } else {
            s
        },
{
    lemma_pieces(s);
    let p = pieces(s);
    let t = text_lines(s);
    assert forall|i: int| 0 <= i < t.len() implies t[i] == p[i] by {
        if i < p.len() - 1 {
            assert(strip_cr(p[i]) == p[i]);
        }
    }
    if p.last().len() == 0 {
        if p.len() == 1 {
            assert(t =~= Seq::<Seq<char>>::empty());
            assert(s.len() == 0);
        } else {
            assert(t =~= p.drop_last());
            lemma_joined_last(p);
        }
    } else {
        assert(t =~= p);
    }
}

/// Saving lines and loading the text again gives the same lines, when no line holds a
/// newline, no line but the last ends with a carriage return, and the last line is not
/// empty.
pub proof fn law_load_after_save(lines: Seq<Seq<char>>)
    requires
        forall|i: int| 0 <= i < lines.len() ==> !(#[trigger] lines[i]).contains('\n'),
        forall|i: int|
            0 <= i < lines.len() - 1 ==> !((#[trigger] lines[i]).len() > 0 && lines[i].last()
                == '\r'),
        lines.len() == 0 || lines.last().len() > 0,
    ensures
        text_lines(joined(lines)) == lines,
{
    if lines.len() == 0 {
        assert(pieces(Seq::<char>::empty()) =~= seq![Seq::<char>::empty()]);
        assert(text_lines(joined(lines)) =~= lines);
    } else {
        lemma_pieces_of_joined(lines);
        assert forall|i: int| 0 <= i < lines.len() - 1 implies strip_cr(lines[i]) == lines[i] by {
        }
        assert(text_lines(joined(lines)) =~= lines);
    }
}

/// Appends a newline to `s`.
pub fn push_newline(s: &mut String)
    ensures
        final(s)@ == old(s)@.push('\n'),
{
    proof {
        reveal_strlit("\n");
        assert("\n"@ =~= seq!['\n']);
    }
    s.append("\n");
}

} // verus!
