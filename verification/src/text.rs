//! Terminal text measurement, truncation and word wrapping.

use vstd::prelude::*;
use crate::chars::{
    char_rows, from_chars, is_whitespace, is_ws, lines, split_lines, strings_from, to_chars,
};

verus! {

/// Columns that a character takes on a terminal: none for a variation
/// selector (U+FE00 to U+FE0F), two for a character from U+1F000 on
/// (emoji), one otherwise.
pub open spec fn char_columns(c: char) -> nat {
    let u = c as u32;
    if 0xFE00 <= u <= 0xFE0F {
        0
    } else if u >= 0x1F000 {
        2
    } else {
        1
    }
}

/// Terminal columns taken by `c`.
pub fn char_width(c: char) -> (w: usize)
    ensures
        w == char_columns(c),
{
    let u = c as u32;
    if 0xFE00 <= u && u <= 0xFE0F {
        0
    } else if u >= 0x1F000 {
        2
    } else {
        1
    }
}

/// Whether `c` is an ASCII letter, the byte that ends an escape sequence.
pub open spec fn is_ascii_letter(c: char) -> bool {
    ('a' <= c && c <= 'z') || ('A' <= c && c <= 'Z')
}

/// After reading `s`: whether an escape sequence is open, and the columns
/// counted so far. An escape sequence starts at ESC (U+001B) and ends with
/// the next ASCII letter; its characters take no columns.
pub open spec fn visible_fold(s: Seq<char>) -> (bool, nat)
    decreases s.len(),
{
    if s.len() == 0 {
        (false, 0)
    } else {
        let (esc, n) = visible_fold(s.drop_last());
        let c = s.last();
        if esc {
            (!is_ascii_letter(c), n)
        } else if c == '\x1b' {
            (true, n)
        } else {
            (false, n + char_columns(c))
        }
    }
}

/// Terminal columns that `s` takes once its escape sequences are left out.
pub open spec fn visible_columns(s: Seq<char>) -> nat {
    visible_fold(s).1
}

/// Terminal columns that `s` takes, ANSI escape sequences not counted
/// (capped at the largest `usize`, which no string in memory reaches).
pub fn visible_len(s: &str) -> (n: usize)
    ensures
        n as int == if visible_columns(s@) > usize::MAX { usize::MAX as int } else { visible_columns(s@) as int },
{
    let v = to_chars(s);
    let mut esc = false;
    let mut n: usize = 0;
    let mut i: usize = 0;
    while i < v.len()
        invariant
            v@ == s@,
            i <= v@.len(),
            (esc, n as int) == (visible_fold(v@.take(i as int)).0, if visible_fold(v@.take(i as int)).1 > usize::MAX {
                usize::MAX as int
            } else {
                visible_fold(v@.take(i as int)).1 as int
            }),
        decreases v@.len() - i,
    {
        let c = v[i];
        proof {
            assert(v@.take(i + 1).drop_last() =~= v@.take(i as int));
        }
        if esc {
            esc = !(('a' <= c && c <= 'z') || ('A' <= c && c <= 'Z'));
        } else if c == '\x1b' {
            esc = true;
        } else {
            n = n.saturating_add(char_width(c));
        }
        i = i + 1;
    }
    assert(v@.take(i as int) =~= v@);
    n
}

/// `s` cut to at most `max` characters: unchanged when it fits, else its
/// first `max - 1` characters (none when `max` is 0) and an ellipsis.
pub open spec fn truncated(s: Seq<char>, max: nat) -> Seq<char> {
    if s.len() <= max {
        s
    } else if max == 0 {
        seq!['\u{2026}']
    } else {
        s.take(max - 1).push('\u{2026}')
    }
}

/// `s` cut to at most `max` characters, an ellipsis marking a cut.
pub fn truncate(s: &str, max: usize) -> (r: String)
    ensures
        r@ == truncated(s@, max as nat),
{
    let v = to_chars(s);
    if v.len() <= max {
        from_chars(v.as_slice())
    } else {
        let keep = max.saturating_sub(1);
        let mut out = crate::chars::take_chars(v.as_slice(), keep);
        out.push('\u{2026}');
        from_chars(out.as_slice())
    }
}

/// `s` followed by spaces up to `width` characters (as `{:<width}` pads).
pub open spec fn padded(s: Seq<char>, width: nat) -> Seq<char> {
    if s.len() >= width {
        s
    } else {
        s + Seq::new((width - s.len()) as nat, |i: int| ' ')
    }
}

/// `s` left-aligned in a field of `width` characters.
pub fn pad_right(s: &str, width: usize) -> (r: String)
    ensures
        r@ == padded(s@, width as nat),
{
    let mut v = to_chars(s);
    let ghost orig = v@;
    while v.len() < width
        invariant
            orig.len() <= v@.len() <= if orig.len() <= width { width as int } else { orig.len() as int },
            v@.take(orig.len() as int) == orig,
            forall|j: int| orig.len() <= j < v@.len() ==> v@[j] == ' ',
        decreases width - v@.len(),
    {
        v.push(' ');
    }
    proof {
        if orig.len() < width {
            assert(v@ =~= orig + Seq::new((width - orig.len()) as nat, |i: int| ' '));
        } else {
            assert(v@ =~= orig);
        }
    }
    from_chars(v.as_slice())
}

/// The words finished so far and the word in progress after reading `s`.
pub open spec fn words_fold(s: Seq<char>) -> (Seq<Seq<char>>, Seq<char>)
    decreases s.len(),
{
    if s.len() == 0 {
        (seq![], seq![])
    } else {
        let (done, cur) = words_fold(s.drop_last());
        if is_ws(s.last()) {
            (if cur.len() > 0 { done.push(cur) } else { done }, seq![])
        } else {
            (done, cur.push(s.last()))
        }
    }
}

/// The maximal runs of non-whitespace characters of `s`
/// (`str::split_whitespace`).
pub open spec fn words(s: Seq<char>) -> Seq<Seq<char>> {
    let (done, cur) = words_fold(s);
    if cur.len() > 0 {
        done.push(cur)
    } else {
        done
    }
}

/// The words of the characters `v`.
pub fn split_words(v: &[char]) -> (r: Vec<Vec<char>>)
    ensures
        char_rows(r@) == words(v@),
{
    let mut done: Vec<Vec<char>> = Vec::new();
    let mut cur: Vec<char> = Vec::new();
    let mut i: usize = 0;
    while i < v.len()
        invariant
            i <= v@.len(),
            (char_rows(done@), cur@) == words_fold(v@.take(i as int)),
        decreases v@.len() - i,
    {
        let c = v[i];
        proof {
            assert(v@.take(i + 1).drop_last() =~= v@.take(i as int));
        }
        if is_whitespace(c) {
            if cur.len() > 0 {
                let ghost old_done = char_rows(done@);
                let w = cur;
                done.push(w);
                assert(char_rows(done@) =~= old_done.push(w@));
            }
            cur = Vec::new();
        } else {
            cur.push(c);
        }
        i = i + 1;
    }
    assert(v@.take(i as int) =~= v@);
    if cur.len() > 0 {
        let ghost old_done = char_rows(done@);
        let ghost w = cur@;
        done.push(cur);
        assert(char_rows(done@) =~= old_done.push(w));
    }
    done
}

/// `w` cut into pieces of `n` characters, the last one possibly shorter.
pub open spec fn chunks(w: Seq<char>, n: nat) -> Seq<Seq<char>>
    decreases w.len(),
{
    if n == 0 || w.len() <= n {
        seq![w]
    } else {
        seq![w.take(n as int)] + chunks(w.skip(n as int), n)
    }
}

/// The state of a wrapped line after one more word: the rows finished and
/// the row being filled. A word longer than `width` closes the row being
/// filled and is cut into rows of `width` characters; a word that fits
/// after a space joins the row being filled; any other word starts a new row.
pub open spec fn place_word(
    state: (Seq<Seq<char>>, Seq<char>),
    word: Seq<char>,
    width: nat,
) -> (Seq<Seq<char>>, Seq<char>) {
    let (out, cur) = state;
    if word.len() > width {
        ((if cur.len() > 0 { out.push(cur) } else { out }) + chunks(word, width), seq![])
    } else if cur.len() == 0 {
        (out, word)
    } else if cur.len() + 1 + word.len() <= width {
        (out, cur + seq![' '] + word)
    } else {
        (out.push(cur), word)
    }
}

/// The state after placing each of `ws` in order.
pub open spec fn place_words(ws: Seq<Seq<char>>, width: nat) -> (Seq<Seq<char>>, Seq<char>)
    decreases ws.len(),
{
    if ws.len() == 0 {
        (seq![], seq![])
    } else {
        place_word(place_words(ws.drop_last(), width), ws.last(), width)
    }
}

/// The rows one line of text wraps into: a line without words gives one
/// empty row.
pub open spec fn wrap_line(line: Seq<char>, width: nat) -> Seq<Seq<char>> {
    let ws = words(line);
    if ws.len() == 0 {
        seq![seq![]]
    } else {
        let (out, cur) = place_words(ws, width);
        if cur.len() > 0 {
            out.push(cur)
        } else {
            out
        }
    }
}

/// The rows that the lines `ls` wrap into, line after line.
pub open spec fn wrap_lines(ls: Seq<Seq<char>>, width: nat) -> Seq<Seq<char>>
    decreases ls.len(),
{
    if ls.len() == 0 {
        seq![]
    } else {
        wrap_lines(ls.drop_last(), width) + wrap_line(ls.last(), width)
    }
}

/// `text` wrapped at `width` characters; a width of 0 leaves the text whole.
pub open spec fn wrapped(text: Seq<char>, width: nat) -> Seq<Seq<char>> {
    if width == 0 {
        seq![text]
    } else {
        wrap_lines(lines(text), width)
    }
}

/// `w` cut into rows of `n` characters, appended to `out`.
fn push_chunks(out: &mut Vec<Vec<char>>, w: &[char], n: usize)
    requires
        n > 0,
    ensures
        char_rows(final(out)@) == char_rows(old(out)@) + chunks(w@, n as nat),
{
    let mut start: usize = 0;
    let ghost base = char_rows(out@);
    assert(w@.skip(0) =~= w@);
    while w.len() - start > n
        invariant
            n > 0,
            w.len() == w@.len(),
            start <= w@.len(),
            base + chunks(w@, n as nat) == char_rows(out@) + chunks(w@.skip(start as int), n as nat),
        decreases w@.len() - start,
    {
        let ghost rest = w@.skip(start as int);
        let mut piece: Vec<char> = Vec::new();
        let mut k: usize = 0;
        while k < n
            invariant
                k <= n,
                w.len() == w@.len(),
                start + n <= w@.len(),
                piece@ == w@.subrange(start as int, start + k),
            decreases n - k,
        {
            piece.push(w[start + k]);
            k = k + 1;
            assert(piece@ =~= w@.subrange(start as int, start + k));
        }
        let ghost old_rows = char_rows(out@);
        let ghost p = piece@;
        out.push(piece);
        assert(char_rows(out@) =~= old_rows.push(p));
        assert(p =~= rest.take(n as int));
        assert(rest.skip(n as int) =~= w@.skip(start + n));
        assert(chunks(rest, n as nat) == seq![rest.take(n as int)] + chunks(rest.skip(n as int), n as nat));
        assert(old_rows + chunks(rest, n as nat) =~= old_rows.push(p) + chunks(w@.skip(start + n), n as nat));
        start = start + n;
    }
    let last = crate::chars::skip_chars(w, start);
    let ghost old_rows = char_rows(out@);
    let ghost l = last@;
    out.push(last);
    assert(char_rows(out@) =~= old_rows.push(l));
    assert(chunks(l, n as nat) == seq![l]);
    assert(old_rows + chunks(l, n as nat) =~= old_rows.push(l));
}

/// The rows that one line of text wraps into at `width` (> 0) characters.
fn wrap_one_line(line: &[char], width: usize) -> (r: Vec<Vec<char>>)
    requires
        width > 0,
    ensures
        char_rows(r@) == wrap_line(line@, width as nat),
{
    let ws = split_words(line);
    let mut out: Vec<Vec<char>> = Vec::new();
    let mut cur: Vec<char> = Vec::new();
    let mut i: usize = 0;
    while i < ws.len()
        invariant
            width > 0,
            i <= ws@.len(),
            cur@.len() <= width,
            char_rows(ws@) == words(line@),
            (char_rows(out@), cur@) == place_words(char_rows(ws@).take(i as int), width as nat),
        decreases ws@.len() - i,
    {
        let word = &ws[i];
        let ghost st = (char_rows(out@), cur@);
        proof {
            assert(char_rows(ws@).take(i + 1).drop_last() =~= char_rows(ws@).take(i as int));
            assert(char_rows(ws@).take(i + 1).last() == word@);
        }
        if word.len() > width {
            if cur.len() > 0 {
                let ghost old_rows = char_rows(out@);
                let c = cur;
                out.push(c);
                assert(char_rows(out@) =~= old_rows.push(c@));
            }
            push_chunks(&mut out, word.as_slice(), width);
            cur = Vec::new();
        } else if cur.len() == 0 {
            cur = word.clone();
        } else if cur.len() < width && word.len() <= width - cur.len() - 1 {
            cur.push(' ');
            let mut k: usize = 0;
            let ghost c0 = cur@;
            while k < word.len()
                invariant
                    k <= word@.len(),
                    cur@ == c0 + word@.take(k as int),
                decreases word@.len() - k,
            {
                cur.push(word[k]);
                k = k + 1;
                assert(cur@ =~= c0 + word@.take(k as int));
            }
            assert(word@.take(k as int) =~= word@);
        } else {
            let ghost old_rows = char_rows(out@);
            let c = cur;
            out.push(c);
            assert(char_rows(out@) =~= old_rows.push(c@));
            cur = word.clone();
        }
        i = i + 1;
    }
    assert(char_rows(ws@).take(i as int) =~= char_rows(ws@));
    if ws.len() == 0 {
        let mut r: Vec<Vec<char>> = Vec::new();
        r.push(Vec::new());
        assert(char_rows(r@) =~= seq![Seq::<char>::empty()]);
        return r;
    }
    if cur.len() > 0 {
        let ghost old_rows = char_rows(out@);
        let ghost c = cur@;
        out.push(cur);
        assert(char_rows(out@) =~= old_rows.push(c));
    }
    out
}

/// `text` wrapped into rows of at most `max_width` characters at word
/// boundaries, line breaks kept, longer words cut; a width of 0 gives the
/// text as one row.
pub fn wrap_text(text: &str, max_width: usize) -> (r: Vec<String>)
    ensures
        r.deep_view() == wrapped(text@, max_width as nat),
{
    if max_width == 0 {
        let mut r: Vec<String> = Vec::new();
        let s = from_chars(to_chars(text).as_slice());
        r.push(s);
        assert(r.deep_view() =~= seq![text@]);
        return r;
    }
    let v = to_chars(text);
    let ls = split_lines(v.as_slice());
    let mut rows: Vec<Vec<char>> = Vec::new();
    let mut i: usize = 0;
    while i < ls.len()
        invariant
            max_width > 0,
            i <= ls@.len(),
            char_rows(ls@) == lines(text@),
            char_rows(rows@) == wrap_lines(char_rows(ls@).take(i as int), max_width as nat),
        decreases ls@.len() - i,
    {
        let part = wrap_one_line(ls[i].as_slice(), max_width);
        proof {
            assert(char_rows(ls@).take(i + 1).drop_last() =~= char_rows(ls@).take(i as int));
        }
        let mut k: usize = 0;
        let ghost base = char_rows(rows@);
        while k < part.len()
            invariant
                k <= part@.len(),
                char_rows(rows@) == base + char_rows(part@).take(k as int),
            decreases part@.len() - k,
        {
            let ghost old_rows = char_rows(rows@);
            let row = part[k].clone();
            assert(row@ == part@[k as int]@);
            rows.push(row);
            assert(char_rows(rows@) =~= old_rows.push(part@[k as int]@));
            k = k + 1;
            assert(char_rows(rows@) =~= base + char_rows(part@).take(k as int));
        }
        assert(char_rows(part@).take(k as int) =~= char_rows(part@));
        i = i + 1;
    }
    assert(char_rows(ls@).take(i as int) =~= char_rows(ls@));
    strings_from(&rows)
}

/// Every row of `chunks(w, n)` has at most `n` characters (for `n > 0`),
/// and there is at least one.
proof fn lemma_chunks_fit(w: Seq<char>, n: nat)
    requires
        n > 0,
    ensures
        chunks(w, n).len() > 0,
        forall|i: int| 0 <= i < chunks(w, n).len() ==> (#[trigger] chunks(w, n)[i]).len() <= n,
    decreases w.len(),
{
    if w.len() > n {
        lemma_chunks_fit(w.skip(n as int), n);
        let rest = chunks(w.skip(n as int), n);
        assert forall|i: int| 0 <= i < chunks(w, n).len() implies (#[trigger] chunks(w, n)[i]).len() <= n by {
            if i > 0 {
                assert(chunks(w, n)[i] == rest[i - 1]);
            }
        }
    }
}

/// Placing words keeps every finished row and the row being filled within
/// `width` characters.
proof fn lemma_place_words_fit(ws: Seq<Seq<char>>, width: nat)
    requires
        width > 0,
        forall|i: int| 0 <= i < ws.len() ==> (#[trigger] ws[i]).len() > 0,
    ensures
        place_words(ws, width).1.len() <= width,
        forall|i: int|
            0 <= i < place_words(ws, width).0.len() ==> (#[trigger] place_words(ws, width).0[i]).len()
                <= width,
    decreases ws.len(),
{
    if ws.len() > 0 {
        let pre = ws.drop_last();
        assert forall|i: int| 0 <= i < pre.len() implies (#[trigger] pre[i]).len() > 0 by {
            assert(pre[i] == ws[i]);
        }
        lemma_place_words_fit(pre, width);
        let (out, cur) = place_words(pre, width);
        let word = ws.last();
        let res = place_words(ws, width);
        if word.len() > width {
            lemma_chunks_fit(word, width);
            let base = if cur.len() > 0 { out.push(cur) } else { out };
            assert forall|i: int| 0 <= i < res.0.len() implies (#[trigger] res.0[i]).len() <= width by {
                if i < base.len() {
                    assert(res.0[i] == base[i]);
                } else {
                    assert(res.0[i] == chunks(word, width)[i - base.len()]);
                }
            }
        } else if cur.len() == 0 {
        } else if cur.len() + 1 + word.len() <= width {
        } else {
            assert forall|i: int| 0 <= i < res.0.len() implies (#[trigger] res.0[i]).len() <= width by {
                if i < out.len() {
                    assert(res.0[i] == out[i]);
                }
            }
        }
    }
}

proof fn lemma_words_nonempty(s: Seq<char>)
    ensures
        forall|i: int| 0 <= i < words(s).len() ==> (#[trigger] words(s)[i]).len() > 0,
        forall|i: int| 0 <= i < words_fold(s).0.len() ==> (#[trigger] words_fold(s).0[i]).len() > 0,
    decreases s.len(),
{
    if s.len() > 0 {
        lemma_words_nonempty(s.drop_last());
        let (d0, c0) = words_fold(s.drop_last());
        let d1 = words_fold(s).0;
        assert forall|i: int| 0 <= i < d1.len() implies (#[trigger] d1[i]).len() > 0 by {
            if i < d0.len() {
                assert(d1[i] == d0[i]);
            }
        }
    }
    let (d, c) = words_fold(s);
    assert forall|i: int| 0 <= i < words(s).len() implies (#[trigger] words(s)[i]).len() > 0 by {
        if i < d.len() {
            assert(words(s)[i] == d[i]);
        }
    }
}

proof fn lemma_wrap_line_fits(line: Seq<char>, width: nat)
    requires
        width > 0,
    ensures
        wrap_line(line, width).len() > 0,
        forall|i: int| 0 <= i < wrap_line(line, width).len() ==> (#[trigger] wrap_line(line, width)[i]).len()
            <= width,
{
    lemma_words_nonempty(line);
    let ws = words(line);
    if ws.len() > 0 {
        lemma_place_words_fit(ws, width);
        let (out, cur) = place_words(ws, width);
        let r = wrap_line(line, width);
        assert forall|i: int| 0 <= i < r.len() implies (#[trigger] r[i]).len() <= width by {
            if i < out.len() {
                assert(r[i] == out[i]);
            }
        }
        if cur.len() == 0 {
            // The last word placed was cut into rows, so rows were produced.
            let last = ws.last();
            let pre = place_words(ws.drop_last(), width);
            if last.len() > width {
                lemma_chunks_fit(last, width);
            } else if pre.1.len() == 0 {
            } else if pre.1.len() + 1 + last.len() <= width {
            } else {
            }
        }
    }
}

proof fn lemma_wrap_lines_fit(ls: Seq<Seq<char>>, width: nat)
    requires
        width > 0,
    ensures
        wrap_lines(ls, width).len() >= ls.len(),
        forall|i: int| 0 <= i < wrap_lines(ls, width).len() ==> (#[trigger] wrap_lines(ls, width)[i]).len()
            <= width,
    decreases ls.len(),
{
    if ls.len() > 0 {
        lemma_wrap_lines_fit(ls.drop_last(), width);
        lemma_wrap_line_fits(ls.last(), width);
        let a = wrap_lines(ls.drop_last(), width);
        let b = wrap_line(ls.last(), width);
        assert forall|i: int| 0 <= i < wrap_lines(ls, width).len() implies (#[trigger] wrap_lines(ls, width)[i]).len()
            <= width by {
            if i < a.len() {
                assert(wrap_lines(ls, width)[i] == a[i]);
            } else {
                assert(wrap_lines(ls, width)[i] == b[i - a.len()]);
            }
        }
    }
}

/// Wrapping at a width above 0 gives rows of at most that many characters,
/// and at least one row for each line of the text.
pub proof fn lemma_wrapped_rows_fit(text: Seq<char>, width: nat)
    requires
        width > 0,
    ensures
        wrapped(text, width).len() >= lines(text).len(),
        forall|i: int| 0 <= i < wrapped(text, width).len() ==> (#[trigger] wrapped(text, width)[i]).len() <= width,
{
    lemma_wrap_lines_fit(lines(text), width);
}

/// A cut string has at most `max` characters (for `max` above 0), and it
/// is the string itself exactly when that fits.
pub proof fn lemma_truncated_fits(s: Seq<char>, max: nat)
    ensures
        max > 0 ==> truncated(s, max).len() <= max,
        max > 0 ==> ((truncated(s, max) == s) <==> s.len() <= max),
        s.len() > max ==> truncated(s, max).last() == '\u{2026}',
{
    if s.len() > max {
        assert(truncated(s, max).len() == (if max == 0 { 1 } else { max }));
        if max > 0 {
            assert(truncated(s, max).len() != s.len());
        }
    }
}

/// Reading the same text after two prefixes that leave the same escape
/// state adds the same columns and leaves the same escape state.
proof fn lemma_visible_fold_suffix(p: Seq<char>, q: Seq<char>, b: Seq<char>)
    requires
        visible_fold(p).0 == visible_fold(q).0,
    ensures
        visible_fold(p + b).0 == visible_fold(q + b).0,
        visible_fold(p + b).1 - visible_fold(p).1 == visible_fold(q + b).1 - visible_fold(q).1,
    decreases b.len(),
{
    if b.len() == 0 {
        assert(p + b =~= p);
        assert(q + b =~= q);
    } else {
        lemma_visible_fold_suffix(p, q, b.drop_last());
        assert((p + b).drop_last() =~= p + b.drop_last());
        assert((q + b).drop_last() =~= q + b.drop_last());
        assert((p + b).last() == b.last());
        assert((q + b).last() == b.last());
    }
}

/// An escape sequence: ESC, characters that are not ASCII letters, and a
/// closing ASCII letter.
pub open spec fn is_escape_sequence(e: Seq<char>) -> bool {
    &&& e.len() >= 2
    &&& e[0] == '\x1b'
    &&& is_ascii_letter(e.last())
    &&& forall|i: int| 1 <= i < e.len() - 1 ==> !is_ascii_letter(#[trigger] e[i])
}

proof fn lemma_escape_open(a: Seq<char>, e: Seq<char>, k: int)
    requires
        !visible_fold(a).0,
        is_escape_sequence(e),
        1 <= k < e.len(),
    ensures
        visible_fold(a + e.take(k)) == (true, visible_fold(a).1),
    decreases k,
{
    assert((a + e.take(k)).drop_last() =~= a + e.take(k - 1));
    assert((a + e.take(k)).last() == e[k - 1]);
    if k == 1 {
        assert(a + e.take(0) =~= a);
    } else {
        lemma_escape_open(a, e, k - 1);
    }
}

/// Escape sequences take no columns: outside an escape sequence, inserting
/// one anywhere leaves the visible length as it was.
pub proof fn lemma_escape_sequence_invisible(a: Seq<char>, e: Seq<char>, b: Seq<char>)
    requires
        !visible_fold(a).0,
        is_escape_sequence(e),
    ensures
        visible_columns(a + e + b) == visible_columns(a + b),
{
    lemma_escape_open(a, e, e.len() - 1);
    assert((a + e).drop_last() =~= a + e.take(e.len() - 1));
    assert((a + e).last() == e.last());
    assert(visible_fold(a + e) == visible_fold(a));
    lemma_visible_fold_suffix(a + e, a, b);
}

} // verus!
