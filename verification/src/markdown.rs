//! The document viewer's model of a markdown text: which lines it shows
//! and how each piece of a line is styled.

use vstd::prelude::*;
use crate::chars::{
    char_rows, concat_chars, from_chars, has_prefix, lines, skip_chars, split_lines, starts_with,
    take_chars, to_chars, trim, trim_chars,
};

verus! {

/// How a piece of a viewed document line is drawn.
#[derive(Clone, Copy, Debug, PartialEq, Eq, Structural)]
pub enum MdStyle {
    /// Body text.
    Text,
    /// A line inside a fenced code block.
    Code,
    /// A first- or second-level heading (accent colour, bold).
    Title,
    /// A third-level heading or a list marker (accent colour).
    Accent,
}

/// A piece of a document line with its style.
#[derive(Clone, Debug)]
pub struct MdSpan {
    pub text: String,
    pub style: MdStyle,
}

/// One line of the viewed document; a blank line has no pieces.
#[derive(Clone, Debug)]
pub struct MdLine {
    pub spans: Vec<MdSpan>,
}

/// The spec form of a document line: its pieces' texts and styles.
pub type SpecMdLine = Seq<(Seq<char>, MdStyle)>;

impl View for MdSpan {
    type V = (Seq<char>, MdStyle);

    open spec fn view(&self) -> (Seq<char>, MdStyle) {
        (self.text@, self.style)
    }
}

impl View for MdLine {
    type V = SpecMdLine;

    open spec fn view(&self) -> SpecMdLine {
        self.spans@.map_values(|s: MdSpan| s@)
    }
}

/// The spec form of a sequence of document lines.
pub open spec fn md_rows(v: Seq<MdLine>) -> Seq<SpecMdLine> {
    v.map_values(|l: MdLine| l@)
}

/// What `str::to_uppercase` returns for a string.
pub uninterp spec fn uppercase(s: Seq<char>) -> Seq<char>;

/// `str::to_uppercase`: the Unicode upper-case mapping of `s`. Its result
/// is named by `uppercase`; nothing more is stated of it.
#[verifier::external_body]
fn to_uppercase(s: &str) -> (r: String)
    ensures
        r@ == uppercase(s@),
{
    s.to_uppercase()
}

/// The fence that opens and closes a code block.
pub open spec fn fence() -> Seq<char> {
    seq!['`', '`', '`']
}

/// Whether `t` starts a numbered item: a digit from 1 to 5, a dot, a space.
pub open spec fn numbered(t: Seq<char>) -> bool {
    t.len() >= 3 && '1' <= t[0] <= '5' && t[1] == '.' && t[2] == ' '
}

/// The state of the viewer's reading of a document, line after line.
pub struct MdState {
    /// Whether a code block is open.
    pub in_code: bool,
    /// The paragraph text gathered so far.
    pub para: Seq<char>,
    /// The lines produced so far.
    pub out: Seq<SpecMdLine>,
}

/// `out` with the gathered paragraph added as a body-text line, if any.
pub open spec fn flush(para: Seq<char>, out: Seq<SpecMdLine>) -> Seq<SpecMdLine> {
    if para.len() > 0 {
        out.push(seq![(para, MdStyle::Text)])
    } else {
        out
    }
}

/// The state after reading one more line of the document. A fence line
/// (trimmed, it starts with three backquotes) opens or closes a code block;
/// inside a block each line is shown as it stands. Outside: a blank line
/// ends the paragraph and shows as blank; `# `, `## ` and `### ` headings,
/// `* ` or `- ` items and `1. ` to `5. ` items end the paragraph and show
/// as their own lines; any other line joins the paragraph after a space.
pub open spec fn md_step(st: MdState, line: Seq<char>) -> MdState {
    let t = trim(line);
    let blank: SpecMdLine = seq![];
    if has_prefix(t, fence()) {
        MdState { in_code: !st.in_code, para: seq![], out: flush(st.para, st.out) }
    } else if st.in_code {
        MdState { out: st.out.push(seq![(line, MdStyle::Code)]), ..st }
    } else if t.len() == 0 {
        MdState { in_code: false, para: seq![], out: flush(st.para, st.out).push(blank) }
    } else if has_prefix(t, seq!['#', ' ']) {
        let title = seq!['=', '=', '=', ' '] + uppercase(t.skip(2)) + seq![' ', '=', '=', '='];
        MdState {
            in_code: false,
            para: seq![],
            out: flush(st.para, st.out).push(blank).push(seq![(title, MdStyle::Title)]).push(blank),
        }
    } else if has_prefix(t, seq!['#', '#', ' ']) {
        let title = seq!['-', '-', '-', ' '] + t.skip(3) + seq![' ', '-', '-', '-'];
        MdState {
            in_code: false,
            para: seq![],
            out: flush(st.para, st.out).push(blank).push(seq![(title, MdStyle::Title)]).push(blank),
        }
    } else if has_prefix(t, seq!['#', '#', '#', ' ']) {
        MdState {
            in_code: false,
            para: seq![],
            out: flush(st.para, st.out).push(seq![(t.skip(4), MdStyle::Accent)]),
        }
    } else if has_prefix(t, seq!['*', ' ']) || has_prefix(t, seq!['-', ' ']) {
        MdState {
            in_code: false,
            para: seq![],
            out: flush(st.para, st.out).push(
                seq![(seq![' ', '\u{2022}', ' '], MdStyle::Accent), (t.skip(2), MdStyle::Text)],
            ),
        }
    } else if numbered(t) {
        MdState {
            in_code: false,
            para: seq![],
            out: flush(st.para, st.out).push(
                seq![
                    (seq![' ', ' '] + t.take(3) + seq![' '], MdStyle::Accent),
                    (t.skip(3), MdStyle::Text),
                ],
            ),
        }
    } else {
        MdState {
            in_code: false,
            para: if st.para.len() > 0 { st.para + seq![' '] + t } else { t },
            out: st.out,
        }
    }
}

/// The state after reading the lines `ls` from the start.
pub open spec fn md_fold(ls: Seq<Seq<char>>) -> MdState
    decreases ls.len(),
{
    if ls.len() == 0 {
        MdState { in_code: false, para: seq![], out: seq![] }
    } else {
        md_step(md_fold(ls.drop_last()), ls.last())
    }
}

/// The lines the viewer shows for the document `content`.
pub open spec fn markdown_view(content: Seq<char>) -> Seq<SpecMdLine> {
    let st = md_fold(lines(content));
    flush(st.para, st.out)
}

fn mk_span(text: &[char], style: MdStyle) -> (s: MdSpan)
    ensures
        s@ == (text@, style),
{
    MdSpan { text: from_chars(text), style }
}

fn push_line(out: &mut Vec<MdLine>, spans: Vec<MdSpan>)
    ensures
        md_rows(final(out)@) == md_rows(old(out)@).push(spans@.map_values(|s: MdSpan| s@)),
{
    let ghost old_rows = md_rows(out@);
    let l = MdLine { spans };
    out.push(l);
    assert(md_rows(out@) =~= old_rows.push(l@));
}

fn push_blank(out: &mut Vec<MdLine>)
    ensures
        md_rows(final(out)@) == md_rows(old(out)@).push(Seq::<(Seq<char>, MdStyle)>::empty()),
{
    let spans: Vec<MdSpan> = Vec::new();
    assert(spans@.map_values(|s: MdSpan| s@) =~= Seq::<(Seq<char>, MdStyle)>::empty());
    push_line(out, spans);
}

fn push_one(out: &mut Vec<MdLine>, text: &[char], style: MdStyle)
    ensures
        md_rows(final(out)@) == md_rows(old(out)@).push(seq![(text@, style)]),
{
    let mut spans: Vec<MdSpan> = Vec::new();
    spans.push(mk_span(text, style));
    assert(spans@.map_values(|s: MdSpan| s@) =~= seq![(text@, style)]);
    push_line(out, spans);
}

fn push_two(out: &mut Vec<MdLine>, a: &[char], sa: MdStyle, b: &[char], sb: MdStyle)
    ensures
        md_rows(final(out)@) == md_rows(old(out)@).push(seq![(a@, sa), (b@, sb)]),
{
    let mut spans: Vec<MdSpan> = Vec::new();
    spans.push(mk_span(a, sa));
    spans.push(mk_span(b, sb));
    assert(spans@.map_values(|s: MdSpan| s@) =~= seq![(a@, sa), (b@, sb)]);
    push_line(out, spans);
}

/// The reading state as executable values.
struct MdReader {
    in_code: bool,
    para: Vec<char>,
    out: Vec<MdLine>,
}

impl MdReader {
    spec fn state(&self) -> MdState {
        MdState { in_code: self.in_code, para: self.para@, out: md_rows(self.out@) }
    }

    fn flush(&mut self)
        ensures
            final(self).in_code == old(self).in_code,
            final(self).para@ == Seq::<char>::empty(),
            md_rows(final(self).out@) == flush(old(self).para@, md_rows(old(self).out@)),
    {
        if self.para.len() > 0 {
            let mut p: Vec<char> = Vec::new();
            std::mem::swap(&mut p, &mut self.para);
            push_one(&mut self.out, p.as_slice(), MdStyle::Text);
        } else {
            self.para = Vec::new();
        }
    }

    fn step(&mut self, line: &[char])
        ensures
            final(self).state() == md_step(old(self).state(), line@),
    {
        let t = trim_chars(line);
        let ts = t.as_slice();
        let ghost tv = t@;
        let ghost st = self.state();
        if starts_with(ts, &['`', '`', '`']) {
            self.flush();
            self.in_code = !self.in_code;
            return;
        }
        if self.in_code {
            push_one(&mut self.out, line, MdStyle::Code);
            return;
        }
        if t.len() == 0 {
            self.flush();
            push_blank(&mut self.out);
            return;
        }
        if starts_with(ts, &['#', ' ']) {
            self.flush();
            let rest = from_chars(skip_chars(ts, 2).as_slice());
            let up = to_chars(to_uppercase(rest.as_str()).as_str());
            let title = concat_chars(
                concat_chars(&['=', '=', '=', ' '], up.as_slice()).as_slice(),
                &[' ', '=', '=', '='],
            );
            push_blank(&mut self.out);
            push_one(&mut self.out, title.as_slice(), MdStyle::Title);
            push_blank(&mut self.out);
            return;
        }
        if starts_with(ts, &['#', '#', ' ']) {
            self.flush();
            let rest = skip_chars(ts, 3);
            let title = concat_chars(
                concat_chars(&['-', '-', '-', ' '], rest.as_slice()).as_slice(),
                &[' ', '-', '-', '-'],
            );
            push_blank(&mut self.out);
            push_one(&mut self.out, title.as_slice(), MdStyle::Title);
            push_blank(&mut self.out);
            return;
        }
        if starts_with(ts, &['#', '#', '#', ' ']) {
            self.flush();
            let rest = skip_chars(ts, 4);
            push_one(&mut self.out, rest.as_slice(), MdStyle::Accent);
            return;
        }
        if starts_with(ts, &['*', ' ']) || starts_with(ts, &['-', ' ']) {
            self.flush();
            let rest = skip_chars(ts, 2);
            push_two(
                &mut self.out,
                &[' ', '\u{2022}', ' '],
                MdStyle::Accent,
                rest.as_slice(),
                MdStyle::Text,
            );
            return;
        }
        if t.len() >= 3 && '1' <= ts[0] && ts[0] <= '5' && ts[1] == '.' && ts[2] == ' ' {
            self.flush();
            let marker = concat_chars(
                concat_chars(&[' ', ' '], take_chars(ts, 3).as_slice()).as_slice(),
                &[' '],
            );
            let rest = skip_chars(ts, 3);
            assert(numbered(tv));
            assert(marker@ =~= seq![' ', ' '] + tv.take(3) + seq![' ']);
            push_two(&mut self.out, marker.as_slice(), MdStyle::Accent, rest.as_slice(), MdStyle::Text);
            assert(self.state() == md_step(st, line@));
            return;
        }
        assert(!numbered(tv));
        if self.para.len() > 0 {
            self.para.push(' ');
        }
        let mut k: usize = 0;
        let ghost p0 = self.para@;
        let ghost out0 = self.out@;
        while k < t.len()
            invariant
                k <= t@.len(),
                self.out@ == out0,
                !self.in_code,
                self.para@ == p0 + t@.take(k as int),
            decreases t@.len() - k,
        {
            self.para.push(t[k]);
            k = k + 1;
            assert(self.para@ =~= p0 + t@.take(k as int));
        }
        assert(t@.take(k as int) =~= t@);
        assert(self.para@ =~= md_step(st, line@).para);
    }
}

/// The lines the document viewer shows for a markdown text, each piece
/// with its style: headings set apart by blank lines (first-level ones in
/// upper case), list items with their markers, code blocks line by line,
/// and consecutive text lines joined into one paragraph line.
pub fn parse_markdown_to_lines(content: &str) -> (r: Vec<MdLine>)
    ensures
        md_rows(r@) == markdown_view(content@),
{
    let v = to_chars(content);
    let ls = split_lines(v.as_slice());
    let mut rd = MdReader { in_code: false, para: Vec::new(), out: Vec::new() };
    assert(md_rows(rd.out@) =~= Seq::<SpecMdLine>::empty());
    let mut i: usize = 0;
    while i < ls.len()
        invariant
            i <= ls@.len(),
            char_rows(ls@) == lines(content@),
            rd.state() == md_fold(char_rows(ls@).take(i as int)),
        decreases ls@.len() - i,
    {
        proof {
            assert(char_rows(ls@).take(i + 1).drop_last() =~= char_rows(ls@).take(i as int));
        }
        rd.step(ls[i].as_slice());
        i = i + 1;
    }
    assert(char_rows(ls@).take(i as int) =~= char_rows(ls@));
    rd.flush();
    rd.out
}

/// Inside a code block every line that is not a fence is shown as it
/// stands, in the code style, and the block stays open.
pub proof fn lemma_code_lines_verbatim(st: MdState, line: Seq<char>)
    requires
        st.in_code,
        !has_prefix(trim(line), fence()),
    ensures
        md_step(st, line) == (MdState {
            in_code: true,
            para: st.para,
            out: st.out.push(seq![(line, MdStyle::Code)]),
        }),
{
}

/// While a code block is open no paragraph text is pending, so the text
/// before a fence is shown before the block.
pub proof fn lemma_no_paragraph_in_code(ls: Seq<Seq<char>>)
    ensures
        md_fold(ls).in_code ==> md_fold(ls).para.len() == 0,
    decreases ls.len(),
{
    if ls.len() > 0 {
        lemma_no_paragraph_in_code(ls.drop_last());
    }
}

/// Consecutive ordinary text lines outside a code block are joined into
/// one paragraph, with one space between their trimmed texts.
pub proof fn lemma_text_lines_join(st: MdState, line: Seq<char>)
    requires
        !st.in_code,
        trim(line).len() > 0,
        !has_prefix(trim(line), fence()),
        !has_prefix(trim(line), seq!['#', ' ']),
        !has_prefix(trim(line), seq!['#', '#', ' ']),
        !has_prefix(trim(line), seq!['#', '#', '#', ' ']),
        !has_prefix(trim(line), seq!['*', ' ']),
        !has_prefix(trim(line), seq!['-', ' ']),
        !numbered(trim(line)),
    ensures
        md_step(st, line).out == st.out,
        !md_step(st, line).in_code,
        md_step(st, line).para == if st.para.len() > 0 {
            st.para + seq![' '] + trim(line)
        } else {
            trim(line)
        },
{
}

/// Whether the trimmed line `t` is a heading or a list item: `# `, `## `,
/// `### `, `* `, `- `, or `1. ` to `5. `.
pub open spec fn is_structured(t: Seq<char>) -> bool {
    ||| has_prefix(t, seq!['#', ' '])
    ||| has_prefix(t, seq!['#', '#', ' '])
    ||| has_prefix(t, seq!['#', '#', '#', ' '])
    ||| has_prefix(t, seq!['*', ' '])
    ||| has_prefix(t, seq!['-', ' '])
    ||| numbered(t)
}

/// Reading a line only adds lines after those already shown; and outside
/// a code block a heading or list line leaves no paragraph pending: the
/// paragraph gathered before it is shown first, as one body-text line, and
/// the heading or item comes after it.
pub proof fn lemma_md_step_keeps_order(st: MdState, line: Seq<char>)
    ensures
        md_step(st, line).out.len() >= st.out.len(),
        md_step(st, line).out.take(st.out.len() as int) == st.out,
        !st.in_code && !has_prefix(trim(line), fence()) && is_structured(trim(line)) ==> {
            let next = md_step(st, line);
            &&& next.para.len() == 0
            &&& !next.in_code
            &&& st.para.len() > 0 ==> next.out.len() > st.out.len() + 1 && next.out[st.out.len() as int]
                == seq![(st.para, MdStyle::Text)]
            &&& st.para.len() == 0 ==> next.out.len() > st.out.len()
        },
{
    let next = md_step(st, line);
    let f = flush(st.para, st.out);
    assert(f.take(st.out.len() as int) =~= st.out);
    assert(next.out.take(st.out.len() as int) =~= st.out);
}

/// The lines shown for the first lines of a document come first, in the
/// same order, among those shown for the whole document.
pub proof fn lemma_md_fold_keeps_order(ls: Seq<Seq<char>>, k: int)
    requires
        0 <= k <= ls.len(),
    ensures
        md_fold(ls.take(k)).out.len() <= md_fold(ls).out.len(),
        md_fold(ls).out.take(md_fold(ls.take(k)).out.len() as int) == md_fold(ls.take(k)).out,
    decreases ls.len() - k,
{
    if k == ls.len() {
        assert(ls.take(k) =~= ls);
        assert(md_fold(ls).out.take(md_fold(ls).out.len() as int) =~= md_fold(ls).out);
    } else {
        lemma_md_fold_keeps_order(ls, k + 1);
        let a = ls.take(k + 1);
        assert(a.drop_last() =~= ls.take(k));
        lemma_md_step_keeps_order(md_fold(ls.take(k)), a.last());
        let o1 = md_fold(ls.take(k)).out;
        let o2 = md_fold(a).out;
        let o3 = md_fold(ls).out;
        assert(o3.take(o1.len() as int) =~= o2.take(o1.len() as int));
    }
}

} // verus!
