//! The user's own preferences and the text of the file that keeps them
//! (`config.yaml`): one `key: value` line per setting, lists separated by
//! semicolons.

use vstd::prelude::*;
use vstd::string::StringExecFns;
use crate::chars::{
    char_rows, chars_equal, from_chars, is_ws, lines, lines_fold, opt_chars, push_char, skip_chars, split_lines, strip_cr,
    take_chars, to_chars, trim, trim_chars, trim_end, trim_start,
};
use crate::logger::{decimal, digit_char, push_decimal};
use crate::registry::{all_digits, digits_value, parse_u32, parsed_u32};

verus! {

/// The user's own preferences.
#[derive(Clone, Debug, PartialEq, Eq)]
pub struct LocalConfig {
    /// File name of the screensaver last applied from the list.
    pub last_selected: Option<String>,
    /// Whether the machine is kept awake.
    pub prevent_sleep: bool,
    /// Whether stock screensavers are left out of the list.
    pub hide_stock: bool,
    /// Seconds each screensaver runs in a random cycle.
    pub random_cycle_secs: u32,
    /// Addresses of the online screensaver catalogs.
    pub feed_urls: Vec<String>,
    /// Paths of the screensavers the random cycle runs.
    pub selected_paths: Vec<String>,
}

/// The preferences as text.
pub struct LocalView {
    pub last_selected: Option<Seq<char>>,
    pub prevent_sleep: bool,
    pub hide_stock: bool,
    pub random_cycle_secs: u32,
    pub feed_urls: Seq<Seq<char>>,
    pub selected_paths: Seq<Seq<char>>,
}

impl View for LocalConfig {
    type V = LocalView;

    open spec fn view(&self) -> LocalView {
        LocalView {
            last_selected: opt_chars(self.last_selected),
            prevent_sleep: self.prevent_sleep,
            hide_stock: self.hide_stock,
            random_cycle_secs: self.random_cycle_secs,
            feed_urls: self.feed_urls.deep_view(),
            selected_paths: self.selected_paths.deep_view(),
        }
    }
}

/// The preferences before any are set: nothing selected, sleep allowed,
/// stock screensavers shown, five-minute cycles, no feeds, nothing in the
/// cycle.
pub open spec fn default_local() -> LocalView {
    LocalView {
        last_selected: None,
        prevent_sleep: false,
        hide_stock: false,
        random_cycle_secs: 300,
        feed_urls: seq![],
        selected_paths: seq![],
    }
}

impl Default for LocalConfig {
    fn default() -> (c: LocalConfig)
        ensures
            c@ == default_local(),
            c.last_selected is None,
            !c.prevent_sleep,
            !c.hide_stock,
            c.random_cycle_secs == 300,
    {
        let c = LocalConfig {
            last_selected: None,
            prevent_sleep: false,
            hide_stock: false,
            random_cycle_secs: 300,
            feed_urls: Vec::new(),
            selected_paths: Vec::new(),
        };
        assert(c@.feed_urls =~= Seq::<Seq<char>>::empty());
        assert(c@.selected_paths =~= Seq::<Seq<char>>::empty());
        c
    }
}

/// The position of the first `c` in `s`, if any.
pub open spec fn first_index(s: Seq<char>, c: char) -> Option<int>
    decreases s.len(),
{
    if s.len() == 0 {
        None
    } else {
        match first_index(s.drop_last(), c) {
            Some(i) => Some(i),
            None => if s.last() == c { Some(s.len() - 1) } else { None },
        }
    }
}

/// The pieces finished so far and the piece in progress after reading `s`,
/// pieces being separated by `sep`.
pub open spec fn split_fold(s: Seq<char>, sep: char) -> (Seq<Seq<char>>, Seq<char>)
    decreases s.len(),
{
    if s.len() == 0 {
        (seq![], seq![])
    } else {
        let (done, cur) = split_fold(s.drop_last(), sep);
        if s.last() == sep {
            (done.push(cur), seq![])
        } else {
            (done, cur.push(s.last()))
        }
    }
}

/// The pieces, trimmed, that are not empty.
pub open spec fn kept_items(ps: Seq<Seq<char>>) -> Seq<Seq<char>>
    decreases ps.len(),
{
    if ps.len() == 0 {
        seq![]
    } else {
        let rest = kept_items(ps.drop_last());
        let t = trim(ps.last());
        if t.len() == 0 {
            rest
        } else {
            rest.push(t)
        }
    }
}

/// The list a value holds: its semicolon-separated parts, trimmed, the
/// empty ones left out.
pub open spec fn list_value(s: Seq<char>) -> Seq<Seq<char>> {
    let (done, cur) = split_fold(s, ';');
    kept_items(done.push(cur))
}

/// The switch a value sets: "true" or "false"; any other value sets none.
pub open spec fn bool_value(s: Seq<char>) -> Option<bool> {
    if s == "true"@ {
        Some(true)
    } else if s == "false"@ {
        Some(false)
    } else {
        None
    }
}

/// The preferences after reading one line: a line `key: value` (key and
/// value trimmed) sets the setting the key names; an empty
/// `last_selected` clears it; a switch or number that does not read as one
/// leaves the setting; lines without a colon and unknown keys are skipped.
pub open spec fn apply_line(c: LocalView, line: Seq<char>) -> LocalView {
    match first_index(line, ':') {
        None => c,
        Some(i) => {
            let key = trim(line.take(i));
            let value = trim(line.skip(i + 1));
            if key == "last_selected"@ {
                LocalView { last_selected: if value.len() == 0 { None } else { Some(value) }, ..c }
            } else if key == "prevent_sleep"@ {
                match bool_value(value) {
                    Some(b) => LocalView { prevent_sleep: b, ..c },
                    None => c,
                }
            } else if key == "hide_stock"@ {
                match bool_value(value) {
                    Some(b) => LocalView { hide_stock: b, ..c },
                    None => c,
                }
            } else if key == "random_cycle_secs"@ {
                match parsed_u32(value) {
                    Some(n) => LocalView { random_cycle_secs: n, ..c },
                    None => c,
                }
            } else if key == "feed_urls"@ {
                LocalView { feed_urls: list_value(value), ..c }
            } else if key == "selected_paths"@ {
                LocalView { selected_paths: list_value(value), ..c }
            } else {
                c
            }
        },
    }
}

/// The preferences after reading the lines `ls` in order, from `c`.
pub open spec fn apply_lines(ls: Seq<Seq<char>>, c: LocalView) -> LocalView
    decreases ls.len(),
{
    if ls.len() == 0 {
        c
    } else {
        apply_line(apply_lines(ls.drop_last(), c), ls.last())
    }
}

/// The preferences a file's text gives: its lines read in order over the
/// defaults, a later line overriding an earlier one.
pub open spec fn parsed_local(text: Seq<char>) -> LocalView {
    apply_lines(lines(text), default_local())
}

fn first_colon(v: &[char]) -> (r: Option<usize>)
    ensures
        match r {
            Some(i) => first_index(v@, ':') == Some(i as int),
            None => first_index(v@, ':') is None,
        },
        r matches Some(i) ==> i < v@.len(),
{
    let mut i: usize = 0;
    while i < v.len()
        invariant
            i <= v@.len(),
            first_index(v@.take(i as int), ':') is None,
        decreases v@.len() - i,
    {
        proof {
            assert(v@.take(i + 1).drop_last() =~= v@.take(i as int));
        }
        if v[i] == ':' {
            proof {
                lemma_first_index_prefix(v@, i as int);
            }
            return Some(i);
        }
        i = i + 1;
    }
    assert(v@.take(i as int) =~= v@);
    None
}

/// A first occurrence found in a prefix is the first occurrence.
proof fn lemma_first_index_prefix(s: Seq<char>, k: int)
    requires
        0 <= k < s.len(),
        first_index(s.take(k), ':') is None,
        s[k] == ':',
    ensures
        first_index(s, ':') == Some(k),
    decreases s.len() - k,
{
    if k + 1 == s.len() {
        assert(s.drop_last() =~= s.take(k));
    } else {
        assert(s.drop_last().take(k) =~= s.take(k));
        lemma_first_index_prefix(s.drop_last(), k);
    }
}

/// The list a value holds (see `list_value`).
fn read_list(v: &[char]) -> (r: Vec<String>)
    ensures
        r.deep_view() == list_value(v@),
{
    let mut done: Vec<Vec<char>> = Vec::new();
    let mut cur: Vec<char> = Vec::new();
    let mut i: usize = 0;
    while i < v.len()
        invariant
            i <= v@.len(),
            (char_rows(done@), cur@) == split_fold(v@.take(i as int), ';'),
        decreases v@.len() - i,
    {
        proof {
            assert(v@.take(i + 1).drop_last() =~= v@.take(i as int));
        }
        let c = v[i];
        if c == ';' {
            let ghost before = char_rows(done@);
            let piece = cur;
            done.push(piece);
            cur = Vec::new();
            assert(char_rows(done@) =~= before.push(piece@));
        } else {
            cur.push(c);
        }
        i = i + 1;
    }
    assert(v@.take(i as int) =~= v@);
    let ghost before = char_rows(done@);
    let last = cur;
    done.push(last);
    assert(char_rows(done@) =~= before.push(last@));
    let ghost pieces = char_rows(done@);
    let mut r: Vec<String> = Vec::new();
    let mut j: usize = 0;
    while j < done.len()
        invariant
            j <= done@.len(),
            pieces == char_rows(done@),
            r.deep_view() == kept_items(pieces.take(j as int)),
        decreases done@.len() - j,
    {
        proof {
            assert(pieces.take(j + 1).drop_last() =~= pieces.take(j as int));
        }
        let t = trim_chars(done[j].as_slice());
        if t.len() > 0 {
            let ghost rv = r.deep_view();
            r.push(from_chars(t.as_slice()));
            assert(r.deep_view() =~= rv.push(t@));
        }
        j = j + 1;
    }
    assert(pieces.take(j as int) =~= pieces);
    r
}

fn is_text(v: &[char], w: &str) -> (r: bool)
    ensures
        r == (v@ == w@),
{
    let wv = to_chars(w);
    chars_equal(v, wv.as_slice())
}

fn read_bool(v: &[char]) -> (r: Option<bool>)
    ensures
        r == bool_value(v@),
{
    if is_text(v, "true") {
        Some(true)
    } else if is_text(v, "false") {
        Some(false)
    } else {
        None
    }
}

/// Reads one line into the preferences (see `apply_line`).
fn read_line(c: &mut LocalConfig, line: &[char])
    ensures
        final(c)@ == apply_line(old(c)@, line@),
{
    let i = match first_colon(line) {
        Some(i) => i,
        None => return,
    };
    assert(i < line.len());
    let key = trim_chars(take_chars(line, i).as_slice());
    let value = trim_chars(skip_chars(line, i + 1).as_slice());
    if is_text(key.as_slice(), "last_selected") {
        c.last_selected = if value.len() == 0 { None } else { Some(from_chars(value.as_slice())) };
    } else if is_text(key.as_slice(), "prevent_sleep") {
        if let Some(b) = read_bool(value.as_slice()) {
            c.prevent_sleep = b;
        }
    } else if is_text(key.as_slice(), "hide_stock") {
        if let Some(b) = read_bool(value.as_slice()) {
            c.hide_stock = b;
        }
    } else if is_text(key.as_slice(), "random_cycle_secs") {
        let text = from_chars(value.as_slice());
        if let Some(n) = parse_u32(text.as_str()) {
            c.random_cycle_secs = n;
        }
    } else if is_text(key.as_slice(), "feed_urls") {
        c.feed_urls = read_list(value.as_slice());
    } else if is_text(key.as_slice(), "selected_paths") {
        c.selected_paths = read_list(value.as_slice());
    }
}

/// Reads the preferences file's text (see `parsed_local`).
pub fn parse_local_config(text: &str) -> (c: LocalConfig)
    ensures
        c@ == parsed_local(text@),
{
    let v = to_chars(text);
    let ls = split_lines(v.as_slice());
    let ghost rows = char_rows(ls@);
    let mut c = LocalConfig::default();
    let mut i: usize = 0;
    while i < ls.len()
        invariant
            i <= ls@.len(),
            rows == char_rows(ls@),
            rows == lines(text@),
            c@ == apply_lines(rows.take(i as int), default_local()),
        decreases ls@.len() - i,
    {
        proof {
            assert(rows.take(i + 1).drop_last() =~= rows.take(i as int));
        }
        read_line(&mut c, ls[i].as_slice());
        i = i + 1;
    }
    assert(rows.take(i as int) =~= rows);
    c
}

/// The items of a list separated by semicolons.
pub open spec fn joined(items: Seq<Seq<char>>) -> Seq<char>
    decreases items.len(),
{
    if items.len() == 0 {
        seq![]
    } else if items.len() == 1 {
        items[0]
    } else {
        joined(items.drop_last()) + seq![';'] + items.last()
    }
}

/// "true" or "false".
pub open spec fn bool_text(b: bool) -> Seq<char> {
    if b {
        "true"@
    } else {
        "false"@
    }
}

/// The text of the last selected screensaver: its name, or nothing.
pub open spec fn name_text(n: Option<Seq<char>>) -> Seq<char> {
    match n {
        Some(t) => t,
        None => seq![],
    }
}

/// The lines of the preferences file for `c`, one per setting, in the
/// order last_selected, prevent_sleep, hide_stock, random_cycle_secs,
/// feed_urls, selected_paths, each `key: value`.
pub open spec fn local_lines(c: LocalView) -> Seq<Seq<char>> {
    seq![
        "last_selected: "@ + name_text(c.last_selected),
        "prevent_sleep: "@ + bool_text(c.prevent_sleep),
        "hide_stock: "@ + bool_text(c.hide_stock),
        "random_cycle_secs: "@ + decimal(c.random_cycle_secs as nat),
        "feed_urls: "@ + joined(c.feed_urls),
        "selected_paths: "@ + joined(c.selected_paths),
    ]
}

/// Lines written out, each followed by a line break.
pub open spec fn text_of_lines(ls: Seq<Seq<char>>) -> Seq<char>
    decreases ls.len(),
{
    if ls.len() == 0 {
        seq![]
    } else {
        text_of_lines(ls.drop_last()) + ls.last() + seq!['\n']
    }
}

/// The preferences file's text for `c` (see `local_lines`).
pub open spec fn rendered_local(c: LocalView) -> Seq<char> {
    text_of_lines(local_lines(c))
}

fn push_joined(s: &mut String, items: &Vec<String>)
    ensures
        final(s)@ == old(s)@ + joined(items.deep_view()),
{
    let ghost start = s@;
    let ghost all = items.deep_view();
    let mut i: usize = 0;
    while i < items.len()
        invariant
            i <= all.len(),
            all == items.deep_view(),
            s@ == start + joined(all.take(i as int)),
        decreases all.len() - i,
    {
        proof {
            assert(all.take(i + 1).drop_last() =~= all.take(i as int));
        }
        if i > 0 {
            push_char(s, ';');
        }
        s.append(items[i].as_str());
        proof {
            if i == 0 {
                assert(s@ =~= start + joined(all.take(1)));
            } else {
                assert(s@ =~= start + joined(all.take(i + 1)));
            }
        }
        i = i + 1;
    }
    assert(all.take(i as int) =~= all);
}

/// The preferences file's text (see `rendered_local`).
pub fn render_local_config(c: &LocalConfig) -> (r: String)
    ensures
        r@ == rendered_local(c@),
{
    let mut l0 = String::from_str("last_selected: ");
    match &c.last_selected {
        Some(n) => l0.append(n.as_str()),
        None => {},
    }
    let mut l1 = String::from_str("prevent_sleep: ");
    l1.append(if c.prevent_sleep { "true" } else { "false" });
    let mut l2 = String::from_str("hide_stock: ");
    l2.append(if c.hide_stock { "true" } else { "false" });
    let mut l3 = String::from_str("random_cycle_secs: ");
    push_decimal(&mut l3, c.random_cycle_secs as u64);
    let mut l4 = String::from_str("feed_urls: ");
    push_joined(&mut l4, &c.feed_urls);
    let mut l5 = String::from_str("selected_paths: ");
    push_joined(&mut l5, &c.selected_paths);
    let ls = vec![l0, l1, l2, l3, l4, l5];
    let ghost want = local_lines(c@);
    assert(ls.deep_view() =~= want);
    let mut s = String::new();
    let mut i: usize = 0;
    while i < ls.len()
        invariant
            i <= ls@.len(),
            ls.deep_view() == want,
            s@ == text_of_lines(want.take(i as int)),
        decreases ls@.len() - i,
    {
        proof {
            assert(want.take(i + 1).drop_last() =~= want.take(i as int));
        }
        s.append(ls[i].as_str());
        push_char(&mut s, '\n');
        assert(s@ =~= text_of_lines(want.take(i + 1)));
        i = i + 1;
    }
    assert(want.take(i as int) =~= want);
    s
}

/// `s` has no whitespace at either end.
pub open spec fn bare(s: Seq<char>) -> bool {
    s.len() == 0 || (!is_ws(s[0]) && !is_ws(s.last()))
}

/// `s` has no line break.
pub open spec fn one_line(s: Seq<char>) -> bool {
    forall|i: int| 0 <= i < s.len() ==> s[i] != '\n'
}

/// `s` does not hold the character `c`.
pub open spec fn lacks(s: Seq<char>, c: char) -> bool {
    forall|i: int| 0 <= i < s.len() ==> s[i] != c
}

/// A list item the file keeps as it is: not empty, no whitespace at its
/// ends, no semicolon, no line break.
pub open spec fn clean_item(s: Seq<char>) -> bool {
    s.len() > 0 && bare(s) && lacks(s, ';') && one_line(s)
}

/// Preferences the file keeps as they are: a last selected name that is
/// not empty, has no whitespace at its ends and no line break, and list
/// items that are clean (see `clean_item`).
pub open spec fn storable(c: LocalView) -> bool {
    &&& (c.last_selected matches Some(n) ==> n.len() > 0 && bare(n) && one_line(n))
    &&& forall|i: int| 0 <= i < c.feed_urls.len() ==> clean_item(#[trigger] c.feed_urls[i])
    &&& forall|i: int| 0 <= i < c.selected_paths.len() ==> clean_item(#[trigger] c.selected_paths[i])
}

proof fn lemma_bare_trim(s: Seq<char>)
    requires
        bare(s),
    ensures
        trim(s) == s,
{
    assert(trim_start(s) == s);
    assert(trim_end(s) == s);
}

proof fn lemma_trim_after_space(v: Seq<char>)
    ensures
        trim(seq![' '] + v) == trim(v),
{
    let s = seq![' '] + v;
    assert(is_ws(s[0]));
    assert(s.drop_first() =~= v);
    assert(trim_start(s) == trim_start(v));
}

proof fn lemma_lines_fold_append(s: Seq<char>, t: Seq<char>)
    requires
        one_line(t),
    ensures
        lines_fold(s + t) == (lines_fold(s).0, lines_fold(s).1 + t),
    decreases t.len(),
{
    if t.len() == 0 {
        assert(s + t =~= s);
        assert(lines_fold(s).1 + t =~= lines_fold(s).1);
    } else {
        let u = t.drop_last();
        assert((s + t).drop_last() =~= s + u);
        assert((s + t).last() == t.last());
        lemma_lines_fold_append(s, u);
        assert(lines_fold(s).1 + u.push(t.last()) =~= lines_fold(s).1 + t);
        assert(u.push(t.last()) =~= t);
        assert((lines_fold(s).1 + u).push(t.last()) =~= lines_fold(s).1 + t);
    }
}

/// Written lines read back as the same lines.
proof fn lemma_lines_of_text(ls: Seq<Seq<char>>)
    requires
        forall|i: int| 0 <= i < ls.len() ==> one_line(#[trigger] ls[i]) && (ls[i].len() == 0 || ls[i].last() != '\r'),
    ensures
        lines_fold(text_of_lines(ls)) == (ls, Seq::<char>::empty()),
        lines(text_of_lines(ls)) == ls,
    decreases ls.len(),
{
    if ls.len() == 0 {
        assert(text_of_lines(ls) =~= Seq::<char>::empty());
        assert(ls =~= Seq::<Seq<char>>::empty());
    } else {
        let pre = ls.drop_last();
        let l = ls.last();
        assert forall|i: int| 0 <= i < pre.len() implies one_line(#[trigger] pre[i]) && (pre[i].len() == 0 || pre[i].last() != '\r') by {
            assert(pre[i] == ls[i]);
        }
        lemma_lines_of_text(pre);
        let a = text_of_lines(pre);
        let t = text_of_lines(ls);
        assert(t == a + l + seq!['\n']);
        assert(t.drop_last() =~= a + l);
        assert(t.last() == '\n');
        assert(one_line(ls[ls.len() - 1]));
        lemma_lines_fold_append(a, l);
        assert(Seq::<char>::empty() + l =~= l);
        assert(strip_cr(l) == l);
        assert(pre.push(l) =~= ls);
    }
}

proof fn lemma_no_first_index(t: Seq<char>, c: char)
    requires
        lacks(t, c),
    ensures
        first_index(t, c) is None,
    decreases t.len(),
{
    if t.len() > 0 {
        lemma_no_first_index(t.drop_last(), c);
    }
}

proof fn lemma_split_fold_append(s: Seq<char>, t: Seq<char>, sep: char)
    requires
        lacks(t, sep),
    ensures
        split_fold(s + t, sep) == (split_fold(s, sep).0, split_fold(s, sep).1 + t),
    decreases t.len(),
{
    if t.len() == 0 {
        assert(s + t =~= s);
        assert(split_fold(s, sep).1 + t =~= split_fold(s, sep).1);
    } else {
        let u = t.drop_last();
        assert((s + t).drop_last() =~= s + u);
        assert((s + t).last() == t.last());
        lemma_split_fold_append(s, u, sep);
        assert((split_fold(s, sep).1 + u).push(t.last()) =~= split_fold(s, sep).1 + t);
    }
}

proof fn lemma_split_joined(items: Seq<Seq<char>>)
    requires
        items.len() > 0,
        forall|i: int| 0 <= i < items.len() ==> lacks(#[trigger] items[i], ';'),
    ensures
        split_fold(joined(items), ';') == (items.drop_last(), items.last()),
    decreases items.len(),
{
    if items.len() == 1 {
        assert(joined(items) == items[0]);
        lemma_split_fold_append(Seq::<char>::empty(), items[0], ';');
        assert(Seq::<char>::empty() + items[0] =~= items[0]);
        assert(items.drop_last() =~= Seq::<Seq<char>>::empty());
    } else {
        let pre = items.drop_last();
        assert forall|i: int| 0 <= i < pre.len() implies lacks(#[trigger] pre[i], ';') by {
            assert(pre[i] == items[i]);
        }
        lemma_split_joined(pre);
        let j = joined(pre);
        let js = j + seq![';'];
        assert(js.drop_last() =~= j);
        assert(js.last() == ';');
        assert(lacks(items[items.len() - 1], ';'));
        lemma_split_fold_append(js, items.last(), ';');
        assert(joined(items) == js + items.last());
        assert(pre.drop_last().push(pre.last()) =~= pre);
        assert(Seq::<char>::empty() + items.last() =~= items.last());
    }
}

proof fn lemma_kept_items(ps: Seq<Seq<char>>)
    requires
        forall|i: int| 0 <= i < ps.len() ==> (#[trigger] ps[i]).len() > 0 && bare(ps[i]),
    ensures
        kept_items(ps) == ps,
    decreases ps.len(),
{
    if ps.len() > 0 {
        let pre = ps.drop_last();
        assert forall|i: int| 0 <= i < pre.len() implies (#[trigger] pre[i]).len() > 0 && bare(pre[i]) by {
            assert(pre[i] == ps[i]);
        }
        lemma_kept_items(pre);
        assert(ps[ps.len() - 1].len() > 0 && bare(ps[ps.len() - 1]));
        lemma_bare_trim(ps.last());
        assert(pre.push(ps.last()) =~= ps);
    } else {
        assert(ps =~= Seq::<Seq<char>>::empty());
    }
}

/// The first and last characters of a list, and its having no line break.
proof fn lemma_joined_shape(items: Seq<Seq<char>>)
    requires
        forall|i: int| 0 <= i < items.len() ==> clean_item(#[trigger] items[i]),
    ensures
        one_line(joined(items)),
        items.len() > 0 ==> joined(items).len() > 0 && joined(items)[0] == items[0][0] && joined(items).last()
            == items.last().last(),
    decreases items.len(),
{
    if items.len() == 1 {
        assert(clean_item(items[0]));
    } else if items.len() > 1 {
        let pre = items.drop_last();
        assert forall|i: int| 0 <= i < pre.len() implies clean_item(#[trigger] pre[i]) by {
            assert(pre[i] == items[i]);
        }
        lemma_joined_shape(pre);
        let l = items.last();
        assert(clean_item(items[items.len() - 1]));
        let j = joined(items);
        assert(j == joined(pre) + seq![';'] + l);
        assert forall|i: int| 0 <= i < j.len() implies j[i] != '\n' by {
            if i < joined(pre).len() {
                assert(j[i] == joined(pre)[i]);
            } else if i > joined(pre).len() {
                assert(j[i] == l[i - joined(pre).len() - 1]);
            }
        }
        assert(pre[0] == items[0]);
    }
}

/// A list written out reads back as the same list.
proof fn lemma_list_roundtrip(items: Seq<Seq<char>>)
    requires
        forall|i: int| 0 <= i < items.len() ==> clean_item(#[trigger] items[i]),
    ensures
        bare(joined(items)),
        one_line(joined(items)),
        list_value(joined(items)) == items,
{
    lemma_joined_shape(items);
    if items.len() == 0 {
        assert(joined(items) =~= Seq::<char>::empty());
        let ps = seq![Seq::<char>::empty()];
        assert(split_fold(Seq::<char>::empty(), ';').0.push(split_fold(Seq::<char>::empty(), ';').1) =~= ps);
        assert(ps.drop_last() =~= Seq::<Seq<char>>::empty());
        assert(trim(Seq::<char>::empty()) =~= Seq::<char>::empty());
        assert(kept_items(ps.drop_last()) =~= Seq::<Seq<char>>::empty());
        assert(ps.last() == Seq::<char>::empty());
        assert(kept_items(ps) == kept_items(ps.drop_last()));
        assert(list_value(joined(items)) == kept_items(ps));
        assert(items =~= Seq::<Seq<char>>::empty());
    } else {
        assert(clean_item(items[0]));
        assert(clean_item(items[items.len() - 1]));
        assert forall|i: int| 0 <= i < items.len() implies lacks(#[trigger] items[i], ';') by {
            assert(clean_item(items[i]));
        }
        lemma_split_joined(items);
        assert(items.drop_last().push(items.last()) =~= items);
        assert forall|i: int| 0 <= i < items.len() implies (#[trigger] items[i]).len() > 0 && bare(items[i]) by {
            assert(clean_item(items[i]));
        }
        lemma_kept_items(items);
        let (done, cur) = split_fold(joined(items), ';');
        assert(done.push(cur) == items);
    }
}

proof fn lemma_digit(d: int)
    requires
        0 <= d < 10,
    ensures
        '0' <= digit_char(d) <= '9',
        (digit_char(d) as u32) - ('0' as u32) == d,
        !is_ws(digit_char(d)),
        digit_char(d) != '+',
        digit_char(d) != '\n',
{
    let ds = seq!['0', '1', '2', '3', '4', '5', '6', '7', '8', '9'];
    assert(digit_char(d) == ds[d]);
    if d == 0 { assert(ds[d] == '0'); }
    else if d == 1 { assert(ds[d] == '1'); }
    else if d == 2 { assert(ds[d] == '2'); }
    else if d == 3 { assert(ds[d] == '3'); }
    else if d == 4 { assert(ds[d] == '4'); }
    else if d == 5 { assert(ds[d] == '5'); }
    else if d == 6 { assert(ds[d] == '6'); }
    else if d == 7 { assert(ds[d] == '7'); }
    else if d == 8 { assert(ds[d] == '8'); }
    else { assert(ds[d] == '9'); }
}

/// A number written in decimal reads back as the same number.
proof fn lemma_decimal_reads_back(n: nat)
    ensures
        decimal(n).len() > 0,
        all_digits(decimal(n)),
        digits_value(decimal(n)) == n,
        decimal(n)[0] != '+',
        bare(decimal(n)),
        one_line(decimal(n)),
    decreases n,
{
    let d = decimal(n);
    if n < 10 {
        lemma_digit(n as int);
        assert(d == seq![digit_char(n as int)]);
        assert(d.drop_last() =~= Seq::<char>::empty());
        assert(digits_value(d.drop_last()) == 0);
        assert(d.last() == digit_char(n as int));
        assert(digits_value(d) == digits_value(d.drop_last()) * 10 + ((d.last() as u32) - ('0' as u32)) as nat);
    } else {
        lemma_decimal_reads_back(n / 10);
        lemma_digit((n % 10) as int);
        let p = decimal(n / 10);
        assert(d == p.push(digit_char((n % 10) as int)));
        assert(d.drop_last() =~= p);
        assert(d[0] == p[0]);
        assert(d.last() == digit_char((n % 10) as int));
        assert(digits_value(d) == digits_value(p) * 10 + ((d.last() as u32) - ('0' as u32)) as nat);
        assert((n / 10) * 10 + n % 10 == n);
        assert forall|i: int| 0 <= i < d.len() implies '0' <= #[trigger] d[i] <= '9' && d[i] != '\n' by {
            if i < p.len() {
                assert(d[i] == p[i]);
            }
        }
    }
}

/// How a written `key: value` line reads back: its first colon ends the
/// key, the trimmed text before it is the key and the trimmed text after
/// it is the value; and it is one line that does not end in a carriage
/// return.
proof fn lemma_line_parts(key: Seq<char>, v: Seq<char>)
    requires
        key.len() > 0,
        lacks(key, ':'),
        lacks(key, '\n'),
        bare(key),
        bare(v),
        one_line(v),
    ensures
        first_index(key + seq![':', ' '] + v, ':') == Some(key.len() as int),
        trim((key + seq![':', ' '] + v).take(key.len() as int)) == key,
        trim((key + seq![':', ' '] + v).skip(key.len() as int + 1)) == v,
        one_line(key + seq![':', ' '] + v),
        (key + seq![':', ' '] + v).last() != '\r',
{
    let line = key + seq![':', ' '] + v;
    let k = key.len() as int;
    assert(line.take(k) =~= key);
    lemma_no_first_index(key, ':');
    assert(line[k] == ':');
    lemma_first_index_prefix(line, k);
    lemma_bare_trim(key);
    assert(line.skip(k + 1) =~= seq![' '] + v);
    lemma_trim_after_space(v);
    lemma_bare_trim(v);
    assert forall|i: int| 0 <= i < line.len() implies line[i] != '\n' by {
        if i < k {
            assert(line[i] == key[i]);
        } else if i >= k + 2 {
            assert(line[i] == v[i - k - 2]);
        }
    }
    if v.len() == 0 {
        assert(line.last() == ' ');
    } else {
        assert(line.last() == v.last());
        assert(is_ws('\r'));
    }
}

/// Preferences written to the file read back as they were, when the file
/// can hold them (see `storable`).
#[verifier::rlimit(60)]
#[verifier::spinoff_prover]
pub proof fn lemma_prefs_roundtrip(c: LocalView)
    requires
        storable(c),
    ensures
        parsed_local(rendered_local(c)) == c,
{
    reveal_strlit("last_selected");
    reveal_strlit("prevent_sleep");
    reveal_strlit("hide_stock");
    reveal_strlit("random_cycle_secs");
    reveal_strlit("feed_urls");
    reveal_strlit("selected_paths");
    reveal_strlit("last_selected: ");
    reveal_strlit("prevent_sleep: ");
    reveal_strlit("hide_stock: ");
    reveal_strlit("random_cycle_secs: ");
    reveal_strlit("feed_urls: ");
    reveal_strlit("selected_paths: ");
    reveal_strlit("true");
    reveal_strlit("false");
    let v0 = name_text(c.last_selected);
    let v1 = bool_text(c.prevent_sleep);
    let v2 = bool_text(c.hide_stock);
    let v3 = decimal(c.random_cycle_secs as nat);
    let v4 = joined(c.feed_urls);
    let v5 = joined(c.selected_paths);
    lemma_list_roundtrip(c.feed_urls);
    lemma_list_roundtrip(c.selected_paths);
    lemma_decimal_reads_back(c.random_cycle_secs as nat);
    assert(bare(v1) && one_line(v1)) by {
        assert(bare("true"@) && bare("false"@));
        assert(one_line("true"@) && one_line("false"@));
    }
    assert(bare(v2) && one_line(v2)) by {
        assert(bare("true"@) && bare("false"@));
        assert(one_line("true"@) && one_line("false"@));
    }
    let k0 = "last_selected"@;
    let k1 = "prevent_sleep"@;
    let k2 = "hide_stock"@;
    let k3 = "random_cycle_secs"@;
    let k4 = "feed_urls"@;
    let k5 = "selected_paths"@;
    assert(lacks(k0, ':') && lacks(k0, '\n') && bare(k0));
    assert(lacks(k1, ':') && lacks(k1, '\n') && bare(k1));
    assert(lacks(k2, ':') && lacks(k2, '\n') && bare(k2));
    assert(lacks(k3, ':') && lacks(k3, '\n') && bare(k3));
    assert(lacks(k4, ':') && lacks(k4, '\n') && bare(k4));
    assert(lacks(k5, ':') && lacks(k5, '\n') && bare(k5));
    lemma_line_parts(k0, v0);
    lemma_line_parts(k1, v1);
    lemma_line_parts(k2, v2);
    lemma_line_parts(k3, v3);
    lemma_line_parts(k4, v4);
    lemma_line_parts(k5, v5);
    let ls = local_lines(c);
    assert(ls[0] =~= k0 + seq![':', ' '] + v0);
    assert(ls[1] =~= k1 + seq![':', ' '] + v1);
    assert("hide_stock: "@ =~= k2 + seq![':', ' ']);
    assert(ls[2] =~= k2 + seq![':', ' '] + v2);
    assert(ls[3] =~= k3 + seq![':', ' '] + v3);
    assert(ls[4] =~= k4 + seq![':', ' '] + v4);
    assert(ls[5] =~= k5 + seq![':', ' '] + v5);
    assert forall|i: int| 0 <= i < ls.len() implies one_line(#[trigger] ls[i]) && (ls[i].len() == 0 || ls[i].last() != '\r') by {
        if i == 0 {} else if i == 1 {} else if i == 2 {} else if i == 3 {} else if i == 4 {} else {}
    }
    lemma_lines_of_text(ls);
    let d0 = default_local();
    let d1 = apply_line(d0, ls[0]);
    let d2 = apply_line(d1, ls[1]);
    let d3 = apply_line(d2, ls[2]);
    let d4 = apply_line(d3, ls[3]);
    let d5 = apply_line(d4, ls[4]);
    let d6 = apply_line(d5, ls[5]);
    assert(ls.take(0) =~= Seq::<Seq<char>>::empty());
    assert(ls.take(1).drop_last() =~= ls.take(0));
    assert(ls.take(2).drop_last() =~= ls.take(1));
    assert(ls.take(3).drop_last() =~= ls.take(2));
    assert(ls.take(4).drop_last() =~= ls.take(3));
    assert(ls.take(5).drop_last() =~= ls.take(4));
    assert(ls.take(6).drop_last() =~= ls.take(5));
    assert(ls.take(6) =~= ls);
    assert(apply_lines(ls.take(0), d0) == d0);
    assert(ls.take(1).last() == ls[0]);
    assert(ls.take(2).last() == ls[1]);
    assert(ls.take(3).last() == ls[2]);
    assert(ls.take(4).last() == ls[3]);
    assert(ls.take(5).last() == ls[4]);
    assert(ls.take(6).last() == ls[5]);
    assert(apply_lines(ls.take(1), d0) == d1);
    assert(apply_lines(ls.take(2), d0) == d2);
    assert(apply_lines(ls.take(3), d0) == d3);
    assert(apply_lines(ls.take(4), d0) == d4);
    assert(apply_lines(ls.take(5), d0) == d5);
    assert(apply_lines(ls.take(6), d0) == d6);
    assert(d1.last_selected == c.last_selected);
    assert(d2.prevent_sleep == c.prevent_sleep);
    assert(d3.hide_stock == c.hide_stock);
    assert(d4.random_cycle_secs == c.random_cycle_secs);
    assert(d5.feed_urls == c.feed_urls);
    assert(d6.selected_paths == c.selected_paths);
    assert(d6 == c);
}

} // verus!
