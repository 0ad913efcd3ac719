//! A one-line text input with a cursor.

use vstd::prelude::*;
use crate::chars::{from_chars, to_chars};

verus! {

/// The keys a text box reacts to; any other key is `Other`.
#[derive(Clone, Copy, Debug, PartialEq, Eq, Structural)]
pub enum TextKey {
    Char(char),
    Backspace,
    Delete,
    Left,
    Right,
    Home,
    End,
    Other,
}

/// A text input: its text, the cursor as a character position, and whether
/// it takes keys.
#[derive(Clone, Debug)]
pub struct TextBox {
    pub text: String,
    pub cursor_pos: usize,
    pub active: bool,
}

/// The text and cursor after one key, for a box whose cursor lies within
/// its text. An inactive box ignores every key.
pub open spec fn text_key_step(text: Seq<char>, cursor: nat, active: bool, key: TextKey) -> (
    Seq<char>,
    nat,
) {
    if !active {
        (text, cursor)
    } else {
        match key {
            TextKey::Char(c) => (text.take(cursor as int) + seq![c] + text.skip(cursor as int), cursor + 1 as nat),
            TextKey::Backspace => if cursor > 0 {
                (text.take(cursor - 1) + text.skip(cursor as int), (cursor - 1) as nat)
            } else {
                (text, cursor)
            },
            TextKey::Delete => if cursor < text.len() {
                (text.take(cursor as int) + text.skip(cursor + 1 as int), cursor)
            } else {
                (text, cursor)
            },
            TextKey::Left => (text, if cursor > 0 { (cursor - 1) as nat } else { cursor }),
            TextKey::Right => (text, if cursor < text.len() { cursor + 1 } else { cursor }),
            TextKey::Home => (text, 0),
            TextKey::End => (text, text.len()),
            TextKey::Other => (text, cursor),
        }
    }
}

impl TextBox {
    /// The cursor lies within the text (it may stand just after its end).
    pub open spec fn wf(&self) -> bool {
        self.cursor_pos <= self.text@.len()
    }

    /// An empty, inactive text box.
    pub fn new() -> (tb: TextBox)
        ensures
            tb.text@ == Seq::<char>::empty(),
            tb.cursor_pos == 0,
            !tb.active,
    {
        TextBox { text: String::new(), cursor_pos: 0, active: false }
    }

    /// Empties the text and puts the cursor at its start.
    pub fn clear(&mut self)
        ensures
            final(self).text@ == Seq::<char>::empty(),
            final(self).cursor_pos == 0,
            final(self).active == old(self).active,
    {
        self.text = String::new();
        self.cursor_pos = 0;
    }

    /// Applies one key: a character is inserted at the cursor, Backspace and
    /// Delete remove the character before or at the cursor, Left, Right,
    /// Home and End move the cursor within the text.
    pub fn handle_key(&mut self, key: TextKey)
        requires
            old(self).wf(),
        ensures
            final(self).wf(),
            final(self).active == old(self).active,
            (final(self).text@, final(self).cursor_pos as nat) == text_key_step(
                old(self).text@,
                old(self).cursor_pos as nat,
                old(self).active,
                key,
            ),
    {
        if !self.active {
            return;
        }
        let v = to_chars(self.text.as_str());
        let p = self.cursor_pos;
        let n = v.len();
        match key {
            TextKey::Char(c) => {
                let mut w = v;
                w.insert(p, c);
                let grown = w.len();
                assert(p < grown);
                assert(w@ =~= self.text@.take(p as int) + seq![c] + self.text@.skip(p as int));
                self.text = from_chars(w.as_slice());
                self.cursor_pos = p + 1;
            },
            TextKey::Backspace => {
                if p > 0 {
                    let mut w = v;
                    w.remove(p - 1);
                    assert(w@ =~= self.text@.take(p - 1) + self.text@.skip(p as int));
                    self.text = from_chars(w.as_slice());
                    self.cursor_pos = p - 1;
                }
            },
            TextKey::Delete => {
                if p < n {
                    let mut w = v;
                    w.remove(p);
                    assert(w@ =~= self.text@.take(p as int) + self.text@.skip(p + 1));
                    self.text = from_chars(w.as_slice());
                }
            },
            TextKey::Left => {
                if p > 0 {
                    self.cursor_pos = p - 1;
                }
            },
            TextKey::Right => {
                if p < n {
                    self.cursor_pos = p + 1;
                }
            },
            TextKey::Home => {
                self.cursor_pos = 0;
            },
            TextKey::End => {
                self.cursor_pos = n;
            },
            TextKey::Other => {},
        }
    }
}

impl Default for TextBox {
    fn default() -> (tb: TextBox)
        ensures
            tb.text@ == Seq::<char>::empty(),
            tb.cursor_pos == 0,
            !tb.active,
    {
        TextBox::new()
    }
}

/// Typing a character and then pressing Backspace leaves an active box as
/// it was.
pub proof fn lemma_type_then_backspace(text: Seq<char>, cursor: nat, c: char)
    requires
        cursor <= text.len(),
    ensures
        ({
            let (t1, c1) = text_key_step(text, cursor, true, TextKey::Char(c));
            text_key_step(t1, c1, true, TextKey::Backspace) == (text, cursor)
        }),
{
    let (t1, c1) = text_key_step(text, cursor, true, TextKey::Char(c));
    assert(t1.take(c1 - 1) + t1.skip(c1 as int) =~= text);
}

/// Every key keeps the cursor within the text.
pub proof fn lemma_key_keeps_cursor_in_text(text: Seq<char>, cursor: nat, active: bool, key: TextKey)
    requires
        cursor <= text.len(),
    ensures
        ({
            let (t1, c1) = text_key_step(text, cursor, active, key);
            c1 <= t1.len()
        }),
{
}

/// Keys other than a character, Backspace and Delete never change the text,
/// and an inactive box changes under no key.
pub proof fn lemma_moves_keep_text(text: Seq<char>, cursor: nat, active: bool, key: TextKey)
    requires
        cursor <= text.len(),
        !active || !(key is Char || key is Backspace || key is Delete),
    ensures
        text_key_step(text, cursor, active, key).0 == text,
        !active ==> text_key_step(text, cursor, active, key).1 == cursor,
{
}

/// Home puts the cursor at the start of the text and End just after it.
pub proof fn lemma_home_end(text: Seq<char>, cursor: nat)
    requires
        cursor <= text.len(),
    ensures
        text_key_step(text, cursor, true, TextKey::Home).1 == 0,
        text_key_step(text, cursor, true, TextKey::End).1 == text.len(),
{
}

} // verus!
