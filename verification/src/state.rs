//! Dashboard state: focus, preference fields, status messages, which
//! screensavers the list shows, and the text of each list row.

use vstd::prelude::*;
use vstd::string::StringExecFns;
use crate::chars::{chars_equal, opt_chars, to_chars};
use crate::config::opt_names;
use crate::text::{pad_right, truncate, padded, truncated};

verus! {

/// Focused section in the console dashboard.
#[derive(Debug, Clone, Copy, PartialEq, Eq, Structural)]
pub enum FocusedSection {
    /// Global preferences config pane.
    GlobalPrefs,
    /// Screensaver list selection.
    SaverList,
}

/// Dynamic global config fields in the console dashboard.
#[derive(Debug, Clone, Copy, PartialEq, Eq, Structural)]
pub enum GlobalField {
    /// Active screensaver enabled/disabled state.
    Active,
    /// Timeout length of the screensaver.
    Timeout,
    /// Prevent system sleep state.
    PreventSleep,
    /// Hide stock Windows screensavers.
    HideStock,
}

impl GlobalField {
    /// The preference fields in the order focus moves through them.
    pub const ALL: [GlobalField; 4] = [
        GlobalField::Active,
        GlobalField::Timeout,
        GlobalField::PreventSleep,
        GlobalField::HideStock,
    ];
}

/// Status message type.
#[derive(Debug, Clone, Copy, PartialEq, Eq, Structural)]
pub enum StatusKind {
    /// Normal information status.
    Info,
    /// Error status.
    Error,
}

/// Status message displayed on the console status bar.
#[derive(Debug, Clone, PartialEq, Eq)]
pub struct StatusMessage {
    /// Status message text.
    pub text: String,
    /// Semantic type of the status.
    pub kind: StatusKind,
}

/// The list positions shown: all of them, or, when stock screensavers are
/// hidden, those whose entry in `is_stock` is false; in increasing order.
pub open spec fn shown_indices(is_stock: Seq<bool>, hide_stock: bool) -> Seq<usize>
    decreases is_stock.len(),
{
    if is_stock.len() == 0 {
        seq![]
    } else {
        let rest = shown_indices(is_stock.drop_last(), hide_stock);
        if hide_stock && is_stock.last() {
            rest
        } else {
            rest.push((is_stock.len() - 1) as usize)
        }
    }
}

/// The shown indices are exactly the positions that are not hidden, each
/// once, in increasing order.
pub proof fn lemma_shown_indices(is_stock: Seq<bool>, hide_stock: bool)
    requires
        is_stock.len() <= usize::MAX,
    ensures
        forall|k: int|
            0 <= k < shown_indices(is_stock, hide_stock).len() ==> #[trigger] shown_indices(
                is_stock,
                hide_stock,
            )[k] < is_stock.len() && !(hide_stock && is_stock[shown_indices(
                is_stock,
                hide_stock,
            )[k] as int]),
        forall|i: int|
            0 <= i < is_stock.len() && !(hide_stock && is_stock[i]) ==> #[trigger] shown_indices(
                is_stock,
                hide_stock,
            ).contains(i as usize),
        forall|a: int, b: int|
            0 <= a < b < shown_indices(is_stock, hide_stock).len() ==> shown_indices(
                is_stock,
                hide_stock,
            )[a] < shown_indices(is_stock, hide_stock)[b],
        !hide_stock ==> shown_indices(is_stock, hide_stock).len() == is_stock.len(),
    decreases is_stock.len(),
{
    if is_stock.len() > 0 {
        let pre = is_stock.drop_last();
        lemma_shown_indices(pre, hide_stock);
        let rest = shown_indices(pre, hide_stock);
        let sh = shown_indices(is_stock, hide_stock);
        let last = (is_stock.len() - 1) as usize;
        assert forall|k: int| 0 <= k < rest.len() implies #[trigger] sh[k] == rest[k] by {}
        assert forall|k: int| 0 <= k < sh.len() implies #[trigger] sh[k] < is_stock.len() && !(
        hide_stock && is_stock[sh[k] as int]) by {
            if k < rest.len() {
                let i = rest[k];
                assert(sh[k] == i);
                assert(i < pre.len() && !(hide_stock && pre[i as int]));
                assert(pre[i as int] == is_stock[i as int]);
            } else {
                assert(!(hide_stock && is_stock.last()));
                assert(sh[k] == last);
            }
        }
        assert forall|i: int|
            0 <= i < is_stock.len() && !(hide_stock && is_stock[i]) implies #[trigger] sh.contains(
                i as usize,
            ) by {
            if i < is_stock.len() - 1 {
                assert(pre[i] == is_stock[i]);
                assert(rest.contains(i as usize));
                let k = choose|k: int| 0 <= k < rest.len() && rest[k] == i as usize;
                assert(sh[k] == i as usize);
            } else {
                assert(sh[sh.len() - 1] == i as usize);
            }
        }
        assert forall|a: int, b: int| 0 <= a < b < sh.len() implies sh[a] < sh[b] by {
            if b >= rest.len() {
                let i = rest[a];
                assert(sh[a] == i);
                assert(i < pre.len());
                assert(!(hide_stock && is_stock.last()));
                assert(sh[b] == last);
            } else {
                assert(sh[a] == rest[a]);
                assert(sh[b] == rest[b]);
                assert(rest[a] < rest[b]);
            }
        }
    }
}

/// The highlighted screensaver after the shown list changed: kept when it
/// is shown, else the first shown one, else 0.
pub open spec fn resolved_highlight(indices: Seq<usize>, highlighted: usize) -> usize {
    if indices.len() == 0 {
        0
    } else if indices.contains(highlighted) {
        highlighted
    } else {
        indices[0]
    }
}

/// The highlight a new dashboard starts with: the first screensaver whose
/// file name is the last selected one, else the first; never past the last.
pub open spec fn initial_highlight_of(file_names: Seq<Option<Seq<char>>>, last: Option<Seq<char>>) -> int {
    let found = match last {
        Some(name) => if exists|i: int| 0 <= i < file_names.len() && file_names[i] == Some(name) {
            choose|i: int|
                0 <= i < file_names.len() && file_names[i] == Some(name) && forall|j: int|
                    0 <= j < i ==> file_names[j] != Some(name)
        } else {
            0
        },
        None => 0,
    };
    let last_index = if file_names.len() > 0 { file_names.len() - 1 } else { 0 };
    if found < last_index { found } else { last_index }
}

/// The first position whose file name is `name`, if any.
fn find_name(file_names: &[Option<String>], name: &str) -> (r: Option<usize>)
    ensures
        r matches Some(i) ==> {
            &&& i < file_names@.len()
            &&& opt_names(file_names@)[i as int] == Some(name@)
            &&& forall|j: int| 0 <= j < i ==> opt_names(file_names@)[j] != Some(name@)
        },
        r is None ==> forall|j: int| 0 <= j < file_names@.len() ==> opt_names(file_names@)[j] != Some(name@),
{
    let ghost names = opt_names(file_names@);
    let nv = to_chars(name);
    let mut i: usize = 0;
    while i < file_names.len()
        invariant
            i <= file_names@.len(),
            nv@ == name@,
            names == opt_names(file_names@),
            forall|j: int| 0 <= j < i ==> names[j] != Some(name@),
        decreases file_names@.len() - i,
    {
        let hit = match &file_names[i] {
            Some(f) => {
                let fv = to_chars(f.as_str());
                chars_equal(fv.as_slice(), nv.as_slice())
            },
            None => false,
        };
        assert(hit == (names[i as int] == Some(name@)));
        if hit {
            return Some(i);
        }
        i = i + 1;
    }
    None
}

/// The highlight of a new dashboard (see `initial_highlight_of`).
pub fn initial_highlight(file_names: &[Option<String>], last_selected: Option<&str>) -> (r: usize)
    ensures
        r == initial_highlight_of(opt_names(file_names@), match last_selected { Some(s) => Some(s@), None => None }),
{
    let found: usize = match last_selected {
        Some(name) => match find_name(file_names, name) {
            Some(i) => i,
            None => 0,
        },
        None => 0,
    };
    let last_index = if file_names.len() > 0 { file_names.len() - 1 } else { 0 };
    if found < last_index { found } else { last_index }
}

/// The status shown when a document is opened in the viewer.
pub fn opened_document_status(title: &str) -> (r: StatusMessage)
    ensures
        r.text@ == "Opened document: "@ + title@,
        r.kind == StatusKind::Info,
{
    let mut text = String::from_str("Opened document: ");
    text.append(title);
    StatusMessage { text, kind: StatusKind::Info }
}

/// The status shown when the power source changed: `Some` exactly when
/// `now_on_battery` differs from `on_battery`, naming the new source.
pub fn power_status_update(on_battery: bool, now_on_battery: bool) -> (r: Option<StatusMessage>)
    ensures
        r is Some <==> on_battery != now_on_battery,
        r matches Some(m) ==> m.kind == StatusKind::Info && m.text@ == "Power Source Changed: "@
            + if now_on_battery {
            "Battery (Power-Saving Throttling Enabled)"@
        } else {
            "AC Power (Full Speed)"@
        },
{
    if on_battery == now_on_battery {
        return None;
    }
    let mut text = String::from_str("Power Source Changed: ");
    if now_on_battery {
        text.append("Battery (Power-Saving Throttling Enabled)");
    } else {
        text.append("AC Power (Full Speed)");
    }
    Some(StatusMessage { text, kind: StatusKind::Info })
}

/// The text of one row of the screensaver list.
#[derive(Clone, Debug, PartialEq, Eq)]
pub struct ListRow {
    /// Whether this screensaver is the active system one.
    pub checked: bool,
    /// "yes" or "no", padded.
    pub status: String,
    /// The friendly name, cut and padded.
    pub name: String,
    /// "Stock" or "Custom".
    pub kind: String,
}

/// Whether `r` is the row of the screensaver list for a screensaver with
/// friendly name `name` and path `path`: it is checked when screensavers
/// are active and `path` is the active one; the status column is "yes" or
/// "no" in ten columns, the name is cut to 28 characters and set in 32
/// columns, and the kind is "Stock" or "Custom".
pub open spec fn row_shows(
    r: ListRow,
    name: Seq<char>,
    path: Seq<char>,
    active_scr: Seq<char>,
    global_active: bool,
    is_stock: bool,
) -> bool {
    &&& r.checked == (global_active && path == active_scr)
    &&& r.status@ == padded(if r.checked { "yes"@ } else { "no"@ }, 8) + seq![' ', ' ']
    &&& r.name@ == padded(truncated(name, 28), 30) + seq![' ', ' ']
    &&& r.kind@ == if is_stock { "Stock"@ } else { "Custom"@ }
}

/// The row of the screensaver list for one screensaver (see `row_shows`).
pub fn list_row(name: &str, path: &str, active_scr: &str, global_active: bool, is_stock: bool) -> (r: ListRow)
    ensures
        row_shows(r, name@, path@, active_scr@, global_active, is_stock),
{
    let pv = to_chars(path);
    let av = to_chars(active_scr);
    let checked = global_active && chars_equal(pv.as_slice(), av.as_slice());
    let mut status = pad_right(if checked { "yes" } else { "no" }, 8);
    status.append("  ");
    let cut = truncate(name, 28);
    let mut name_col = pad_right(cut.as_str(), 30);
    name_col.append("  ");
    let kind = String::from_str(if is_stock { "Stock" } else { "Custom" });
    proof {
        reveal_strlit("  ");
        assert(status@ =~= padded(if checked { "yes"@ } else { "no"@ }, 8) + seq![' ', ' ']);
        assert(name_col@ =~= padded(truncated(name@, 28), 30) + seq![' ', ' ']);
    }
    ListRow { checked, status, name: name_col, kind }
}

} // verus!
