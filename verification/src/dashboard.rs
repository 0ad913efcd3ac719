//! The dashboard's state: the screensavers found, the preferences, what is
//! highlighted and focused, the rows of the list, the open document and the
//! power source; and what each of its operations does to it.

use vstd::prelude::*;
use vstd::string::StringExecFns;
use crate::chars::opt_chars;
use crate::config::{file_names, opt_names};
use crate::layout::ButtonRect;
use crate::markdown::{markdown_view, md_rows, parse_markdown_to_lines, MdLine};
use crate::paths::{file_name_of, path_file_name};
use crate::preview::{is_stock_path, is_stock_screensaver};
use crate::registry::GlobalConfig;
use crate::prefs::LocalConfig;
use crate::state::{
    initial_highlight, initial_highlight_of, lemma_shown_indices, list_row, opened_document_status, power_status_update,
    resolved_highlight, row_shows, shown_indices, FocusedSection, GlobalField, ListRow, StatusKind,
    StatusMessage,
};

verus! {

/// A screensaver found on this machine.
#[derive(Clone, Debug, PartialEq, Eq)]
pub struct Screensaver {
    /// Friendly name shown in the list.
    pub name: String,
    /// Path of the screensaver file.
    pub path: String,
}

/// Main dashboard state.
#[derive(Debug)]
pub struct App {
    /// Discovered screensavers.
    pub screensavers: Vec<Screensaver>,
    /// Position of the highlighted screensaver in `screensavers`.
    pub highlighted: usize,
    /// Focused panel.
    pub focused: FocusedSection,
    /// Focused preference field.
    pub global_field: GlobalField,
    /// System screensaver preferences.
    pub global: GlobalConfig,
    /// The user's own preferences.
    pub local: LocalConfig,
    /// Status bar message.
    pub status: Option<StatusMessage>,
    /// Set when the dashboard is to close.
    pub should_quit: bool,
    /// First list position on screen.
    pub list_offset: usize,
    /// The rows of the screensaver list, one per screensaver.
    pub list_items: Vec<ListRow>,
    /// Whether the help overlay is shown.
    pub show_help: bool,
    /// Title of the open document, if one is open.
    pub show_markdown: Option<String>,
    /// Lines of the open document.
    pub markdown_lines: Vec<MdLine>,
    /// Scroll offset in the open document.
    pub markdown_scroll: usize,
    /// Whether the machine runs on battery.
    pub on_battery: bool,
    /// Name of the user.
    pub username: String,
    /// Name of the machine.
    pub hostname: String,
    /// Version of the operating system.
    pub os_version: String,
    /// Where the header's help button was last drawn.
    pub help_btn_bounds: Option<ButtonRect>,
    /// Where the header's quit button was last drawn.
    pub quit_btn_bounds: Option<ButtonRect>,
}

/// The paths of the screensavers, as text.
pub open spec fn saver_paths(s: Seq<Screensaver>) -> Seq<Seq<char>> {
    s.map_values(|x: Screensaver| x.path@)
}

/// Whether each screensaver is a stock one (see `is_stock_path`).
pub open spec fn stock_flags(s: Seq<Screensaver>) -> Seq<bool> {
    s.map_values(|x: Screensaver| is_stock_path(x.path@))
}

/// Milliseconds between two looks at the power source.
pub open spec fn power_check_interval_ms() -> u64 {
    5000
}

impl App {
    /// The positions of the screensavers the list shows.
    pub open spec fn shown(&self) -> Seq<usize> {
        shown_indices(stock_flags(self.screensavers@), self.local.hide_stock)
    }

    /// The list rows are those of the screensavers, in order, for the
    /// current active setting.
    pub open spec fn rows_current(&self) -> bool {
        &&& self.list_items@.len() == self.screensavers@.len()
        &&& forall|i: int|
            0 <= i < self.screensavers@.len() ==> row_shows(
                #[trigger] self.list_items@[i],
                self.screensavers@[i].name@,
                self.screensavers@[i].path@,
                self.global.active_scr@,
                self.global.active,
                is_stock_path(self.screensavers@[i].path@),
            )
    }

    /// Creates the dashboard state: preferences focused on the first field,
    /// the highlight on the last selected screensaver (see
    /// `initial_highlight_of`), no overlay, no status, and the list rows
    /// built.
    pub fn new(
        screensavers: Vec<Screensaver>,
        global: GlobalConfig,
        local: LocalConfig,
        on_battery: bool,
        username: String,
        hostname: String,
        os_version: String,
    ) -> (app: App)
        ensures
            app.screensavers == screensavers,
            app.global == global,
            app.local == local,
            app.highlighted == initial_highlight_of(
                file_names(saver_paths(screensavers@)),
                opt_chars(local.last_selected),
            ),
            app.focused == FocusedSection::GlobalPrefs,
            app.global_field == GlobalField::Active,
            app.status is None,
            !app.should_quit,
            app.list_offset == 0,
            app.rows_current(),
            !app.show_help,
            app.show_markdown is None,
            app.markdown_lines@.len() == 0,
            app.markdown_scroll == 0,
            app.on_battery == on_battery,
            app.username == username,
            app.hostname == hostname,
            app.os_version == os_version,
            app.help_btn_bounds is None,
            app.quit_btn_bounds is None,
    {
        let mut names: Vec<Option<String>> = Vec::new();
        let mut i: usize = 0;
        while i < screensavers.len()
            invariant
                i <= screensavers@.len(),
                names@.len() == i,
                opt_names(names@) == file_names(saver_paths(screensavers@)).take(i as int),
            decreases screensavers@.len() - i,
        {
            let n = file_name_of(screensavers[i].path.as_str());
            assert(opt_chars(n) == file_names(saver_paths(screensavers@))[i as int]);
            let ghost before = names@;
            names.push(n);
            proof {
                let want = file_names(saver_paths(screensavers@)).take(i + 1);
                assert forall|k: int| 0 <= k < i + 1 implies opt_names(names@)[k] == want[k] by {
                    if k < i {
                        assert(names@[k] == before[k]);
                        assert(opt_names(before)[k] == want[k]);
                    }
                }
                assert(opt_names(names@) =~= want);
            }
            i = i + 1;
        }
        proof {
            assert(file_names(saver_paths(screensavers@)).take(i as int) =~= file_names(
                saver_paths(screensavers@),
            ));
        }
        let last: Option<&str> = match &local.last_selected {
            Some(s) => Some(s.as_str()),
            None => None,
        };
        let highlighted = initial_highlight(names.as_slice(), last);
        let mut app = App {
            screensavers,
            highlighted,
            focused: FocusedSection::GlobalPrefs,
            global_field: GlobalField::Active,
            global,
            local,
            status: None,
            should_quit: false,
            list_offset: 0,
            list_items: Vec::new(),
            show_help: false,
            show_markdown: None,
            markdown_lines: Vec::new(),
            markdown_scroll: 0,
            on_battery,
            username,
            hostname,
            os_version,
            help_btn_bounds: None,
            quit_btn_bounds: None,
        };
        app.update_list_items();
        app
    }

    /// Positions in `screensavers` that the list shows: all of them, or
    /// only the custom ones when stock screensavers are hidden.
    pub fn filtered_indices(&self) -> (r: Vec<usize>)
        ensures
            r@ == self.shown(),
    {
        let mut r: Vec<usize> = Vec::new();
        let mut i: usize = 0;
        while i < self.screensavers.len()
            invariant
                i <= self.screensavers@.len(),
                r@ == shown_indices(stock_flags(self.screensavers@).take(i as int), self.local.hide_stock),
            decreases self.screensavers@.len() - i,
        {
            proof {
                assert(stock_flags(self.screensavers@).take(i + 1).drop_last() =~= stock_flags(
                    self.screensavers@,
                ).take(i as int));
            }
            let stock = is_stock_screensaver(self.screensavers[i].path.as_str());
            if !(self.local.hide_stock && stock) {
                r.push(i);
            }
            i = i + 1;
        }
        proof {
            assert(stock_flags(self.screensavers@).take(i as int) =~= stock_flags(self.screensavers@));
        }
        r
    }

    /// Moves the highlight onto the shown list: it stays when its
    /// screensaver is shown, else goes to the first shown one, else to 0.
    pub fn resolve_highlight(&mut self)
        ensures
            *final(self) == (App { highlighted: resolved_highlight(old(self).shown(), old(self).highlighted), ..*old(self) }),
    {
        let indices = self.filtered_indices();
        if indices.len() == 0 {
            self.highlighted = 0;
            return;
        }
        let mut i: usize = 0;
        while i < indices.len()
            invariant
                i <= indices@.len(),
                indices@ == old(self).shown(),
                *self == *old(self),
                forall|j: int| 0 <= j < i ==> indices@[j] != self.highlighted,
            decreases indices@.len() - i,
        {
            if indices[i] == self.highlighted {
                assert(indices@.contains(self.highlighted));
                return;
            }
            i = i + 1;
        }
        self.highlighted = indices[0];
    }

    /// Rebuilds the rows of the screensaver list from the screensavers and
    /// the active setting.
    pub fn update_list_items(&mut self)
        ensures
            final(self).rows_current(),
            *final(self) == (App { list_items: final(self).list_items, ..*old(self) }),
    {
        let mut items: Vec<ListRow> = Vec::new();
        let mut i: usize = 0;
        while i < self.screensavers.len()
            invariant
                i <= self.screensavers@.len(),
                items@.len() == i,
                forall|j: int|
                    0 <= j < i ==> row_shows(
                        #[trigger] items@[j],
                        self.screensavers@[j].name@,
                        self.screensavers@[j].path@,
                        self.global.active_scr@,
                        self.global.active,
                        is_stock_path(self.screensavers@[j].path@),
                    ),
            decreases self.screensavers@.len() - i,
        {
            let s = &self.screensavers[i];
            let row = list_row(
                s.name.as_str(),
                s.path.as_str(),
                self.global.active_scr.as_str(),
                self.global.active,
                is_stock_screensaver(s.path.as_str()),
            );
            items.push(row);
            i = i + 1;
        }
        self.list_items = items;
    }

    /// The highlighted screensaver, if the highlight is on one.
    pub fn current_screensaver(&self) -> (r: Option<&Screensaver>)
        ensures
            r is Some <==> self.highlighted < self.screensavers@.len(),
            r matches Some(s) ==> *s == self.screensavers@[self.highlighted as int],
    {
        if self.highlighted < self.screensavers.len() {
            Some(&self.screensavers[self.highlighted])
        } else {
            None
        }
    }

    /// Opens a document in the viewer: its lines (see
    /// `parse_markdown_to_lines`), its title, the top of it, and a status
    /// naming it.
    pub fn open_embedded_markdown(&mut self, title: &str, content: &str)
        ensures
            md_rows(final(self).markdown_lines@) == markdown_view(content@),
            opt_chars(final(self).show_markdown) == Some(title@),
            final(self).markdown_scroll == 0,
            final(self).status matches Some(m) && m.kind == StatusKind::Info && m.text@ == "Opened document: "@ + title@,
            *final(self) == (App {
                markdown_lines: final(self).markdown_lines,
                show_markdown: final(self).show_markdown,
                markdown_scroll: 0,
                status: final(self).status,
                ..*old(self)
            }),
    {
        self.markdown_lines = parse_markdown_to_lines(content);
        self.show_markdown = Some(String::from_str(title));
        self.markdown_scroll = 0;
        self.status = Some(opened_document_status(title));
    }

    /// Whether it is time to look at the power source again: more than
    /// five seconds passed since the last look (`elapsed_ms`). The caller
    /// queries the power source only then, and hands the reading to
    /// `sync_power_status_if_needed`.
    pub fn power_check_due(elapsed_ms: u64) -> (due: bool)
        ensures
            due == (elapsed_ms > power_check_interval_ms()),
    {
        elapsed_ms > 5000
    }

    /// Looks at the power source when more than five seconds passed since
    /// the last look (`elapsed_ms`), the source then being battery exactly
    /// when `now_on_battery`. When it changed, the state and a status say
    /// so. Returns whether the look was due.
    pub fn sync_power_status_if_needed(&mut self, elapsed_ms: u64, now_on_battery: bool) -> (due: bool)
        ensures
            due == (elapsed_ms > power_check_interval_ms()),
            !due || old(self).on_battery == now_on_battery ==> *final(self) == *old(self),
            due && old(self).on_battery != now_on_battery ==> {
                &&& final(self).on_battery == now_on_battery
                &&& final(self).status matches Some(m) && m.kind == StatusKind::Info && m.text@
                    == "Power Source Changed: "@ + if now_on_battery {
                    "Battery (Power-Saving Throttling Enabled)"@
                } else {
                    "AC Power (Full Speed)"@
                }
                &&& *final(self) == (App {
                    on_battery: now_on_battery,
                    status: final(self).status,
                    ..*old(self)
                })
            },
    {
        if elapsed_ms <= 5000 {
            return false;
        }
        match power_status_update(self.on_battery, now_on_battery) {
            Some(m) => {
                self.on_battery = now_on_battery;
                self.status = Some(m);
            },
            None => {},
        }
        true
    }
}


/// A key the dashboard reacts to.
#[derive(Clone, Copy, Debug, PartialEq, Eq, Structural)]
pub enum AppKey {
    Up,
    Down,
    Tab,
    BackTab,
    Left,
    Right,
    Enter,
    Esc,
    /// A function key, by its number.
    F(u8),
    Char(char),
}

/// What the caller has to do after a key.
#[derive(Clone, Copy, Debug, PartialEq, Eq, Structural)]
pub struct KeyEffects {
    /// Store the system preferences.
    pub save_global: bool,
    /// Store the user's preferences.
    pub save_local: bool,
    /// Run the highlighted screensaver full screen.
    pub preview: bool,
    /// Look for screensavers again.
    pub refresh: bool,
    /// Open the bundled document with this number (1 to 7: README,
    /// SUPPORT, LICENSE, COPYRIGHT, PRIVACY, SECURITY, CONTRIBUTING).
    pub document: Option<u8>,
    /// Open the highlighted screensaver's own settings dialog.
    pub configure: bool,
    /// Delete the highlighted screensaver when it is a downloaded one.
    pub delete: bool,
}

/// Nothing to do.
pub open spec fn no_effects() -> KeyEffects {
    KeyEffects {
        save_global: false,
        save_local: false,
        preview: false,
        refresh: false,
        document: None,
        configure: false,
        delete: false,
    }
}

/// `c` or `C`: configure the highlighted screensaver.
pub open spec fn is_configure_key(k: AppKey) -> bool {
    k == AppKey::Char('c') || k == AppKey::Char('C')
}

/// `d` or `D`: delete the highlighted downloaded screensaver.
pub open spec fn is_delete_key(k: AppKey) -> bool {
    k == AppKey::Char('d') || k == AppKey::Char('D')
}

/// `p` or `t`: preview the highlighted screensaver.
pub open spec fn is_preview_key(k: AppKey) -> bool {
    k == AppKey::Char('p') || k == AppKey::Char('t')
}

/// `r` or `R`: look for screensavers again.
pub open spec fn is_refresh_key(k: AppKey) -> bool {
    k == AppKey::Char('r') || k == AppKey::Char('R')
}

/// The timeout after one step right (`up`) or left: a minute more, or a
/// minute less while that leaves at least one.
pub open spec fn adjusted_timeout(t: u32, up: bool) -> u32 {
    if up {
        if t <= u32::MAX - 60 { (t + 60) as u32 } else { t }
    } else {
        if t >= 120 { (t - 60) as u32 } else { t }
    }
}

/// `q` or Esc: quit, or close the overlay.
pub open spec fn is_close_key(k: AppKey) -> bool {
    k == AppKey::Esc || k == AppKey::Char('q')
}

/// `h` or `H`: the help overlay.
pub open spec fn is_help_key(k: AppKey) -> bool {
    k == AppKey::Char('h') || k == AppKey::Char('H')
}

/// Down arrow or `j`.
pub open spec fn is_down_key(k: AppKey) -> bool {
    k == AppKey::Down || k == AppKey::Char('j')
}

/// Up arrow or `k`.
pub open spec fn is_up_key(k: AppKey) -> bool {
    k == AppKey::Up || k == AppKey::Char('k')
}

/// Position of a preference field in `GlobalField::ALL`.
pub open spec fn field_index(f: GlobalField) -> int {
    match f {
        GlobalField::Active => 0,
        GlobalField::Timeout => 1,
        GlobalField::PreventSleep => 2,
        GlobalField::HideStock => 3,
    }
}

/// The preference field at a position of `GlobalField::ALL`.
pub open spec fn field_at(i: int) -> GlobalField {
    if i <= 0 {
        GlobalField::Active
    } else if i == 1 {
        GlobalField::Timeout
    } else if i == 2 {
        GlobalField::PreventSleep
    } else {
        GlobalField::HideStock
    }
}

/// The field focus moves to from `f`, one down or one up, staying at the
/// ends.
pub open spec fn moved_field(f: GlobalField, down: bool) -> GlobalField {
    if down {
        field_at(field_index(f) + 1)
    } else {
        field_at(field_index(f) - 1)
    }
}

/// The first position of `h` in `indices`, or 0.
pub open spec fn position_in(indices: Seq<usize>, h: usize) -> int {
    if exists|i: int| 0 <= i < indices.len() && indices[i] == h {
        choose|i: int|
            0 <= i < indices.len() && indices[i] == h && forall|j: int| 0 <= j < i ==> indices[j] != h
    } else {
        0
    }
}

/// The highlight after one step down or up the shown list `indices`,
/// staying at the ends; unchanged when nothing is shown.
pub open spec fn moved_highlight(indices: Seq<usize>, h: usize, down: bool) -> usize {
    if indices.len() == 0 {
        h
    } else {
        let p = position_in(indices, h);
        let n = if down {
            if p + 1 < indices.len() { p + 1 } else { indices.len() - 1 }
        } else {
            if p > 0 { p - 1 } else { 0 }
        };
        indices[n]
    }
}

/// The other panel.
pub open spec fn other_section(f: FocusedSection) -> FocusedSection {
    match f {
        FocusedSection::GlobalPrefs => FocusedSection::SaverList,
        FocusedSection::SaverList => FocusedSection::GlobalPrefs,
    }
}

/// `b` and `e` are the state and effects after toggling the focused
/// preference field of `a`: the screensaver switch (rows rebuilt, system
/// preferences stored), nothing for the timeout, the sleep prevention or
/// the hiding of stock screensavers (highlight moved onto the shown list)
/// with the user's preferences stored.
pub open spec fn toggled(a: App, b: App, e: KeyEffects) -> bool {
    match a.global_field {
        GlobalField::Active => {
            &&& b == (App {
                global: GlobalConfig { active: !a.global.active, ..a.global },
                list_items: b.list_items,
                ..a
            })
            &&& b.rows_current()
            &&& e == (KeyEffects { save_global: true, ..no_effects() })
        },
        GlobalField::Timeout => b == a && e == no_effects(),
        GlobalField::PreventSleep => {
            &&& b == (App { local: LocalConfig { prevent_sleep: !a.local.prevent_sleep, ..a.local }, ..a })
            &&& e == (KeyEffects { save_local: true, ..no_effects() })
        },
        GlobalField::HideStock => {
            &&& b == (App {
                local: LocalConfig { hide_stock: !a.local.hide_stock, ..a.local },
                highlighted: resolved_highlight(
                    shown_indices(stock_flags(a.screensavers@), !a.local.hide_stock),
                    a.highlighted,
                ),
                ..a
            })
            &&& e == (KeyEffects { save_local: true, ..no_effects() })
        },
    }
}

/// `b` and `e` are the state and effects after Left (`up` false) or Right
/// on the focused preference field of `a`: the timeout moves by a minute
/// (system preferences stored); the other fields are toggled.
pub open spec fn adjusted(a: App, b: App, e: KeyEffects, up: bool) -> bool {
    match a.global_field {
        GlobalField::Timeout => {
            &&& b == (App {
                global: GlobalConfig { timeout: adjusted_timeout(a.global.timeout, up), ..a.global },
                ..a
            })
            &&& e == (KeyEffects { save_global: true, ..no_effects() })
        },
        _ => toggled(a, b, e),
    }
}

/// `b` and `e` are the state and effects after applying the highlighted
/// screensaver of `a`: it becomes the active one and screensavers are
/// enabled, its file name is remembered as the last selected, the rows are
/// rebuilt and both preferences are stored. Nothing happens when the
/// highlight is on no screensaver.
pub open spec fn applied(a: App, b: App, e: KeyEffects) -> bool {
    if a.highlighted < a.screensavers@.len() {
        let s = a.screensavers@[a.highlighted as int];
        &&& b.global == (GlobalConfig { active_scr: s.path, active: true, ..a.global })
        &&& opt_chars(b.local.last_selected) == path_file_name(s.path@)
        &&& b.local == (LocalConfig { last_selected: b.local.last_selected, ..a.local })
        &&& b.rows_current()
        &&& b == (App { global: b.global, local: b.local, list_items: b.list_items, ..a })
        &&& e == (KeyEffects { save_global: true, save_local: true, ..no_effects() })
    } else {
        b == a && e == no_effects()
    }
}

/// `b` and `e` are the state and effects after the key `key` in state `a`.
/// With the help overlay open, `q`, Esc, `h` or `H` close it. With a
/// document open, `q` or Esc close it and the arrows (or `j`, `k`) scroll.
/// Otherwise `q` or Esc quit, `h` opens the help, Tab moves the focus to
/// the other panel, the arrows (or `j`, `k`) move through the preference
/// fields or the shown screensavers, Enter or Space toggle the focused
/// preference, Left and Right adjust it, Enter on the list or `a` apply the
/// highlighted screensaver, Space on the list, `p` or `t` ask for a
/// preview, `r` for a new search, `c` for the highlighted screensaver's
/// settings, `d` for deleting it, and F1 to F7 for a document. Other keys
/// do nothing.
pub open spec fn key_effect(a: App, b: App, key: AppKey, e: KeyEffects) -> bool {
    if a.show_help {
        &&& b == (App { show_help: !(is_close_key(key) || is_help_key(key)), ..a })
        &&& e == no_effects()
    } else if a.show_markdown is Some {
        &&& e == no_effects()
        &&& if is_close_key(key) {
            b == (App { show_markdown: None, ..a })
        } else if is_down_key(key) {
            b == (App {
                markdown_scroll: if a.markdown_scroll < usize::MAX { (a.markdown_scroll + 1) as usize } else { a.markdown_scroll },
                ..a
            })
        } else if is_up_key(key) {
            b == (App { markdown_scroll: if a.markdown_scroll > 0 { (a.markdown_scroll - 1) as usize } else { 0 }, ..a })
        } else {
            b == a
        }
    } else if is_close_key(key) {
        b == (App { should_quit: true, ..a }) && e == no_effects()
    } else if is_help_key(key) {
        b == (App { show_help: true, ..a }) && e == no_effects()
    } else if key == AppKey::Tab || key == AppKey::BackTab {
        b == (App { focused: other_section(a.focused), ..a }) && e == no_effects()
    } else if is_down_key(key) || is_up_key(key) {
        &&& e == no_effects()
        &&& match a.focused {
            FocusedSection::GlobalPrefs => b == (App {
                global_field: moved_field(a.global_field, is_down_key(key)),
                ..a
            }),
            FocusedSection::SaverList => b == (App {
                highlighted: moved_highlight(a.shown(), a.highlighted, is_down_key(key)),
                ..a
            }),
        }
    } else if key == AppKey::Enter || key == AppKey::Char(' ') {
        match a.focused {
            FocusedSection::GlobalPrefs => toggled(a, b, e),
            FocusedSection::SaverList => if key == AppKey::Enter {
                applied(a, b, e)
            } else {
                b == a && e == (KeyEffects { preview: true, ..no_effects() })
            },
        }
    } else if key == AppKey::Left || key == AppKey::Right {
        match a.focused {
            FocusedSection::GlobalPrefs => adjusted(a, b, e, key == AppKey::Right),
            FocusedSection::SaverList => b == a && e == no_effects(),
        }
    } else if key == AppKey::Char('a') {
        applied(a, b, e)
    } else if is_preview_key(key) {
        b == a && e == (KeyEffects { preview: true, ..no_effects() })
    } else if is_refresh_key(key) {
        b == a && e == (KeyEffects { refresh: true, ..no_effects() })
    } else if is_configure_key(key) {
        b == a && e == (KeyEffects { configure: true, ..no_effects() })
    } else if is_delete_key(key) {
        b == a && e == (KeyEffects { delete: true, ..no_effects() })
    } else if key is F && 1 <= key->F_0 <= 7 {
        b == a && e == (KeyEffects { document: Some(key->F_0), ..no_effects() })
    } else {
        b == a && e == no_effects()
    }
}

fn no_effect() -> (e: KeyEffects)
    ensures
        e == no_effects(),
{
    KeyEffects {
        save_global: false,
        save_local: false,
        preview: false,
        refresh: false,
        document: None,
        configure: false,
        delete: false,
    }
}

fn move_field(f: GlobalField, down: bool) -> (r: GlobalField)
    ensures
        r == moved_field(f, down),
{
    match f {
        GlobalField::Active => if down { GlobalField::Timeout } else { GlobalField::Active },
        GlobalField::Timeout => if down { GlobalField::PreventSleep } else { GlobalField::Active },
        GlobalField::PreventSleep => if down { GlobalField::HideStock } else { GlobalField::Timeout },
        GlobalField::HideStock => if down { GlobalField::HideStock } else { GlobalField::PreventSleep },
    }
}

fn first_position(indices: &[usize], h: usize) -> (r: usize)
    ensures
        r == position_in(indices@, h),
        r == 0 || r < indices@.len(),
{
    let mut i: usize = 0;
    while i < indices.len()
        invariant
            i <= indices@.len(),
            forall|j: int| 0 <= j < i ==> indices@[j] != h,
        decreases indices@.len() - i,
    {
        if indices[i] == h {
            proof {
                let p = |k: int| 0 <= k < indices@.len() && indices@[k] == h && forall|j: int| 0 <= j < k ==> indices@[j] != h;
                assert(p(i as int));
                let c = choose|k: int| 0 <= k < indices@.len() && indices@[k] == h && forall|j: int| 0 <= j < k ==> indices@[j] != h;
                assert(p(c));
                if c < i {
                    assert(indices@[c] != h);
                } else if c > i {
                    assert(indices@[i as int] != h);
                }
            }
            return i;
        }
        i = i + 1;
    }
    0
}

impl App {
    fn move_highlight(&mut self, down: bool)
        ensures
            *final(self) == (App { highlighted: moved_highlight(old(self).shown(), old(self).highlighted, down), ..*old(self) }),
    {
        let indices = self.filtered_indices();
        if indices.len() == 0 {
            return;
        }
        let p = first_position(indices.as_slice(), self.highlighted);
        let n = if down {
            if p + 1 < indices.len() { p + 1 } else { indices.len() - 1 }
        } else {
            if p > 0 { p - 1 } else { 0 }
        };
        self.highlighted = indices[n];
    }

    fn toggle_field(&mut self) -> (e: KeyEffects)
        ensures
            toggled(*old(self), *final(self), e),
    {
        match self.global_field {
            GlobalField::Active => {
                self.global.active = !self.global.active;
                self.update_list_items();
                KeyEffects { save_global: true, ..no_effect() }
            },
            GlobalField::Timeout => no_effect(),
            GlobalField::PreventSleep => {
                self.local.prevent_sleep = !self.local.prevent_sleep;
                KeyEffects { save_local: true, ..no_effect() }
            },
            GlobalField::HideStock => {
                self.local.hide_stock = !self.local.hide_stock;
                self.resolve_highlight();
                KeyEffects { save_local: true, ..no_effect() }
            },
        }
    }

    fn adjust_field(&mut self, up: bool) -> (e: KeyEffects)
        ensures
            adjusted(*old(self), *final(self), e, up),
    {
        match self.global_field {
            GlobalField::Timeout => {
                let t = self.global.timeout;
                self.global.timeout = if up {
                    if t <= u32::MAX - 60 { t + 60 } else { t }
                } else {
                    if t >= 120 { t - 60 } else { t }
                };
                KeyEffects { save_global: true, ..no_effect() }
            },
            _ => self.toggle_field(),
        }
    }

    fn apply_highlighted(&mut self) -> (e: KeyEffects)
        ensures
            applied(*old(self), *final(self), e),
    {
        if self.highlighted >= self.screensavers.len() {
            return no_effect();
        }
        let path = self.screensavers[self.highlighted].path.clone();
        let name = file_name_of(path.as_str());
        self.global.active_scr = path;
        self.global.active = true;
        self.local.last_selected = name;
        self.update_list_items();
        KeyEffects { save_global: true, save_local: true, ..no_effect() }
    }

    /// Reacts to one key (see `key_effect`) and says what the caller has
    /// to store or run. The list rows stay in step with the screensavers
    /// and the active setting.
    pub fn handle_key(&mut self, key: AppKey) -> (e: KeyEffects)
        ensures
            key_effect(*old(self), *final(self), key, e),
            old(self).rows_current() ==> final(self).rows_current(),
    {
        let none = no_effect();
        let close = key == AppKey::Esc || key == AppKey::Char('q');
        let help = key == AppKey::Char('h') || key == AppKey::Char('H');
        let down = key == AppKey::Down || key == AppKey::Char('j');
        let up = key == AppKey::Up || key == AppKey::Char('k');
        if self.show_help {
            if close || help {
                self.show_help = false;
            }
            return none;
        }
        if self.show_markdown.is_some() {
            if close {
                self.show_markdown = None;
            } else if down {
                if self.markdown_scroll < usize::MAX {
                    self.markdown_scroll = self.markdown_scroll + 1;
                }
            } else if up {
                if self.markdown_scroll > 0 {
                    self.markdown_scroll = self.markdown_scroll - 1;
                }
            }
            return none;
        }
        if close {
            self.should_quit = true;
            none
        } else if help {
            self.show_help = true;
            none
        } else if key == AppKey::Tab || key == AppKey::BackTab {
            self.focused = match self.focused {
                FocusedSection::GlobalPrefs => FocusedSection::SaverList,
                FocusedSection::SaverList => FocusedSection::GlobalPrefs,
            };
            none
        } else if down || up {
            match self.focused {
                FocusedSection::GlobalPrefs => {
                    self.global_field = move_field(self.global_field, down);
                },
                FocusedSection::SaverList => {
                    self.move_highlight(down);
                },
            }
            none
        } else if key == AppKey::Enter || key == AppKey::Char(' ') {
            match self.focused {
                FocusedSection::GlobalPrefs => self.toggle_field(),
                FocusedSection::SaverList => if key == AppKey::Enter {
                    self.apply_highlighted()
                } else {
                    KeyEffects { preview: true, ..no_effect() }
                },
            }
        } else if key == AppKey::Left || key == AppKey::Right {
            match self.focused {
                FocusedSection::GlobalPrefs => self.adjust_field(key == AppKey::Right),
                FocusedSection::SaverList => none,
            }
        } else if key == AppKey::Char('a') {
            self.apply_highlighted()
        } else if key == AppKey::Char('p') || key == AppKey::Char('t') {
            KeyEffects { preview: true, ..no_effect() }
        } else if key == AppKey::Char('r') || key == AppKey::Char('R') {
            KeyEffects { refresh: true, ..no_effect() }
        } else if key == AppKey::Char('c') || key == AppKey::Char('C') {
            KeyEffects { configure: true, ..no_effect() }
        } else if key == AppKey::Char('d') || key == AppKey::Char('D') {
            KeyEffects { delete: true, ..no_effect() }
        } else {
            match key {
                AppKey::F(n) => if 1 <= n && n <= 7 {
                    KeyEffects { document: Some(n), ..no_effect() }
                } else {
                    none
                },
                _ => none,
            }
        }
    }
}

/// Whether the button drawn at `b`, if drawn, covers row `y`, column `x`.
pub open spec fn hit(b: Option<ButtonRect>, y: u16, x: u16) -> bool {
    match b {
        Some(r) => y == r.y && r.x_start <= x && x < r.x_end,
        None => false,
    }
}

impl App {
    /// Reacts to a click at row `y`, column `x`: the help button shows or
    /// hides the help, the quit button closes the dashboard, and clicks
    /// elsewhere do nothing.
    pub fn handle_click(&mut self, y: u16, x: u16)
        ensures
            *final(self) == if hit(old(self).help_btn_bounds, y, x) {
                App { show_help: !old(self).show_help, ..*old(self) }
            } else if hit(old(self).quit_btn_bounds, y, x) {
                App { should_quit: true, ..*old(self) }
            } else {
                *old(self)
            },
    {
        let on_help = match &self.help_btn_bounds {
            Some(r) => r.contains(y, x),
            None => false,
        };
        if on_help {
            self.show_help = !self.show_help;
            return;
        }
        let on_quit = match &self.quit_btn_bounds {
            Some(r) => r.contains(y, x),
            None => false,
        };
        if on_quit {
            self.should_quit = true;
        }
    }
}

/// Moving through a non-empty shown list, and fitting the highlight to it,
/// always land on a screensaver the list shows.
pub proof fn lemma_highlight_stays_shown(indices: Seq<usize>, h: usize, down: bool)
    requires
        indices.len() > 0,
    ensures
        indices.contains(moved_highlight(indices, h, down)),
        indices.contains(resolved_highlight(indices, h)),
{
    let p = position_in(indices, h);
    if exists|i: int| 0 <= i < indices.len() && indices[i] == h {
        let w = choose|i: int| 0 <= i < indices.len() && indices[i] == h;
        first_position_exists(indices, h, w);
    }
    assert(0 <= p < indices.len());
    let n = if down {
        if p + 1 < indices.len() { p + 1 } else { indices.len() - 1 }
    } else {
        if p > 0 { p - 1 } else { 0 }
    };
    assert(indices[n] == moved_highlight(indices, h, down));
}

/// Where `h` occurs in `indices`, it has a first position.
proof fn first_position_exists(indices: Seq<usize>, h: usize, w: int)
    requires
        0 <= w < indices.len(),
        indices[w] == h,
    ensures
        exists|i: int|
            0 <= i < indices.len() && indices[i] == h && forall|j: int| 0 <= j < i ==> indices[j] != h,
    decreases w,
{
    if exists|j: int| 0 <= j < w && indices[j] == h {
        let j = choose|j: int| 0 <= j < w && indices[j] == h;
        first_position_exists(indices, h, j);
    } else {
        assert(forall|j: int| 0 <= j < w ==> indices[j] != h);
    }
}

/// After applying the highlighted screensaver, the list shows it checked
/// and screensavers enabled.
pub proof fn lemma_applied_row_checked(a: App, b: App, e: KeyEffects)
    requires
        applied(a, b, e),
        a.highlighted < a.screensavers@.len(),
    ensures
        b.global.active,
        b.list_items@[a.highlighted as int].checked,
{
    assert(b.screensavers@[a.highlighted as int] == a.screensavers@[a.highlighted as int]);
}

/// Up and Down move through the preference fields in the order of
/// `GlobalField::ALL`: Down to the next field and Up to the one before,
/// staying at the first and the last; so Down then Up comes back to every
/// field but the last, and Up then Down to every field but the first.
pub proof fn lemma_field_moves_follow_order(f: GlobalField)
    ensures
        GlobalField::ALL@[field_index(f)] == f,
        field_index(moved_field(f, true)) == if field_index(f) < 3 { field_index(f) + 1 } else { 3 },
        field_index(moved_field(f, false)) == if field_index(f) > 0 { field_index(f) - 1 } else { 0 },
        field_index(f) < 3 ==> moved_field(moved_field(f, true), false) == f,
        field_index(f) > 0 ==> moved_field(moved_field(f, false), true) == f,
        moved_field(f, false) != f <==> field_index(f) > 0,
{
}

/// Fitting the highlight to the shown list keeps it when its screensaver
/// is shown, and otherwise moves it to the first screensaver shown: every
/// earlier screensaver is a stock one, hidden. With nothing shown it goes
/// to 0.
pub proof fn lemma_resolved_highlight_is_first_shown(is_stock: Seq<bool>, hide_stock: bool, h: usize)
    requires
        is_stock.len() <= usize::MAX,
    ensures
        ({
            let sh = shown_indices(is_stock, hide_stock);
            let r = resolved_highlight(sh, h);
            &&& sh.contains(h) ==> r == h
            &&& sh.len() == 0 ==> r == 0
            &&& !sh.contains(h) && sh.len() > 0 ==> {
                &&& sh.contains(r)
                &&& r < is_stock.len()
                &&& !(hide_stock && is_stock[r as int])
                &&& r > 0 ==> hide_stock
                &&& forall|i: int| 0 <= i < r ==> #[trigger] is_stock[i]
            }
        }),
{
    let sh = shown_indices(is_stock, hide_stock);
    lemma_shown_indices(is_stock, hide_stock);
    if !sh.contains(h) && sh.len() > 0 {
        let r = sh[0];
        assert(resolved_highlight(sh, h) == r);
        assert(sh.contains(r));
        assert(r < is_stock.len() && !(hide_stock && is_stock[r as int]));
        assert forall|i: int| 0 <= i < resolved_highlight(sh, h) implies #[trigger] is_stock[i] && hide_stock by {
            assert(i < is_stock.len());
            if !(hide_stock && is_stock[i]) {
                assert(sh.contains(i as usize));
                let k = choose|k: int| 0 <= k < sh.len() && sh[k] == i as usize;
                if k > 0 {
                    assert(sh[0] < sh[k]);
                }
                assert(false);
            }
        }
        if r > 0 && !hide_stock {
            assert(0 < is_stock.len());
            assert(sh.contains((0int) as usize));
            let k = choose|k: int| 0 <= k < sh.len() && sh[k] == 0usize;
            if k > 0 {
                assert(sh[0] < sh[k]);
            }
        }
    }
}

/// Tab twice gives the focus back to the panel that had it.
pub proof fn lemma_tab_twice(f: FocusedSection)
    ensures
        other_section(other_section(f)) == f,
{
}

} // verus!
