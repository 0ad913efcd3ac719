//! Repairing saved preferences that point at screensavers that are gone.

use vstd::prelude::*;
use crate::chars::{chars_equal, opt_chars, to_chars};
use crate::paths::{file_name_of, path_file_name};
use crate::registry::GlobalConfig;

verus! {

/// The file names of the paths.
pub open spec fn file_names(paths: Seq<Seq<char>>) -> Seq<Option<Seq<char>>> {
    paths.map_values(|p: Seq<char>| path_file_name(p))
}

/// The optional strings as text.
pub open spec fn opt_names(v: Seq<Option<String>>) -> Seq<Option<Seq<char>>> {
    v.map_values(|o: Option<String>| opt_chars(o))
}

/// Whether some entry of `names` is `name` (both may be missing).
pub open spec fn some_name_is(names: Seq<Option<Seq<char>>>, name: Option<Seq<char>>) -> bool {
    exists|i: int| 0 <= i < names.len() && #[trigger] names[i] == name
}

/// The first position whose flag is set.
pub open spec fn first_set(flags: Seq<bool>) -> Option<int>
    decreases flags.len(),
{
    if flags.len() == 0 {
        None
    } else if flags[0] {
        Some(0)
    } else {
        match first_set(flags.drop_first()) {
            Some(i) => Some(i + 1),
            None => None,
        }
    }
}

/// Whether the active screensaver setting `scr`, whose file name is
/// `scr_name`, must be reset: it is set, its path does not exist, and no
/// known screensaver has its file name.
pub open spec fn active_missing(
    scr: Seq<char>,
    scr_name: Option<Seq<char>>,
    active_exists: bool,
    names: Seq<Option<Seq<char>>>,
) -> bool {
    scr.len() > 0 && !active_exists && !some_name_is(names, scr_name)
}

/// The active setting after the repair: unchanged when it is fine, else
/// the first screensaver that exists, enabled, else none, disabled.
pub open spec fn repaired_active(
    scr: Seq<char>,
    active: bool,
    scr_name: Option<Seq<char>>,
    active_exists: bool,
    paths: Seq<Seq<char>>,
    names: Seq<Option<Seq<char>>>,
    exists: Seq<bool>,
) -> (Seq<char>, bool) {
    if active_missing(scr, scr_name, active_exists, names) {
        match first_set(exists) {
            Some(i) => (paths[i], true),
            None => (seq![], false),
        }
    } else {
        (scr, active)
    }
}

/// Whether the last selected screensaver is gone: no known screensaver has
/// its file name.
pub open spec fn last_selected_gone(last: Option<Seq<char>>, names: Seq<Option<Seq<char>>>) -> bool {
    match last {
        Some(name) => !some_name_is(names, Some(name)),
        None => false,
    }
}

fn first_existing(exists: &[bool]) -> (r: Option<usize>)
    ensures
        match r {
            Some(i) => first_set(exists@) == Some(i as int),
            None => first_set(exists@) is None,
        },
        r matches Some(i) ==> i < exists@.len(),
{
    let mut i: usize = exists.len();
    let mut found: Option<usize> = None;
    while i > 0
        invariant
            i <= exists@.len(),
            match found {
                Some(j) => first_set(exists@.skip(i as int)) == Some(j - i),
                None => first_set(exists@.skip(i as int)) is None,
            },
            found matches Some(j) ==> i <= j < exists@.len(),
        decreases i,
    {
        i = i - 1;
        assert(exists@.skip(i as int).drop_first() =~= exists@.skip(i + 1));
        if exists[i] {
            found = Some(i);
        }
    }
    assert(exists@.skip(0) =~= exists@);
    found
}

/// Whether some entry of `names` is `name`.
pub fn has_name(names: &[Option<String>], name: &Option<String>) -> (r: bool)
    ensures
        r == some_name_is(opt_names(names@), opt_chars(*name)),
{
    let nv: Option<Vec<char>> = match name {
        Some(n) => Some(to_chars(n.as_str())),
        None => None,
    };
    let mut i: usize = 0;
    while i < names.len()
        invariant
            i <= names@.len(),
            match nv { Some(v) => opt_chars(*name) == Some(v@), None => name is None },
            forall|j: int| 0 <= j < i ==> #[trigger] opt_names(names@)[j] != opt_chars(*name),
        decreases names@.len() - i,
    {
        let same = match (&names[i], &nv) {
            (Some(a), Some(b)) => {
                let av = to_chars(a.as_str());
                chars_equal(av.as_slice(), b.as_slice())
            },
            (None, None) => true,
            _ => false,
        };
        assert(opt_names(names@)[i as int] == opt_chars(names@[i as int]));
        if same {
            return true;
        }
        i = i + 1;
    }
    false
}

/// Repairs the saved preferences given the file names: `active_name` is
/// the file name of the active screensaver, `saver_names` those of the
/// screensavers found at `saver_paths`, `saver_exists` whether each is on
/// disk and `active_exists` whether the active one's path is. An active
/// setting that points nowhere moves to the first screensaver on disk (or
/// is cleared and disabled); a last selection that names no screensaver is
/// forgotten. The result tells which of the two settings changed.
pub fn sanitize_with_names(
    global: &mut GlobalConfig,
    last_selected: &mut Option<String>,
    saver_paths: &Vec<String>,
    saver_names: &[Option<String>],
    active_name: &Option<String>,
    active_exists: bool,
    saver_exists: &[bool],
) -> (r: (bool, bool))
    requires
        saver_paths@.len() == saver_exists@.len(),
    ensures
        r.0 == active_missing(old(global).active_scr@, opt_chars(*active_name), active_exists, opt_names(saver_names@)),
        (final(global).active_scr@, final(global).active) == repaired_active(
            old(global).active_scr@,
            old(global).active,
            opt_chars(*active_name),
            active_exists,
            saver_paths.deep_view(),
            opt_names(saver_names@),
            saver_exists@,
        ),
        final(global).timeout == old(global).timeout,
        r.1 == last_selected_gone(opt_chars(*old(last_selected)), opt_names(saver_names@)),
        opt_chars(*final(last_selected)) == if r.1 {
            None
        } else {
            opt_chars(*old(last_selected))
        },
{
    let mut global_changed = false;
    if !global.active_scr.as_str().is_empty() && !active_exists && !has_name(saver_names, active_name) {
        global_changed = true;
        match first_existing(saver_exists) {
            Some(i) => {
                assert(saver_paths.deep_view()[i as int] == saver_paths@[i as int]@);
                global.active_scr = saver_paths[i].clone();
                global.active = true;
            },
            None => {
                global.active_scr = String::new();
                global.active = false;
            },
        }
    }
    let mut local_changed = false;
    if last_selected.is_some() {
        if !has_name(saver_names, last_selected) {
            local_changed = true;
            *last_selected = None;
        }
    }
    (global_changed, local_changed)
}

/// Repairs the saved preferences against the screensavers found (see
/// `sanitize_with_names`), taking the file names from the paths.
pub fn sanitize_config(
    global: &mut GlobalConfig,
    last_selected: &mut Option<String>,
    saver_paths: &Vec<String>,
    active_exists: bool,
    saver_exists: &[bool],
) -> (r: (bool, bool))
    requires
        saver_paths@.len() == saver_exists@.len(),
    ensures
        r.0 == active_missing(
            old(global).active_scr@,
            path_file_name(old(global).active_scr@),
            active_exists,
            file_names(saver_paths.deep_view()),
        ),
        (final(global).active_scr@, final(global).active) == repaired_active(
            old(global).active_scr@,
            old(global).active,
            path_file_name(old(global).active_scr@),
            active_exists,
            saver_paths.deep_view(),
            file_names(saver_paths.deep_view()),
            saver_exists@,
        ),
        final(global).timeout == old(global).timeout,
        r.1 == last_selected_gone(opt_chars(*old(last_selected)), file_names(saver_paths.deep_view())),
        opt_chars(*final(last_selected)) == if r.1 {
            None
        } else {
            opt_chars(*old(last_selected))
        },
{
    let mut names: Vec<Option<String>> = Vec::new();
    let mut i: usize = 0;
    while i < saver_paths.len()
        invariant
            i <= saver_paths@.len(),
            opt_names(names@) == file_names(saver_paths.deep_view()).take(i as int),
        decreases saver_paths@.len() - i,
    {
        let n = file_name_of(saver_paths[i].as_str());
        let ghost old_names = opt_names(names@);
        names.push(n);
        assert(opt_names(names@) =~= old_names.push(opt_chars(n)));
        i = i + 1;
        assert(file_names(saver_paths.deep_view()).take(i as int) =~= file_names(saver_paths.deep_view()).take(
            i - 1,
        ).push(path_file_name(saver_paths@[i - 1]@)));
    }
    assert(file_names(saver_paths.deep_view()).take(i as int) =~= file_names(saver_paths.deep_view()));
    let active_name = file_name_of(global.active_scr.as_str());
    sanitize_with_names(global, last_selected, saver_paths, names.as_slice(), &active_name, active_exists, saver_exists)
}

proof fn lemma_first_set_in_range(flags: Seq<bool>)
    ensures
        first_set(flags) matches Some(i) ==> 0 <= i < flags.len() && flags[i],
    decreases flags.len(),
{
    if flags.len() > 0 && !flags[0] {
        lemma_first_set_in_range(flags.drop_first());
    }
}

/// Repairing is idempotent: a repaired active setting needs no further
/// repair (for the same screensavers, and, when the setting was left as
/// it was, the same answer on whether its path exists), and a kept last
/// selection is kept again.
pub proof fn lemma_sanitize_idempotent(
    scr: Seq<char>,
    active: bool,
    active_exists: bool,
    again_exists: bool,
    paths: Seq<Seq<char>>,
    exists: Seq<bool>,
    last: Option<Seq<char>>,
)
    requires
        paths.len() == exists.len(),
        repaired_active(scr, active, path_file_name(scr), active_exists, paths, file_names(paths), exists).0 == scr
            ==> again_exists == active_exists,
    ensures
        ({
            let (s2, a2) = repaired_active(scr, active, path_file_name(scr), active_exists, paths, file_names(paths), exists);
            repaired_active(s2, a2, path_file_name(s2), again_exists, paths, file_names(paths), exists) == (s2, a2)
        }),
        ({
            let l2 = if last_selected_gone(last, file_names(paths)) { None } else { last };
            !last_selected_gone(l2, file_names(paths))
        }),
{
    let names = file_names(paths);
    let (s2, a2) = repaired_active(scr, active, path_file_name(scr), active_exists, paths, names, exists);
    if active_missing(scr, path_file_name(scr), active_exists, names) {
        match first_set(exists) {
            Some(i) => {
                lemma_first_set_in_range(exists);
                assert(names[i] == path_file_name(s2));
                assert(some_name_is(names, path_file_name(s2)));
            },
            None => {},
        }
    }
}

/// The first set flag is set and every flag before it is clear; with no
/// position given, no flag is set.
pub proof fn lemma_first_set_is_first(flags: Seq<bool>)
    ensures
        first_set(flags) matches Some(i) ==> 0 <= i < flags.len() && flags[i] && forall|j: int| 0 <= j < i ==> !flags[j],
        first_set(flags) is None ==> forall|j: int| 0 <= j < flags.len() ==> !flags[j],
    decreases flags.len(),
{
    if flags.len() > 0 {
        let rest = flags.drop_first();
        lemma_first_set_is_first(rest);
        if !flags[0] {
            if let Some(i) = first_set(rest) {
                assert forall|j: int| 0 <= j < i + 1 implies !flags[j] by {
                    if j > 0 {
                        assert(flags[j] == rest[j - 1]);
                    }
                }
            } else {
                assert forall|j: int| 0 <= j < flags.len() implies !flags[j] by {
                    if j > 0 {
                        assert(flags[j] == rest[j - 1]);
                    }
                }
            }
        }
    }
}

/// When the active screensaver must be reset, it becomes the first
/// screensaver, in the order given, whose file exists, enabled; with none
/// existing it is cleared and disabled. Otherwise it is left as it is.
pub proof fn lemma_repair_picks_first_existing(
    scr: Seq<char>,
    active: bool,
    scr_name: Option<Seq<char>>,
    active_exists: bool,
    paths: Seq<Seq<char>>,
    names: Seq<Option<Seq<char>>>,
    exists: Seq<bool>,
)
    requires
        paths.len() == exists.len(),
    ensures
        ({
            let (s2, a2) = repaired_active(scr, active, scr_name, active_exists, paths, names, exists);
            &&& !active_missing(scr, scr_name, active_exists, names) ==> s2 == scr && a2 == active
            &&& active_missing(scr, scr_name, active_exists, names) && (exists|i: int| 0 <= i < exists.len() && exists[i])
                ==> a2 && exists|i: int|
                0 <= i < exists.len() && exists[i] && s2 == paths[i] && forall|j: int| 0 <= j < i ==> !exists[j]
            &&& active_missing(scr, scr_name, active_exists, names) && !(exists|i: int| 0 <= i < exists.len() && exists[i])
                ==> s2.len() == 0 && !a2
        }),
{
    lemma_first_set_is_first(exists);
}

} // verus!
