//! Screensaver files found on disk: which files count, the name each is
//! listed under, and the order of the list.

use vstd::prelude::*;
use vstd::string::StringExecFns;
use crate::chars::{chars_equal, concat_chars, from_chars, has_prefix, opt_chars, skip_chars, starts_with, take_chars, to_chars};
use crate::paths::{
    char_to_uppercase, char_uppercase, extension_of, file_name_of, lowercase, parent_of, path_extension, path_file_name,
    path_parent, paths_equal, same_path, to_lowercase,
};

verus! {

broadcast use vstd::seq_lib::group_to_multiset_ensures;

/// The file names, in lower case, of the screensavers that ship with
/// Windows.
pub open spec fn stock_names() -> Seq<Seq<char>> {
    seq![
        "bubbles.scr"@,
        "mystify.scr"@,
        "ribbons.scr"@,
        "scrnsave.scr"@,
        "sstext3d.scr"@,
        "photoscreensaver.scr"@,
    ]
}

/// Whether the screensaver at path `p` ships with Windows: its file name,
/// in lower case, is a stock one.
pub open spec fn is_stock_path(p: Seq<char>) -> bool {
    match path_file_name(p) {
        Some(n) => stock_names().contains(lowercase(n)),
        None => false,
    }
}

/// Whether a file name already in lower case is that of a stock
/// screensaver (see `stock_names`).
pub fn is_stock_name(lower_name: &str) -> (r: bool)
    ensures
        r == stock_names().contains(lower_name@),
{
    let lv = to_chars(lower_name);
    let names = ["bubbles.scr", "mystify.scr", "ribbons.scr", "scrnsave.scr", "sstext3d.scr", "photoscreensaver.scr"];
    assert(names@.len() == 6);
    let mut i: usize = 0;
    while i < 6
        invariant
            i <= 6,
            lv@ == lower_name@,
            names@.len() == 6,
            forall|k: int| 0 <= k < 6 ==> #[trigger] names@[k]@ == stock_names()[k],
            forall|k: int| 0 <= k < i ==> stock_names()[k] != lv@,
        decreases 6 - i,
    {
        let nv = to_chars(names[i]);
        if chars_equal(lv.as_slice(), nv.as_slice()) {
            assert(stock_names()[i as int] == lv@);
            return true;
        }
        i = i + 1;
    }
    assert(!stock_names().contains(lv@));
    false
}

/// Whether the screensaver at `path` ships with Windows (see
/// `is_stock_path`).
pub fn is_stock_screensaver(path: &str) -> (r: bool)
    ensures
        r == is_stock_path(path@),
{
    match file_name_of(path) {
        Some(name) => is_stock_name(to_lowercase(name.as_str()).as_str()),
        None => false,
    }
}

/// Whether the extension `e` is "scr" in any ASCII case.
pub open spec fn is_scr_ext(e: Seq<char>) -> bool {
    &&& e.len() == 3
    &&& (e[0] == 's' || e[0] == 'S')
    &&& (e[1] == 'c' || e[1] == 'C')
    &&& (e[2] == 'r' || e[2] == 'R')
}

/// Whether the extension `e` is "scr" in any ASCII case.
pub fn is_scr_extension(e: &str) -> (r: bool)
    ensures
        r == is_scr_ext(e@),
{
    let v = to_chars(e);
    v.len() == 3 && (v[0] == 's' || v[0] == 'S') && (v[1] == 'c' || v[1] == 'C') && (v[2] == 'r' || v[2] == 'R')
}

/// Whether the file at `path` is a screensaver: its extension is "scr" in
/// any ASCII case.
pub fn is_screensaver_file(path: &str) -> (r: bool)
    ensures
        r == match path_extension(path@) {
            Some(e) => is_scr_ext(e),
            None => false,
        },
{
    match extension_of(path) {
        Some(e) => is_scr_extension(e.as_str()),
        None => false,
    }
}

/// `s` with its first character in upper case (`char::to_uppercase`).
pub open spec fn capitalized(s: Seq<char>) -> Seq<char> {
    if s.len() == 0 {
        s
    } else {
        char_uppercase(s[0]) + s.drop_first()
    }
}

/// Whether `s` ends with `suffix`.
pub open spec fn has_suffix(s: Seq<char>, suffix: Seq<char>) -> bool {
    suffix.len() <= s.len() && s.skip(s.len() - suffix.len()) == suffix
}

/// The part of `name` between a leading "omaxi-" and a final ".scr", when
/// it has both.
pub open spec fn omaxi_stem_of(name: Seq<char>) -> Option<Seq<char>> {
    if has_prefix(name, "omaxi-"@) && has_suffix(name.skip(6), ".scr"@) {
        Some(name.subrange(6, name.len() - 4))
    } else {
        None
    }
}

/// `name` without a final ".scr".
pub open spec fn without_scr(name: Seq<char>) -> Seq<char> {
    if has_suffix(name, ".scr"@) {
        name.take(name.len() - 4)
    } else {
        name
    }
}

/// The name a screensaver file is listed under: for a file whose lower-case
/// name starts with "omaxi-", the name between "omaxi-" and ".scr" with
/// its first letter in upper case (the whole file name when it lacks that
/// exact prefix or suffix); for any other file, its name without a final
/// ".scr".
pub open spec fn pretty_name(name: Seq<char>) -> Seq<char> {
    if has_prefix(lowercase(name), "omaxi-"@) {
        match omaxi_stem_of(name) {
            Some(stem) => capitalized(stem),
            None => name,
        }
    } else {
        without_scr(name)
    }
}

pub(crate) fn ends_with(v: &[char], suffix: &[char]) -> (r: bool)
    ensures
        r == has_suffix(v@, suffix@),
{
    if suffix.len() > v.len() {
        return false;
    }
    let tail = skip_chars(v, v.len() - suffix.len());
    chars_equal(tail.as_slice(), suffix)
}

/// The part of `name` between "omaxi-" and ".scr" (see `omaxi_stem_of`).
pub fn omaxi_stem(name: &str) -> (r: Option<String>)
    ensures
        opt_chars(r) == omaxi_stem_of(name@),
{
    proof {
        reveal_strlit("omaxi-");
        reveal_strlit(".scr");
    }
    let v = to_chars(name);
    let prefix = to_chars("omaxi-");
    let suffix = to_chars(".scr");
    if starts_with(v.as_slice(), prefix.as_slice()) {
        let after = skip_chars(v.as_slice(), 6);
        if ends_with(after.as_slice(), suffix.as_slice()) {
            let stem = take_chars(after.as_slice(), after.len() - 4);
            assert(stem@ =~= v@.subrange(6, v@.len() - 4));
            return Some(from_chars(stem.as_slice()));
        }
    }
    None
}

/// `name` without a final ".scr" (see `without_scr`).
pub fn strip_scr(name: &str) -> (r: String)
    ensures
        r@ == without_scr(name@),
{
    proof {
        reveal_strlit(".scr");
    }
    let v = to_chars(name);
    let suffix = to_chars(".scr");
    if ends_with(v.as_slice(), suffix.as_slice()) {
        let stem = take_chars(v.as_slice(), v.len() - 4);
        return from_chars(stem.as_slice());
    }
    from_chars(v.as_slice())
}

/// The non-empty `stem` with its first character replaced by `first_upper`.
pub fn join_capitalized(first_upper: &str, stem: &str) -> (r: String)
    requires
        stem@.len() > 0,
    ensures
        r@ == first_upper@ + stem@.drop_first(),
{
    let up = to_chars(first_upper);
    let v = to_chars(stem);
    let rest = skip_chars(v.as_slice(), 1);
    assert(rest@ =~= v@.drop_first());
    from_chars(concat_chars(up.as_slice(), rest.as_slice()).as_slice())
}

/// The name a screensaver file `name` is listed under, given its name in
/// lower case `lower` and the upper-case form `up` of its seventh
/// character (the first after "omaxi-"): as `pretty_name`, with those in
/// place of the case mappings.
pub open spec fn pretty_name_given(name: Seq<char>, lower: Seq<char>, up: Seq<char>) -> Seq<char> {
    if has_prefix(lower, "omaxi-"@) {
        match omaxi_stem_of(name) {
            Some(stem) => if stem.len() == 0 {
                stem
            } else {
                up + stem.drop_first()
            },
            None => name,
        }
    } else {
        without_scr(name)
    }
}

/// The listed name of the screensaver file `name`, from its lower-case
/// form and the upper-case form of its seventh character (see
/// `pretty_name_given`).
pub fn pretty_name_from(name: &str, lower_name: &str, first_upper: &str) -> (r: String)
    ensures
        r@ == pretty_name_given(name@, lower_name@, first_upper@),
{
    let low = to_chars(lower_name);
    let prefix = to_chars("omaxi-");
    if starts_with(low.as_slice(), prefix.as_slice()) {
        match omaxi_stem(name) {
            Some(stem) => {
                let sv = to_chars(stem.as_str());
                if sv.len() == 0 {
                    return stem;
                }
                join_capitalized(first_upper, stem.as_str())
            },
            None => String::from_str(name),
        }
    } else {
        strip_scr(name)
    }
}

/// The name the screensaver file `name` is listed under (see `pretty_name`).
pub fn pretty_screensaver_name(name: &str) -> (r: String)
    ensures
        r@ == pretty_name(name@),
{
    let lower = to_lowercase(name);
    let v = to_chars(name);
    let up = if v.len() > 6 { char_to_uppercase(v[6]) } else { String::new() };
    let r = pretty_name_from(name, lower.as_str(), up.as_str());
    proof {
        reveal_strlit("omaxi-");
        reveal_strlit(".scr");
        if has_prefix(lowercase(name@), "omaxi-"@) {
            if let Some(stem) = omaxi_stem_of(name@) {
                if stem.len() > 0 {
                    assert(name@.len() > 6);
                    assert(stem[0] == name@[6]);
                    assert(up@ == char_uppercase(name@[6]));
                }
            }
        }
    }
    r
}

/// The list entry (listed name, path) for the file at `path`: `Some` for a
/// screensaver file that has a file name.
pub fn screensaver_entry(path: &str) -> (r: Option<(String, String)>)
    ensures
        r is Some <==> ((match path_extension(path@) {
            Some(e) => is_scr_ext(e),
            None => false,
        }) && path_file_name(path@) is Some),
        r matches Some(e) ==> e.0@ == pretty_name(path_file_name(path@)->0) && e.1@ == path@,
{
    if !is_screensaver_file(path) {
        return None;
    }
    match file_name_of(path) {
        Some(n) => Some((pretty_screensaver_name(n.as_str()), String::from_str(path))),
        None => None,
    }
}

/// Whether `a` comes no later than `b` in the order of `String`: by
/// character codes from the left, a prefix first.
pub open spec fn name_le(a: Seq<char>, b: Seq<char>) -> bool
    decreases a.len(),
{
    if a.len() == 0 {
        true
    } else if b.len() == 0 {
        false
    } else if a[0] != b[0] {
        a[0] < b[0]
    } else {
        name_le(a.drop_first(), b.drop_first())
    }
}

/// Any two names are ordered one way or the other.
pub proof fn lemma_name_le_total(a: Seq<char>, b: Seq<char>)
    ensures
        name_le(a, b) || name_le(b, a),
    decreases a.len(),
{
    if a.len() > 0 && b.len() > 0 && a[0] == b[0] {
        lemma_name_le_total(a.drop_first(), b.drop_first());
    }
}

/// The order of names is transitive.
pub proof fn lemma_name_le_transitive(a: Seq<char>, b: Seq<char>, c: Seq<char>)
    requires
        name_le(a, b),
        name_le(b, c),
    ensures
        name_le(a, c),
    decreases a.len(),
{
    if a.len() > 0 && b.len() > 0 && c.len() > 0 && a[0] == b[0] && b[0] == c[0] {
        lemma_name_le_transitive(a.drop_first(), b.drop_first(), c.drop_first());
    }
}

fn names_le(a: &str, b: &str) -> (r: bool)
    ensures
        r == name_le(a@, b@),
{
    let av = to_chars(a);
    let bv = to_chars(b);
    let mut i: usize = 0;
    assert(a@.skip(0) =~= a@);
    assert(b@.skip(0) =~= b@);
    while i < av.len() && i < bv.len() && av[i] == bv[i]
        invariant
            av@ == a@,
            bv@ == b@,
            i <= av@.len(),
            i <= bv@.len(),
            name_le(a@, b@) == name_le(a@.skip(i as int), b@.skip(i as int)),
        decreases av@.len() - i,
    {
        assert(a@.skip(i as int).drop_first() =~= a@.skip(i + 1));
        assert(b@.skip(i as int).drop_first() =~= b@.skip(i + 1));
        i = i + 1;
    }
    if i == av.len() {
        return true;
    }
    if i == bv.len() {
        return false;
    }
    av[i] < bv[i]
}

/// Whether the entries are in order of their names.
pub open spec fn sorted_by_name(s: Seq<(String, String)>) -> bool {
    forall|i: int, j: int| 0 <= i < j < s.len() ==> name_le(s[i].0@, s[j].0@)
}

/// Every name comes no later than itself.
pub proof fn lemma_name_le_reflexive(a: Seq<char>)
    ensures
        name_le(a, a),
    decreases a.len(),
{
    if a.len() > 0 {
        lemma_name_le_reflexive(a.drop_first());
    }
}

/// `perm` tells where each entry of `r` stood in `v`: it is a one-to-one
/// map onto the positions of `v`, and entries with equal names keep the
/// order they had in `v`.
pub open spec fn stable_arrangement(r: Seq<(String, String)>, v: Seq<(String, String)>, perm: Seq<int>) -> bool {
    &&& perm.len() == r.len()
    &&& r.len() == v.len()
    &&& forall|k: int| 0 <= k < r.len() ==> 0 <= #[trigger] perm[k] < v.len() && r[k] == v[perm[k]]
    &&& forall|k1: int, k2: int| 0 <= k1 < k2 < r.len() ==> perm[k1] != perm[k2]
    &&& forall|k1: int, k2: int|
        0 <= k1 < k2 < r.len() && r[k1].0@ == r[k2].0@ ==> perm[k1] < perm[k2]
}

/// The entries in order of their names (the order of `String`), the same
/// entries as given, those with equal names in the order they were given.
pub fn sort_by_name(v: &Vec<(String, String)>) -> (r: Vec<(String, String)>)
    ensures
        sorted_by_name(r@),
        r@.to_multiset() == v@.to_multiset(),
        exists|perm: Seq<int>| stable_arrangement(r@, v@, perm),
{
    let mut out: Vec<(String, String)> = Vec::new();
    let ghost mut perm: Seq<int> = Seq::empty();
    let mut i: usize = 0;
    while i < v.len()
        invariant
            i <= v@.len(),
            sorted_by_name(out@),
            out@.to_multiset() == v@.take(i as int).to_multiset(),
            stable_arrangement(out@, v@.take(i as int), perm),
        decreases v@.len() - i,
    {
        let x = (v[i].0.clone(), v[i].1.clone());
        assert(x == v@[i as int]);
        let mut p: usize = 0;
        while p < out.len() && names_le(out[p].0.as_str(), x.0.as_str())
            invariant
                p <= out@.len(),
                forall|k: int| 0 <= k < p ==> name_le(out@[k].0@, x.0@),
            decreases out@.len() - p,
        {
            p = p + 1;
        }
        let ghost before = out@;
        let ghost old_perm = perm;
        proof {
            if p < out@.len() {
                lemma_name_le_total(out@[p as int].0@, x.0@);
            }
        }
        out.insert(p, x);
        proof {
            perm = old_perm.insert(p as int, i as int);
            let vt = v@.take(i + 1);
            assert(vt =~= v@.take(i as int).push(x));
            assert forall|a: int, b: int| 0 <= a < b < out@.len() implies name_le(out@[a].0@, out@[b].0@) by {
                if a < p && b == p {
                } else if a == p && b > p {
                    if b - 1 > p as int {
                        lemma_name_le_transitive(x.0@, before[p as int].0@, before[b - 1].0@);
                    }
                } else if a < p && b > p {
                    assert(name_le(before[a].0@, before[b - 1].0@));
                } else if b < p {
                    assert(name_le(before[a].0@, before[b].0@));
                } else {
                    assert(name_le(before[a - 1].0@, before[b - 1].0@));
                }
            }
            assert forall|k: int| 0 <= k < out@.len() implies 0 <= #[trigger] perm[k] < vt.len() && out@[k] == vt[perm[k]] by {
                if k < p {
                    assert(perm[k] == old_perm[k]);
                } else if k > p {
                    assert(perm[k] == old_perm[k - 1]);
                }
            }
            assert forall|k1: int, k2: int| 0 <= k1 < k2 < out@.len() implies perm[k1] != perm[k2] by {
                let o1 = if k1 < p { k1 } else { k1 - 1 };
                let o2 = if k2 < p { k2 } else { k2 - 1 };
                if k1 != p && k2 != p {
                    assert(perm[k1] == old_perm[o1]);
                    assert(perm[k2] == old_perm[o2]);
                } else if k1 == p {
                    assert(old_perm[o2] < i);
                } else {
                    assert(old_perm[o1] < i);
                }
            }
            assert forall|k1: int, k2: int|
                0 <= k1 < k2 < out@.len() && out@[k1].0@ == out@[k2].0@ implies perm[k1] < perm[k2] by {
                if k1 != p && k2 != p {
                    let o1 = if k1 < p { k1 } else { k1 - 1 };
                    let o2 = if k2 < p { k2 } else { k2 - 1 };
                    assert(perm[k1] == old_perm[o1]);
                    assert(perm[k2] == old_perm[o2]);
                    assert(before[o1] == out@[k1]);
                    assert(before[o2] == out@[k2]);
                } else if k2 == p {
                    assert(old_perm[k1] < i);
                } else {
                    // k1 == p: the later entry has a greater name, so the names differ.
                    lemma_name_le_reflexive(x.0@);
                    if k2 - 1 > p as int {
                        assert(name_le(before[p as int].0@, before[k2 - 1].0@));
                        assert(before[k2 - 1].0@ == x.0@);
                        lemma_name_le_transitive(before[p as int].0@, before[k2 - 1].0@, x.0@);
                    } else {
                        assert(before[p as int].0@ == x.0@);
                    }
                    assert(false);
                }
            }
        }
        i = i + 1;
    }
    assert(v@.take(i as int) =~= v@);
    out
}

/// The list entries as text.
pub open spec fn entry_views(v: Seq<(String, String)>) -> Seq<(Seq<char>, Seq<char>)> {
    v.map_values(|e: (String, String)| (e.0@, e.1@))
}

/// Whether the file at path `p` is listed: a screensaver file (see
/// `is_scr_ext`) with a file name.
pub open spec fn is_listed(p: Seq<char>) -> bool {
    &&& match path_extension(p) {
        Some(e) => is_scr_ext(e),
        None => false,
    }
    &&& path_file_name(p) is Some
}

/// The entries (listed name, path) of the screensaver files among
/// `paths`, in the order of `paths`.
pub open spec fn found_entries(paths: Seq<Seq<char>>) -> Seq<(Seq<char>, Seq<char>)>
    decreases paths.len(),
{
    if paths.len() == 0 {
        seq![]
    } else {
        let rest = found_entries(paths.drop_last());
        let p = paths.last();
        if is_listed(p) {
            rest.push((pretty_name(path_file_name(p)->0), p))
        } else {
            rest
        }
    }
}

/// `perm` tells where each entry of `r` stood in `v`: one to one, onto,
/// and entries with equal names keep their order.
pub open spec fn stable_view_arrangement(
    r: Seq<(Seq<char>, Seq<char>)>,
    v: Seq<(Seq<char>, Seq<char>)>,
    perm: Seq<int>,
) -> bool {
    &&& perm.len() == r.len()
    &&& r.len() == v.len()
    &&& forall|k: int| 0 <= k < r.len() ==> 0 <= #[trigger] perm[k] < v.len() && r[k] == v[perm[k]]
    &&& forall|k1: int, k2: int| 0 <= k1 < k2 < r.len() ==> perm[k1] != perm[k2]
    &&& forall|k1: int, k2: int| 0 <= k1 < k2 < r.len() && r[k1].0 == r[k2].0 ==> perm[k1] < perm[k2]
}

/// The screensavers among the files at `paths`: the entry of each
/// screensaver file (see `found_entries`), in order of their names, those
/// with equal names in the order of `paths`.
pub fn discovered(paths: &Vec<String>) -> (r: Vec<(String, String)>)
    ensures
        sorted_by_name(r@),
        exists|perm: Seq<int>| stable_view_arrangement(entry_views(r@), found_entries(paths.deep_view()), perm),
{
    let ghost all = paths.deep_view();
    let mut found: Vec<(String, String)> = Vec::new();
    let mut i: usize = 0;
    while i < paths.len()
        invariant
            all == paths.deep_view(),
            i <= all.len(),
            entry_views(found@) == found_entries(all.take(i as int)),
        decreases all.len() - i,
    {
        proof {
            assert(all.take(i + 1).drop_last() =~= all.take(i as int));
            assert(all.take(i + 1).last() == all[i as int]);
        }
        let ghost before = found@;
        match screensaver_entry(paths[i].as_str()) {
            Some(e) => {
                found.push(e);
                proof {
                    assert(entry_views(found@) =~= entry_views(before).push((found@.last().0@, found@.last().1@)));
                }
            },
            None => {},
        }
        i = i + 1;
    }
    proof {
        assert(all.take(i as int) =~= all);
    }
    let r = sort_by_name(&found);
    proof {
        let perm = choose|perm: Seq<int>| stable_arrangement(r@, found@, perm);
        let rv = entry_views(r@);
        let fv = entry_views(found@);
        assert forall|k: int| 0 <= k < rv.len() implies 0 <= #[trigger] perm[k] < fv.len() && rv[k] == fv[perm[k]] by {
            assert(r@[k] == found@[perm[k]]);
        }
        assert(stable_view_arrangement(rv, fv, perm));
    }
    r
}

/// Whether the screensaver at `path` is a downloaded one: it lies
/// directly in the drop folder `drop_dir`, compared as paths.
pub open spec fn in_drop_folder(path: Seq<char>, drop_dir: Seq<char>) -> bool {
    match path_parent(path) {
        Some(d) => same_path(d, drop_dir),
        None => false,
    }
}

/// Whether the screensaver at `path` was downloaded into the drop folder
/// `drop_dir` (see `in_drop_folder`); only those can be deleted from the
/// list.
pub fn is_downloaded(path: &str, drop_dir: &str) -> (r: bool)
    ensures
        r == in_drop_folder(path@, drop_dir@),
{
    match parent_of(path) {
        Some(d) => paths_equal(d.as_str(), drop_dir),
        None => false,
    }
}

} // verus!
