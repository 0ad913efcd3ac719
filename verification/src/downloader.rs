//! Entries of the online screensaver catalog and the choice of the file to
//! download for a platform.

use vstd::prelude::*;
use vstd::string::StringExecFns;
use crate::chars::{chars_equal, from_chars, opt_chars, to_chars};
use crate::paths::{extension_of, lowercase, path_extension, to_lowercase};
use crate::preview::{ends_with, has_suffix};

verus! {

/// An entry in the curated screensaver online registry.
/// Platform-specific downloads are listed in `downloads` (preferred); a
/// top-level `download_url` is the fallback, taken as the "windows" one.
#[derive(Debug, Clone)]
pub struct RegistryEntry {
    /// Friendly name of the screensaver.
    pub name: String,
    /// Author / developer name.
    pub author: String,
    /// Brief description of the screensaver.
    pub description: String,
    /// Legacy single download URL.
    pub download_url: Option<String>,
    /// Platform-specific download URLs as (platform, URL) pairs; each
    /// platform is listed once (see `platforms_unique` and `wf`).
    pub downloads: Option<Vec<(String, String)>>,
    /// Current version string.
    pub version: String,
}

/// The status of a background screensaver file download.
#[derive(Debug, Clone, PartialEq, Eq)]
pub enum DownloadStatus {
    /// File download is currently in progress.
    Downloading,
    /// File download finished successfully.
    Success,
    /// An error occurred during download.
    Error(String),
}

/// Where a download stands: the bytes written so far, the size the server
/// announced (0 when it announced none), and the status.
#[derive(Debug, Clone, PartialEq, Eq)]
pub struct DownloadProgress {
    pub downloaded_bytes: u64,
    pub total_bytes: u64,
    pub status: DownloadStatus,
}

/// What happened to a download.
#[derive(Debug, Clone, PartialEq, Eq)]
pub enum DownloadEvent {
    /// The server answered, announcing this size (0 for none).
    Started(u64),
    /// This many more bytes were written.
    Chunk(u64),
    /// Everything was written (and unpacked).
    Finished,
    /// The download failed with this message.
    Failed(String),
}

/// Whether a download has ended, with success or an error.
pub open spec fn has_ended(s: DownloadStatus) -> bool {
    !(s is Downloading)
}

/// The progress after one event: once the download has ended nothing
/// changes; before that, the announced size is recorded, more bytes are
/// counted (saturating at the largest `u64`), or the download ends with
/// success or with the failure's message.
pub open spec fn stepped(p: DownloadProgress, event: DownloadEvent) -> DownloadProgress {
    if has_ended(p.status) {
        p
    } else {
        match event {
            DownloadEvent::Started(total) => DownloadProgress { total_bytes: total, ..p },
            DownloadEvent::Chunk(n) => DownloadProgress {
                downloaded_bytes: if p.downloaded_bytes + n > u64::MAX {
                    u64::MAX
                } else {
                    (p.downloaded_bytes + n) as u64
                },
                ..p
            },
            DownloadEvent::Finished => DownloadProgress { status: DownloadStatus::Success, ..p },
            DownloadEvent::Failed(m) => DownloadProgress { status: DownloadStatus::Error(m), ..p },
        }
    }
}

/// The progress after the events `es`, in order.
pub open spec fn stepped_all(p: DownloadProgress, es: Seq<DownloadEvent>) -> DownloadProgress
    decreases es.len(),
{
    if es.len() == 0 {
        p
    } else {
        stepped(stepped_all(p, es.drop_last()), es.last())
    }
}

impl DownloadProgress {
    /// A download that has not received anything yet.
    pub fn new() -> (p: DownloadProgress)
        ensures
            p.downloaded_bytes == 0,
            p.total_bytes == 0,
            p.status == DownloadStatus::Downloading,
    {
        DownloadProgress { downloaded_bytes: 0, total_bytes: 0, status: DownloadStatus::Downloading }
    }

    /// Records one event (see `stepped`).
    pub fn step(&mut self, event: DownloadEvent)
        ensures
            *final(self) == stepped(*old(self), event),
    {
        match self.status {
            DownloadStatus::Downloading => {},
            _ => return,
        }
        match event {
            DownloadEvent::Started(total) => {
                self.total_bytes = total;
            },
            DownloadEvent::Chunk(n) => {
                self.downloaded_bytes = self.downloaded_bytes.saturating_add(n);
            },
            DownloadEvent::Finished => {
                self.status = DownloadStatus::Success;
            },
            DownloadEvent::Failed(m) => {
                self.status = DownloadStatus::Error(m);
            },
        }
    }

    /// Whether the download has ended (see `has_ended`).
    pub fn ended(&self) -> (r: bool)
        ensures
            r == has_ended(self.status),
    {
        match self.status {
            DownloadStatus::Downloading => false,
            _ => true,
        }
    }
}

/// A download's status changes at most once, from downloading to success
/// or an error; once it has ended, no later events change anything.
pub proof fn lemma_download_settles(p: DownloadProgress, es: Seq<DownloadEvent>)
    ensures
        has_ended(p.status) ==> stepped_all(p, es) == p,
        has_ended(stepped_all(p, es).status) && !has_ended(p.status) ==> exists|k: int|
            0 <= k < es.len() && !has_ended(stepped_all(p, es.take(k)).status) && #[trigger] stepped_all(
                p,
                es.take(k + 1),
            ) == stepped_all(p, es),
    decreases es.len(),
{
    if es.len() > 0 {
        let pre = es.drop_last();
        lemma_download_settles(p, pre);
        assert(es.take(es.len() - 1) =~= pre);
        assert(es.take(es.len() as int) =~= es);
        let q = stepped_all(p, pre);
        if has_ended(q.status) {
            if !has_ended(p.status) {
                let k = choose|k: int|
                    0 <= k < pre.len() && !has_ended(stepped_all(p, pre.take(k)).status) && #[trigger] stepped_all(
                        p,
                        pre.take(k + 1),
                    ) == stepped_all(p, pre);
                assert(pre.take(k) =~= es.take(k));
                assert(pre.take(k + 1) =~= es.take(k + 1));
                assert(stepped_all(p, es) == q);
                assert(stepped_all(p, es.take(k + 1)) == stepped_all(p, es));
            }
        } else if has_ended(stepped_all(p, es).status) {
            let k = es.len() - 1;
            assert(es.take(k) =~= pre);
            assert(stepped_all(p, es.take(k)) == q);
            assert(stepped_all(p, es.take(k + 1)) == stepped_all(p, es));
        }
    }
}

/// The (platform, URL) pairs as text.
pub open spec fn pairs_view(v: Seq<(String, String)>) -> Seq<(Seq<char>, Seq<char>)> {
    v.map_values(|p: (String, String)| (p.0@, p.1@))
}

/// The URL listed for `key`: that of the first pair with this platform.
pub open spec fn lookup(pairs: Seq<(Seq<char>, Seq<char>)>, key: Seq<char>) -> Option<Seq<char>>
    decreases pairs.len(),
{
    if pairs.len() == 0 {
        None
    } else if pairs[0].0 == key {
        Some(pairs[0].1)
    } else {
        lookup(pairs.drop_first(), key)
    }
}

/// No platform is listed twice, as in the catalog's JSON object.
pub open spec fn platforms_unique(pairs: Seq<(Seq<char>, Seq<char>)>) -> bool {
    forall|i: int, j: int| 0 <= i < j < pairs.len() ==> pairs[i].0 != pairs[j].0
}

/// With each platform listed once, looking a platform up gives the URL
/// listed with it, whatever the order of the list, and none for a
/// platform not listed: the list behaves as the catalog's map.
pub proof fn lemma_lookup_is_map_get(pairs: Seq<(Seq<char>, Seq<char>)>, key: Seq<char>)
    requires
        platforms_unique(pairs),
    ensures
        forall|i: int| 0 <= i < pairs.len() && pairs[i].0 == key ==> lookup(pairs, key) == Some(#[trigger] pairs[i].1),
        (forall|i: int| 0 <= i < pairs.len() ==> pairs[i].0 != key) ==> lookup(pairs, key) is None,
    decreases pairs.len(),
{
    if pairs.len() > 0 {
        let rest = pairs.drop_first();
        assert(platforms_unique(rest)) by {
            assert forall|i: int, j: int| 0 <= i < j < rest.len() implies rest[i].0 != rest[j].0 by {
                assert(rest[i] == pairs[i + 1] && rest[j] == pairs[j + 1]);
            }
        }
        lemma_lookup_is_map_get(rest, key);
        assert forall|i: int| 0 <= i < pairs.len() && pairs[i].0 == key implies lookup(pairs, key) == Some(#[trigger] pairs[i].1) by {
            if i > 0 {
                assert(pairs[0].0 != pairs[i].0);
                assert(rest[i - 1] == pairs[i]);
            }
        }
        if forall|i: int| 0 <= i < pairs.len() ==> pairs[i].0 != key {
            assert forall|i: int| 0 <= i < rest.len() implies rest[i].0 != key by {
                assert(rest[i] == pairs[i + 1]);
            }
        }
    }
}

/// The URL to download for `platform`: the one listed for the platform;
/// else, on any platform but "windows", the one listed for "linux"; else
/// the legacy URL, which is the Windows download.
pub open spec fn url_for_platform(
    downloads: Option<Seq<(Seq<char>, Seq<char>)>>,
    legacy: Option<Seq<char>>,
    platform: Seq<char>,
) -> Option<Seq<char>> {
    match downloads {
        Some(m) => match lookup(m, platform) {
            Some(u) => Some(u),
            None => if platform != "windows"@ {
                match lookup(m, "linux"@) {
                    Some(u) => Some(u),
                    None => legacy,
                }
            } else {
                legacy
            },
        },
        None => legacy,
    }
}

impl RegistryEntry {
    /// The platform downloads as text.
    pub open spec fn downloads_view(&self) -> Option<Seq<(Seq<char>, Seq<char>)>> {
        match self.downloads {
            Some(v) => Some(pairs_view(v@)),
            None => None,
        }
    }

    /// Each platform of the downloads is listed once, as the catalog's JSON
    /// object gives them; then the list behaves as that map (see
    /// `lemma_lookup_is_map_get`).
    pub open spec fn wf(&self) -> bool {
        match self.downloads_view() {
            Some(m) => platforms_unique(m),
            None => true,
        }
    }

    /// Returns the best download URL for `platform` (see `url_for_platform`).
    pub fn download_url_for_current_platform(&self, platform: &str) -> (r: Option<String>)
        ensures
            opt_chars(r) == url_for_platform(self.downloads_view(), opt_chars(self.download_url), platform@),
            self.wf() ==> (self.downloads_view() matches Some(m) ==> forall|i: int|
                0 <= i < m.len() && m[i].0 == platform@ ==> opt_chars(r) == Some(#[trigger] m[i].1)),
    {
        proof {
            if let Some(m) = self.downloads_view() {
                if self.wf() {
                    lemma_lookup_is_map_get(m, platform@);
                }
            }
        }
        if let Some(map) = &self.downloads {
            if let Some(url) = find_url(map, platform) {
                return Some(url);
            }
            let pv = to_chars(platform);
            let win = to_chars("windows");
            if !chars_equal(pv.as_slice(), win.as_slice()) {
                if let Some(url) = find_url(map, "linux") {
                    return Some(url);
                }
            }
        }
        match &self.download_url {
            Some(u) => Some(u.clone()),
            None => None,
        }
    }
}

/// The URL listed for `key` among `map` (see `lookup`).
fn find_url(map: &Vec<(String, String)>, key: &str) -> (r: Option<String>)
    ensures
        opt_chars(r) == lookup(pairs_view(map@), key@),
{
    let kv = to_chars(key);
    let mut i: usize = 0;
    assert(pairs_view(map@).skip(0) =~= pairs_view(map@));
    while i < map.len()
        invariant
            i <= map@.len(),
            kv@ == key@,
            lookup(pairs_view(map@), key@) == lookup(pairs_view(map@).skip(i as int), key@),
        decreases map@.len() - i,
    {
        let ghost rest = pairs_view(map@).skip(i as int);
        assert(rest.drop_first() =~= pairs_view(map@).skip(i + 1));
        let pv = to_chars(map[i].0.as_str());
        if chars_equal(pv.as_slice(), kv.as_slice()) {
            return Some(map[i].1.clone());
        }
        i = i + 1;
    }
    None
}

/// The platform key of the downloads list for the operating system `os`
/// (as `std::env::consts::OS` names it).
pub open spec fn platform_key(os: Seq<char>) -> Seq<char> {
    if os == "windows"@ {
        "windows"@
    } else if os == "linux"@ {
        "linux"@
    } else if os == "macos"@ {
        "macos"@
    } else {
        "unknown"@
    }
}

/// The platform key for the operating system `os`: "windows", "linux" or
/// "macos", else "unknown".
pub fn current_platform(os: &str) -> (r: &'static str)
    ensures
        r@ == platform_key(os@),
{
    let v = to_chars(os);
    if chars_equal(v.as_slice(), to_chars("windows").as_slice()) {
        "windows"
    } else if chars_equal(v.as_slice(), to_chars("linux").as_slice()) {
        "linux"
    } else if chars_equal(v.as_slice(), to_chars("macos").as_slice()) {
        "macos"
    } else {
        "unknown"
    }
}

/// The text after the last `/` of `s` (all of `s` when it has none).
pub open spec fn after_last_slash(s: Seq<char>) -> Seq<char>
    decreases s.len(),
{
    if s.len() == 0 {
        s
    } else if s.last() == '/' {
        seq![]
    } else {
        after_last_slash(s.drop_last()).push(s.last())
    }
}

/// The file name a download is saved under: the last `/`-separated part
/// of its URL.
pub fn download_file_name(url: &str) -> (r: String)
    ensures
        r@ == after_last_slash(url@),
{
    let v = to_chars(url);
    let mut start: usize = 0;
    let mut i: usize = 0;
    while i < v.len()
        invariant
            v@ == url@,
            start <= i <= v@.len(),
            after_last_slash(v@.take(i as int)) == v@.subrange(start as int, i as int),
        decreases v@.len() - i,
    {
        proof {
            assert(v@.take(i + 1).drop_last() =~= v@.take(i as int));
        }
        if v[i] == '/' {
            start = i + 1;
            assert(v@.subrange(start as int, i + 1) =~= Seq::<char>::empty());
        } else {
            assert(v@.subrange(start as int, i + 1) =~= v@.subrange(start as int, i as int).push(v@[i as int]));
        }
        i = i + 1;
    }
    assert(v@.take(i as int) =~= v@);
    let tail = crate::chars::skip_chars(v.as_slice(), start);
    assert(tail@ =~= v@.subrange(start as int, i as int));
    from_chars(tail.as_slice())
}


/// Whether a downloaded file at `path` is a tarball to unpack: its
/// extension is "gz" or its path ends with ".tar.gz".
pub fn is_tarball(path: &str) -> (r: bool)
    ensures
        r == (path_extension(path@) == Some("gz"@) || has_suffix(path@, ".tar.gz"@)),
{
    let gz = to_chars("gz");
    let by_ext = match extension_of(path) {
        Some(e) => {
            let ev = to_chars(e.as_str());
            chars_equal(ev.as_slice(), gz.as_slice())
        },
        None => false,
    };
    let pv = to_chars(path);
    let suffix = to_chars(".tar.gz");
    by_ext || ends_with(pv.as_slice(), suffix.as_slice())
}

/// Whether a file unpacked from a tarball is a screensaver description
/// (its name ends with ".xml") rather than the program itself.
pub fn is_saver_description(file_name: &str) -> (r: bool)
    ensures
        r == has_suffix(file_name@, ".xml"@),
{
    let v = to_chars(file_name);
    let suffix = to_chars(".xml");
    ends_with(v.as_slice(), suffix.as_slice())
}

/// The folder a tarball of the screensaver `saver_name` is unpacked into:
/// the name in lower case followed by "_extract".
pub fn extract_dir_name(saver_name: &str) -> (r: String)
    ensures
        r@ == lowercase(saver_name@) + "_extract"@,
{
    let mut r = to_lowercase(saver_name);
    r.append("_extract");
    r
}

} // verus!
