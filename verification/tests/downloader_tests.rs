use rsaver::downloader::{
    current_platform, download_file_name, extract_dir_name, is_saver_description, is_tarball, DownloadStatus,
    DownloadEvent, DownloadProgress, RegistryEntry,
};

fn entry(downloads: Option<Vec<(&str, &str)>>, legacy: Option<&str>) -> RegistryEntry {
    RegistryEntry {
        name: "Beams".to_string(),
        author: "Omaxi".to_string(),
        description: "Sweeping beams".to_string(),
        download_url: legacy.map(|s| s.to_string()),
        downloads: downloads.map(|v| v.into_iter().map(|(k, u)| (k.to_string(), u.to_string())).collect()),
        version: "1.0".to_string(),
    }
}

#[test]
fn download_url_prefers_platform_then_linux_then_legacy() {
    let e = entry(Some(vec![("windows", "https://x/beams.scr"), ("linux", "https://x/beams.tar.gz")]), Some("https://x/old.scr"));
    assert_eq!(e.download_url_for_current_platform("windows"), Some("https://x/beams.scr".to_string()));
    assert_eq!(e.download_url_for_current_platform("macos"), Some("https://x/beams.tar.gz".to_string()));
    let e = entry(Some(vec![("windows", "https://x/beams.scr")]), Some("https://x/old.scr"));
    assert_eq!(e.download_url_for_current_platform("macos"), Some("https://x/old.scr".to_string()));
    let e = entry(None, None);
    assert_eq!(e.download_url_for_current_platform("windows"), None);
}

#[test]
fn platform_keys() {
    assert_eq!(current_platform("windows"), "windows");
    assert_eq!(current_platform("linux"), "linux");
    assert_eq!(current_platform("macos"), "macos");
    assert_eq!(current_platform("freebsd"), "unknown");
}

#[test]
fn download_file_names() {
    assert_eq!(download_file_name("https://example.com/files/win-beams.scr"), "win-beams.scr");
    assert_eq!(download_file_name("noslash"), "noslash");
    assert_eq!(download_file_name("https://example.com/"), "");
}

#[test]
fn download_status_values() {
    assert_ne!(DownloadStatus::Downloading, DownloadStatus::Success);
    assert_eq!(DownloadStatus::Error("x".to_string()), DownloadStatus::Error("x".to_string()));
}

#[test]
fn tarball_and_unpacked_files() {
    assert!(is_tarball("dl/beams.tar.gz"));
    assert!(is_tarball("dl/beams.gz"));
    assert!(!is_tarball("dl/beams.scr"));
    assert!(!is_tarball("dl/gz"));
    assert!(is_saver_description("beams.xml"));
    assert!(!is_saver_description("beams"));
    assert!(!is_saver_description("xml"));
    assert_eq!(extract_dir_name("Cosmic Beams"), "cosmic beams_extract");
}

#[test]
fn windows_never_takes_the_linux_download() {
    let e = entry(Some(vec![("linux", "https://x/beams.tar.gz")]), Some("https://x/beams.scr"));
    assert_eq!(e.download_url_for_current_platform("windows"), Some("https://x/beams.scr".to_string()));
    assert_eq!(e.download_url_for_current_platform("linux-deb"), Some("https://x/beams.tar.gz".to_string()));
    let e = entry(Some(vec![("linux", "https://x/beams.tar.gz")]), None);
    assert_eq!(e.download_url_for_current_platform("windows"), None);
}

#[test]
fn download_progress_steps() {
    let mut p = DownloadProgress::new();
    assert_eq!(p, DownloadProgress { downloaded_bytes: 0, total_bytes: 0, status: DownloadStatus::Downloading });
    p.step(DownloadEvent::Started(100));
    p.step(DownloadEvent::Chunk(40));
    p.step(DownloadEvent::Chunk(60));
    assert_eq!(p.downloaded_bytes, 100);
    assert_eq!(p.total_bytes, 100);
    p.step(DownloadEvent::Chunk(u64::MAX));
    assert_eq!(p.downloaded_bytes, u64::MAX);
    assert!(!p.ended());
    p.step(DownloadEvent::Finished);
    assert_eq!(p.status, DownloadStatus::Success);
    assert!(p.ended());
    let done = p.clone();
    p.step(DownloadEvent::Failed("timed out".to_string()));
    p.step(DownloadEvent::Chunk(5));
    p.step(DownloadEvent::Started(7));
    assert_eq!(p, done);
}

#[test]
fn a_failed_download_stays_failed() {
    let mut p = DownloadProgress::new();
    p.step(DownloadEvent::Chunk(10));
    p.step(DownloadEvent::Failed("timed out".to_string()));
    assert_eq!(p.status, DownloadStatus::Error("timed out".to_string()));
    p.step(DownloadEvent::Finished);
    p.step(DownloadEvent::Chunk(10));
    assert_eq!(p, DownloadProgress { downloaded_bytes: 10, total_bytes: 0, status: DownloadStatus::Error("timed out".to_string()) });
}
