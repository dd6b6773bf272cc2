use gimmeurl::sandbox::{FileStat, IndexEntry, SandboxBase, Watcher};
use gimmeurl::transfer::{Reading, TrafficMeter, UploadProgress};

fn file(size: u64) -> Option<FileStat> {
    Some(FileStat { is_file: true, size })
}

fn entry(path: &str, file_id: &str) -> IndexEntry {
    IndexEntry { path: path.to_string(), file_id: file_id.to_string() }
}

/// Runs one scan per item of `history` over one file, and says whether the last
/// one took the file to be complete.
fn complete_after(history: &[Option<u64>]) -> bool {
    let mut watcher = Watcher::new();
    let mut complete = false;
    for seen in history {
        complete = match seen {
            Some(size) => watcher.observe("a.txt", "/s/a.txt", file(*size)),
            None => false,
        };
        assert!(watcher.finish_scan(vec![]).is_empty());
    }
    complete
}

#[test]
fn sandbox_places() {
    assert_eq!(SandboxBase::choose_base(true, true), SandboxBase::Documents);
    assert_eq!(SandboxBase::choose_base(true, false), SandboxBase::Documents);
    assert_eq!(SandboxBase::choose_base(false, true), SandboxBase::Home);
    assert_eq!(SandboxBase::choose_base(false, false), SandboxBase::Temp);
    assert_eq!(SandboxBase::Documents.folder_name(), "GimmeURL Sandbox");
    assert_eq!(SandboxBase::Home.folder_name(), "GimmeURL Sandbox");
    assert_eq!(SandboxBase::Temp.folder_name(), "gimmeurl_sandbox");
}

#[test]
fn files_wait_until_their_size_settles() {
    assert!(!complete_after(&[Some(10)]));
    assert!(complete_after(&[Some(10), Some(10)]));
    assert!(complete_after(&[Some(10), Some(10), Some(10)]));
    assert!(!complete_after(&[Some(10), Some(20)]));
    assert!(!complete_after(&[Some(10), Some(20), Some(20)]));
    assert!(complete_after(&[Some(10), Some(20), Some(20), Some(20)]));
    assert!(!complete_after(&[Some(10), None, Some(10)]));
    assert!(complete_after(&[Some(20), None, Some(10), Some(10)]));
    assert!(complete_after(&[Some(0), Some(0)]));
}

#[test]
fn long_stable_files_stay_complete() {
    assert!(complete_after(&vec![Some(5); 600]));
}

#[test]
fn entries_that_do_not_count_are_passed_over() {
    let mut watcher = Watcher::new();
    for _ in 0..3 {
        assert!(!watcher.observe(".hidden", "/s/.hidden", file(1)));
        assert!(!watcher.observe("dir", "/s/dir", Some(FileStat { is_file: false, size: 1 })));
        assert!(!watcher.observe("gone", "/s/gone", None));
        let gone = watcher.finish_scan(vec![entry("/s/.hidden", "h"), entry("/s/gone", "g")]);
        assert_eq!(gone.len(), 2);
    }
}

#[test]
fn paths_that_a_scan_misses_are_reported() {
    let mut watcher = Watcher::new();
    watcher.observe("a", "/s/a", file(1));
    watcher.observe("c", "/s/c", file(1));
    let gone = watcher.finish_scan(vec![
        entry("/s/a", "1"),
        entry("/s/b", "2"),
        entry("/s/c", "3"),
        entry("/s/d", "4"),
    ]);
    let gone: Vec<(&str, &str)> =
        gone.iter().map(|e| (e.path.as_str(), e.file_id.as_str())).collect();
    assert_eq!(gone, vec![("/s/b", "2"), ("/s/d", "4")]);
}

#[test]
fn scans_start_afresh() {
    let mut watcher = Watcher::new();
    watcher.observe("a", "/s/a", file(1));
    assert!(watcher.finish_scan(vec![entry("/s/a", "1")]).is_empty());
    assert_eq!(watcher.finish_scan(vec![entry("/s/a", "1")]).len(), 1);
}

#[test]
fn files_are_watched_apart() {
    let mut watcher = Watcher::new();
    assert!(!watcher.observe("a", "/s/a", file(1)));
    watcher.finish_scan(vec![]);
    assert!(!watcher.observe("b", "/s/b", file(1)));
    assert!(watcher.observe("a", "/s/a", file(1)));
    watcher.finish_scan(vec![]);
    assert!(watcher.observe("b", "/s/b", file(1)));
}

#[test]
fn upload_sizes_add_up() {
    let mut progress = UploadProgress::new();
    assert!(progress.wrote(100, true));
    assert!(progress.wrote(0, true));
    assert!(progress.wrote(23, true));
    assert_eq!(progress.finish(true), Some(123));
}

#[test]
fn failed_uploads_count_as_empty() {
    let mut progress = UploadProgress::new();
    assert!(progress.wrote(100, true));
    assert!(!progress.wrote(50, false));
    assert_eq!(progress.finish(true), Some(0));

    let mut progress = UploadProgress::new();
    assert!(!progress.wrote(50, false));
    assert_eq!(progress.finish(false), None);
}

#[test]
fn empty_uploads_need_a_file() {
    assert_eq!(UploadProgress::new().finish(true), Some(0));
    assert_eq!(UploadProgress::new().finish(false), None);
}

#[test]
fn sized_uploads_are_registered_in_any_case() {
    let mut progress = UploadProgress::new();
    progress.wrote(1, true);
    assert_eq!(progress.finish(false), Some(1));
}

#[test]
fn traffic_between_readings() {
    let mut meter = TrafficMeter::new();
    assert_eq!(meter.sample(Reading { up: 10, down: 4 }), Reading { up: 10, down: 4 });
    assert_eq!(meter.sample(Reading { up: 10, down: 9 }), Reading { up: 0, down: 5 });
    assert_eq!(meter.sample(Reading { up: 25, down: 9 }), Reading { up: 15, down: 0 });
}
