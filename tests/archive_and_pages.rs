use photo4share::archive::{advance, cache_paths, sort_names, ArchiveReport, ZipFailure, ZipStage, ZipStep};
use photo4share::models::AppState;
use photo4share::pages::{
    archive_download_name, attachment_disposition, error_response, handle_404, index,
    visible_names, CalendarDate, IndexPage,
};

fn state() -> AppState {
    AppState {
        share_dir: "/srv/share".to_string(),
        share_key: "s3cret".to_string(),
        greet: "Hi".to_string(),
    }
}

#[test]
fn listing_is_sorted_and_behind_the_cookie() {
    let names = vec!["b.txt".to_string(), "a.txt".to_string()];
    match index(&state(), Some("s3cret"), &names) {
        IndexPage::Listing { page } => {
            assert_eq!(page.files, vec!["a.txt", "b.txt"]);
            assert_eq!(page.greet, "Hi");
        }
        IndexPage::RedirectToLogin => panic!("signed in"),
    }
    assert!(matches!(index(&state(), None, &names), IndexPage::RedirectToLogin));
    assert!(matches!(index(&state(), Some("bad"), &names), IndexPage::RedirectToLogin));
}

#[test]
fn listing_leaves_out_hidden_files() {
    let names = vec!["a.txt".to_string(), ".hidden".to_string(), "b.txt".to_string()];
    match index(&state(), Some("s3cret"), &names) {
        IndexPage::Listing { page } => assert_eq!(page.files, vec!["a.txt", "b.txt"]),
        IndexPage::RedirectToLogin => panic!("signed in"),
    }
    assert_eq!(visible_names(&names), vec!["a.txt", "b.txt"]);
    assert_eq!(visible_names(&vec![".a".to_string(), ".b".to_string()]), Vec::<String>::new());
}

#[test]
fn sort_names_is_bytewise() {
    let names = vec!["b".to_string(), "A".to_string(), "a".to_string(), "".to_string()];
    assert_eq!(sort_names(&names), vec!["", "A", "a", "b"]);
}

#[test]
fn cache_paths_are_keyed_by_fingerprint() {
    let p = cache_paths("/srv/share", "abc123");
    assert_eq!(p.dir, "/srv/share/.zipcache");
    assert_eq!(p.archive, "/srv/share/.zipcache/abc123.zip");
    assert_eq!(p.temp, "/srv/share/.zipcache/abc123.tmp");
    let q = cache_paths("/srv/share/", "abc123");
    assert_eq!(q.archive, p.archive);
}

#[test]
fn cached_archive_is_served_without_building() {
    assert_eq!(advance(ZipStage::Fingerprint, true), ZipStep::Next(ZipStage::OpenCached));
    assert_eq!(advance(ZipStage::OpenCached, true), ZipStep::Serve);
}

#[test]
fn missing_archive_is_built_then_published() {
    let mut stage = ZipStage::Fingerprint;
    let mut seen = vec![stage];
    let outcomes = [true, false, true, true, true, true, true];
    let mut last = None;
    for ok in outcomes {
        match advance(stage, ok) {
            ZipStep::Next(s) => {
                stage = s;
                seen.push(s);
            }
            other => {
                last = Some(other);
                break;
            }
        }
    }
    assert_eq!(
        seen,
        vec![
            ZipStage::Fingerprint,
            ZipStage::OpenCached,
            ZipStage::ListFiles,
            ZipStage::Build,
            ZipStage::WriteTemp,
            ZipStage::Publish,
            ZipStage::OpenPublished,
        ]
    );
    assert_eq!(last, Some(ZipStep::Serve));
}

#[test]
fn each_failing_step_has_its_error() {
    assert_eq!(advance(ZipStage::Fingerprint, false), ZipStep::Fail(ZipFailure::Hashing));
    assert_eq!(advance(ZipStage::OpenCached, false), ZipStep::Next(ZipStage::ListFiles));
    assert_eq!(advance(ZipStage::ListFiles, false), ZipStep::Fail(ZipFailure::ReadDir));
    assert_eq!(advance(ZipStage::Build, false), ZipStep::Fail(ZipFailure::CreateZip));
    assert_eq!(advance(ZipStage::WriteTemp, false), ZipStep::Fail(ZipFailure::WriteZip));
    assert_eq!(advance(ZipStage::Publish, false), ZipStep::Fail(ZipFailure::SaveCache));
    assert_eq!(advance(ZipStage::OpenPublished, false), ZipStep::Fail(ZipFailure::ReadZip));
}

#[test]
fn report_records_added_and_skipped() {
    let mut r = ArchiveReport::new();
    r.record("a.txt".to_string(), true);
    r.record("b.txt".to_string(), false);
    r.record("c.txt".to_string(), true);
    assert_eq!(r.added, vec!["a.txt", "c.txt"]);
    assert_eq!(r.skipped, vec!["b.txt"]);
}

#[test]
fn archive_name_is_date_stamped() {
    let d = CalendarDate { year: 2024, month: 3, day: 7 };
    assert_eq!(archive_download_name(d), "07.03.24_files.zip");
    let d = CalendarDate { year: 2000, month: 12, day: 31 };
    assert_eq!(archive_download_name(d), "31.12.00_files.zip");
}

#[test]
fn error_pages_carry_status_and_message() {
    let e = error_response(500, "Hashing failed");
    assert_eq!(e.error_code, "500");
    assert_eq!(e.error_message, "Hashing failed");
    assert_eq!(error_response(400, "x").error_code, "400");
    assert_eq!(error_response(7, "x").error_code, "7");
    let n = handle_404();
    assert_eq!(n.error_code, "404");
    assert_eq!(n.error_message, "Page not found");
}

#[test]
fn download_is_offered_as_attachment() {
    assert_eq!(attachment_disposition("a.txt"), "attachment; filename=\"a.txt\"");
}

#[test]
fn builders_agree_on_entry_order_and_paths() {
    let first = vec!["c.jpg".to_string(), "a.jpg".to_string(), "b.jpg".to_string()];
    let second = vec!["b.jpg".to_string(), "c.jpg".to_string(), "a.jpg".to_string()];
    assert_eq!(sort_names(&first), sort_names(&second));
    let p = cache_paths("/srv/share", "00ff");
    let q = cache_paths("/srv/share", "00ff");
    assert_eq!(p.archive, q.archive);
    assert_ne!(p.archive, p.temp);
}
