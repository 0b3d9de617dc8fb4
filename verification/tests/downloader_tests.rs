use paper_scan::downloader::{check_status, is_success, DownloadError, PaperData};
use paper_scan::paths::FilePath;

#[test]
fn paper_data_keeps_what_it_is_given() {
    let archive = FilePath::new("o/x/x.tar.gz".to_string(), vec!["o".into(), "x".into(), "x.tar.gz".into()]);
    let dir = FilePath::new("o/x".to_string(), vec!["o".into(), "x".into()]);
    let data = PaperData::new("x".to_string(), archive, dir);
    assert_eq!(data.paper_id, "x");
    assert_eq!(data.archive_path.path, "o/x/x.tar.gz");
    assert_eq!(data.output_dir.path, "o/x");
}

#[test]
fn download_goes_into_the_directory_of_the_paper() {
    let data = PaperData::for_download("2401.08027");
    assert_eq!(data.paper_id, "2401.08027");
    assert_eq!(data.output_dir.path, "output/2401.08027");
    assert_eq!(data.output_dir.components, vec!["output", "2401.08027"]);
    assert_eq!(data.archive_path.path, "output/2401.08027/2401.08027.tar.gz");
    assert_eq!(data.archive_path.components, vec!["output", "2401.08027", "2401.08027.tar.gz"]);
}

#[test]
fn only_statuses_from_200_to_299_are_a_success() {
    assert!(is_success(200));
    assert!(is_success(204));
    assert!(is_success(299));
    assert!(!is_success(199));
    assert!(!is_success(300));
    assert!(!is_success(404));
    assert_eq!(check_status(200), Ok(()));
    assert_eq!(check_status(404), Err(DownloadError::Status(404)));
    assert_eq!(DownloadError::Status(404).message(), "Failed to download paper: HTTP 404");
}
