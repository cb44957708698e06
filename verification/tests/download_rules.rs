use mutual_downloader::download::file_name_for;
use mutual_downloader::{plan_download, DownloadAction, MutualUser};

fn alice() -> MutualUser {
    MutualUser {
        username: "alice".to_string(),
        profile_image_url: "https://img/host/alice.png".to_string(),
    }
}

#[test]
fn success_saves_under_derived_file_name() {
    match plan_download(&alice(), 200) {
        DownloadAction::Save { file_name } => assert_eq!(file_name, "alice.png"),
        DownloadAction::ReportFailure => panic!("a 2xx response is saved"),
    }
}

#[test]
fn failure_status_writes_nothing() {
    assert!(matches!(plan_download(&alice(), 404), DownloadAction::ReportFailure));
    assert!(matches!(plan_download(&alice(), 500), DownloadAction::ReportFailure));
    assert!(matches!(plan_download(&alice(), 301), DownloadAction::ReportFailure));
}

#[test]
fn success_class_boundaries() {
    assert!(matches!(plan_download(&alice(), 299), DownloadAction::Save { .. }));
    assert!(matches!(plan_download(&alice(), 204), DownloadAction::Save { .. }));
    assert!(matches!(plan_download(&alice(), 199), DownloadAction::ReportFailure));
    assert!(matches!(plan_download(&alice(), 300), DownloadAction::ReportFailure));
}

#[test]
fn file_name_defaults_to_jpg_without_extension() {
    let user = MutualUser {
        username: "bob".to_string(),
        profile_image_url: "https://img/host/bob-picture".to_string(),
    };
    assert_eq!(file_name_for(&user), "bob.jpg");
}

#[test]
fn file_name_uses_url_extension() {
    let user = MutualUser {
        username: "carol".to_string(),
        profile_image_url: "https://x.com/a/b.jpg".to_string(),
    };
    assert_eq!(file_name_for(&user), "carol.jpg");
}
