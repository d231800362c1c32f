use motion_split::paths::{extension, file_name, has_jpg_extension, join, prefix_file_name, relative_path};
use motion_split::photo::Photo;
use motion_split::plan::{plan_output, PlanError};

fn photo(path: &str, exif_date: Option<&str>) -> Photo {
    Photo { path: path.to_string(), exif_date: exif_date.map(|d| d.to_string()), accurate: true }
}

#[test]
fn path_pieces() {
    assert_eq!(file_name("/a/b/c.jpg"), "c.jpg");
    assert_eq!(file_name("c.jpg"), "c.jpg");
    assert_eq!(extension("/a/b/c.tar.jpg"), Some("jpg"));
    assert_eq!(extension("/a.d/b"), None);
    assert_eq!(extension("/a/.jpg"), None);
    assert!(has_jpg_extension("/a/x.jpg"));
    assert!(!has_jpg_extension("/a/x.JPG"));
    assert!(!has_jpg_extension("/a/x.jpeg"));
    assert_eq!(relative_path("/r/s/x.jpg", "/r"), Some("s/x.jpg"));
    assert_eq!(relative_path("/r/s/x.jpg", "/r/"), Some("s/x.jpg"));
    assert_eq!(relative_path("/r", "/r"), Some(""));
    assert_eq!(relative_path("/rs/x.jpg", "/r"), None);
    assert_eq!(join("/out", "s/x.jpg"), "/out/s/x.jpg");
    assert_eq!(join("/out/", "x.jpg"), "/out/x.jpg");
    assert_eq!(join("/out", ""), "/out");
    assert_eq!(prefix_file_name("/out/s/x.jpg", "2022-05-04_"), "/out/s/2022-05-04_x.jpg");
}

#[test]
fn renamed_copy_goes_below_output() {
    let p = photo("/in/trip/IMG-20220504_101112.jpg", None);
    let plan = plan_output(&p, "/in", "/out", true).unwrap();
    assert_eq!(plan.copy_to, Some("/out/trip/2022-05-04_IMG-20220504_101112.jpg".to_string()));
    assert_eq!(plan.target, "/out/trip/2022-05-04_IMG-20220504_101112.jpg");
}

#[test]
fn metadata_date_names_the_copy() {
    let p = photo("/in/a.jpg", Some("2019:12:31 23:59:59"));
    let plan = plan_output(&p, "/in/", "/out/", true).unwrap();
    assert_eq!(plan.copy_to, Some("/out/2019-12-31_a.jpg".to_string()));
}

#[test]
fn undated_photo_stays_in_place() {
    let p = photo("/in/a.jpg", None);
    let plan = plan_output(&p, "/in", "/out", true).unwrap();
    assert_eq!(plan.copy_to, None);
    assert_eq!(plan.target, "/in/a.jpg");
}

#[test]
fn no_rename_means_no_copy() {
    let p = photo("/in/IMG-20220504_1.jpg", Some("2022:05:04"));
    let plan = plan_output(&p, "/in", "/out", false).unwrap();
    assert_eq!(plan.copy_to, None);
    assert_eq!(plan.target, "/in/IMG-20220504_1.jpg");
}

#[test]
fn photo_outside_root_is_an_error() {
    let p = photo("/elsewhere/a.jpg", None);
    assert!(matches!(plan_output(&p, "/in", "/out", true), Err(PlanError::OutsideRoot)));
    assert!(!PlanError::OutsideRoot.message().is_empty());
}

#[test]
fn backslash_paths_are_split_too() {
    assert_eq!(file_name(r"\\?\C:\r\20220504_x\a.jpg"), "a.jpg");
    assert!(has_jpg_extension(r"C:\r\a.jpg"));
    assert_eq!(extension(r"C:\r.d\a"), None);
    assert_eq!(relative_path(r"\\?\C:\r\s\a.jpg", r"\\?\C:\r"), Some(r"s\a.jpg"));
    assert_eq!(relative_path(r"\\?\C:\r\s\a.jpg", r"\\?\C:\r\"), Some(r"s\a.jpg"));
    assert_eq!(relative_path(r"\\?\C:\rs\a.jpg", r"\\?\C:\r"), None);
    assert_eq!(join(r"\\?\C:\out", r"s\a.jpg"), r"\\?\C:\out\s\a.jpg");
    assert_eq!(prefix_file_name(r"C:\out\s\a.jpg", "2022-05-04_"), r"C:\out\s\2022-05-04_a.jpg");
}

#[test]
fn windows_job_paths_are_planned() {
    let p = photo(r"\\?\C:\in\trip\IMG-20220504_1.jpg", None);
    let plan = plan_output(&p, r"\\?\C:\in", r"\\?\D:\out", true).unwrap();
    assert_eq!(plan.copy_to, Some(r"\\?\D:\out\trip\2022-05-04_IMG-20220504_1.jpg".to_string()));
    let q = photo(r"C:\in\20220504_dir\holiday.jpg", None);
    assert!(q.get_best_effort_date().is_none());
}
