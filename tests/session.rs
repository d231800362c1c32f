use motion_split::job::Update;
use motion_split::session::{shown_path, Action, Message, Pick, Session, Status, Target};

fn ready_session() -> Session {
    let mut s = Session::new(false);
    assert_eq!(s.update(Message::SelectDirectory), Action::OpenDialog(Pick::Directory, Target::Source));
    s.take_answer(Target::Source, Pick::Directory, Some("/photos".to_string()));
    assert_eq!(
        s.update(Message::SelectDestination),
        Action::OpenDialog(Pick::Directory, Target::Destination)
    );
    s.take_answer(Target::Destination, Pick::Directory, Some("/sorted".to_string()));
    s
}

#[test]
fn start_needs_both_paths() {
    let mut s = Session::new(false);
    assert_eq!(s.update(Message::Convert), Action::Nothing);
    assert_eq!(s.status_text(), "Please select a file or directory to convert");
    assert!(!s.is_converting());
    assert!(s.task().is_none());
    s.take_answer(Target::Source, Pick::File, Some("/a.jpg".to_string()));
    s.update(Message::Convert);
    assert_eq!(s.status_text(), "Please select a file or directory to write to");
    assert!(s.task().is_none());
}

#[test]
fn start_runs_a_job_with_the_chosen_options() {
    let mut s = ready_session();
    s.update(Message::ToggleDuplicate(true));
    s.update(Message::ToggleMotionExtract(true));
    assert!(s.filter_duplicates() && s.extract_mp4() && !s.rename_files());
    assert_eq!(s.status_text(), "");
    s.update(Message::Convert);
    assert!(s.is_converting());
    assert_eq!(s.status_text(), "Starting conversion...");
    let task = s.task().unwrap();
    assert_eq!(task.path, "/photos");
    assert_eq!(task.output, "/sorted");
    assert!(task.filter_duplicates && !task.rename_files && task.extract_mp4);
}

#[test]
fn requests_are_ignored_while_a_job_runs() {
    let mut s = ready_session();
    s.update(Message::Convert);
    let controls = s.controls();
    assert!(!controls.select_source && !controls.select_destination && !controls.convert);
    assert_eq!(s.update(Message::SelectFile), Action::Nothing);
    assert_eq!(s.update(Message::SelectDestination), Action::Nothing);
    s.take_answer(Target::Source, Pick::File, None);
    assert_eq!(s.task().unwrap().path, "/photos");
    s.update(Message::TaskUpdate(Update::Progress { path: "/photos/a.jpg".to_string(), done: 0, total: 2 }));
    s.update(Message::Convert);
    assert_eq!(s.status_text(), "/photos/a.jpg: 0/2");
}

#[test]
fn events_drive_the_status_line() {
    let mut s = ready_session();
    s.update(Message::Convert);
    s.update(Message::TaskUpdate(Update::Progress { path: "/photos/b.jpg".to_string(), done: 12, total: 130 }));
    assert_eq!(s.status_text(), "/photos/b.jpg: 12/130");
    s.update(Message::TaskUpdate(Update::Error("permission denied".to_string())));
    assert_eq!(s.status_text(), "permission denied");
    assert!(s.is_converting());
    s.update(Message::TaskUpdate(Update::Progress { path: "/photos".to_string(), done: 130, total: 130 }));
    assert!(!s.is_converting());
    assert_eq!(s.status_text(), "Successfully extracted the motion pictures as mp4s");
    assert!(s.task().is_none());
    assert!(s.controls().convert);
}

#[test]
fn destination_follows_the_kind_of_source() {
    let mut s = Session::new(false);
    assert_eq!(s.update(Message::SelectDestination), Action::Nothing);
    assert!(!s.controls().select_destination);
    s.take_answer(Target::Source, Pick::File, Some("/a.jpg".to_string()));
    assert_eq!(s.update(Message::SelectDestination), Action::OpenDialog(Pick::File, Target::Destination));
    assert_eq!(s.update(Message::Noop), Action::Nothing);
}

#[test]
fn verbatim_prefix_is_hidden_when_asked() {
    let p = r"\\?\C:\photos".to_string();
    assert_eq!(shown_path(Some(&p), true), r"C:\photos");
    assert_eq!(shown_path(Some(&p), false), p);
    assert_eq!(shown_path(None, true), "None");
    let mut s = Session::new(true);
    s.take_answer(Target::Source, Pick::Directory, Some(r"\\?\D:\in".to_string()));
    assert_eq!(s.shown_source(), r"D:\in");
    assert_eq!(s.shown_destination(), "None");
    s.take_answer(Target::Destination, Pick::Directory, Some(r"\\?\D:\out".to_string()));
    s.update(Message::Convert);
    s.update(Message::TaskUpdate(Update::Progress { path: r"\\?\D:\in\x.jpg".to_string(), done: 0, total: 4294967295 }));
    assert_eq!(s.status_text(), r"D:\in\x.jpg: 0/4294967295");
}

#[test]
fn status_texts() {
    assert_eq!(Status::Success.text(), "Successfully extracted the motion pictures as mp4s");
    assert_eq!(Status::Working.text(), "Starting conversion...");
    assert_eq!(Status::Issue("x".to_string()).text(), "x");
    assert_eq!(Status::Progress("y".to_string()).text(), "y");
}
