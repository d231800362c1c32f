//! The state behind the window that starts jobs and watches them: which
//! paths and options are chosen, whether a job runs, and what the status
//! line says. At most one job runs at a time.

use vstd::prelude::*;

use crate::job::{FileTask, Update};

verus! {

/// What the status line reports.
#[derive(Clone, Debug)]
pub enum Status {
    Success,
    Progress(String),
    Working,
    Issue(String),
}

/// A status as values.
pub enum StatusView {
    Success,
    Progress(Seq<char>),
    Working,
    Issue(Seq<char>),
}

impl View for Status {
    type V = StatusView;

    open spec fn view(&self) -> StatusView {
        match self {
            Status::Success => StatusView::Success,
            Status::Progress(s) => StatusView::Progress(s@),
            Status::Working => StatusView::Working,
            Status::Issue(s) => StatusView::Issue(s@),
        }
    }
}

/// The text of the status line for a status.
pub open spec fn status_text_of(s: StatusView) -> Seq<char> {
    match s {
        StatusView::Success => "Successfully extracted the motion pictures as mp4s"@,
        StatusView::Working => "Starting conversion..."@,
        StatusView::Issue(m) => m,
        StatusView::Progress(m) => m,
    }
}

impl Status {
    /// The text of the status line.
    pub fn text(&self) -> (r: String)
        ensures
            r@ == status_text_of(self@),
    {
        match self {
            Status::Success => String::from_str("Successfully extracted the motion pictures as mp4s"),
            Status::Working => String::from_str("Starting conversion..."),
            Status::Issue(s) => s.clone(),
            Status::Progress(s) => s.clone(),
        }
    }
}

/// What the person at the window asked for, or what a running job said.
#[derive(Debug, Clone)]
pub enum Message {
    SelectFile,
    SelectDirectory,
    SelectDestination,
    ToggleDuplicate(bool),
    ToggleRename(bool),
    ToggleMotionExtract(bool),
    Convert,
    TaskUpdate(Update),
    Noop,
}

/// Which kind of path a dialog picks.
#[derive(PartialEq, Eq, Structural, Clone, Copy, Debug)]
pub enum Pick {
    File,
    Directory,
}

/// Which path a dialog's answer fills in.
#[derive(PartialEq, Eq, Structural, Clone, Copy, Debug)]
pub enum Target {
    Source,
    Destination,
}

/// What the window has to do after a message.
#[derive(PartialEq, Eq, Structural, Clone, Copy, Debug)]
pub enum Action {
    Nothing,
    /// Show a dialog that picks a path of the given kind, and hand its
    /// answer to `Session::take_answer`.
    OpenDialog(Pick, Target),
}

/// Which controls can be used.
#[derive(PartialEq, Eq, Structural, Clone, Copy, Debug)]
pub struct Controls {
    pub select_source: bool,
    pub select_destination: bool,
    pub convert: bool,
}

/// A session as values.
pub struct SessionView {
    pub path: Option<Seq<char>>,
    pub source_is_dir: bool,
    pub output_path: Option<Seq<char>>,
    pub status: Option<StatusView>,
    pub filter_duplicates: bool,
    pub rename_files: bool,
    pub extract_mp4: bool,
    /// Whether a job runs.
    pub converting: bool,
    /// Whether the `\\?\` prefix of verbatim paths is left out when a path
    /// is shown.
    pub strip_verbatim: bool,
}

/// The characters of the verbatim path prefix `\\?\`.
pub open spec fn verbatim_prefix() -> Seq<char> {
    seq!['\\', '\\', '?', '\\']
}

/// `s` without any leading verbatim prefixes.
pub open spec fn trim_verbatim(s: Seq<char>) -> Seq<char>
    decreases s.len(),
{
    if s.len() >= 4 && s.subrange(0, 4) == verbatim_prefix() {
        trim_verbatim(s.subrange(4, s.len() as int))
    } else {
        s
    }
}

/// A path as shown to the person at the window.
pub open spec fn shown(s: Seq<char>, strip_verbatim: bool) -> Seq<char> {
    if strip_verbatim {
        trim_verbatim(s)
    } else {
        s
    }
}

pub open spec fn digit_char(d: nat) -> char {
    seq!['0', '1', '2', '3', '4', '5', '6', '7', '8', '9'][d as int]
}

/// The decimal digits of `n`, without leading zeros.
pub open spec fn decimal(n: nat) -> Seq<char>
    decreases n,
{
    if n < 10 {
        seq![digit_char(n)]
    } else {
        decimal(n / 10).push(digit_char(n % 10))
    }
}

/// The status text of a progress event: `path: done/total`.
pub open spec fn progress_text(path: Seq<char>, done: u32, total: u32, strip_verbatim: bool) -> Seq<char> {
    shown(path, strip_verbatim) + seq![':', ' '] + decimal(done as nat) + seq!['/'] + decimal(total as nat)
}

/// Appends the decimal digits of `n`.
fn append_decimal(out: &mut String, n: u32)
    ensures
        final(out)@ == old(out)@ + decimal(n as nat),
    decreases n,
{
    let digits = "0123456789";
    proof {
        reveal_strlit("0123456789");
    }
    if n >= 10 {
        append_decimal(out, n / 10);
    }
    let d = (n % 10) as usize;
    out.append(digits.substring_char(d, d + 1));
    assert(digits@.subrange(d as int, d + 1) =~= seq![digit_char(d as nat)]);
    assert(final(out)@ =~= old(out)@ + decimal(n as nat));
}

/// `s` without any leading verbatim prefixes.
fn trimmed(s: &str) -> (r: &str)
    ensures
        r@ == trim_verbatim(s@),
{
    let n = s.unicode_len();
    let mut i: usize = 0;
    assert(s@.subrange(0, n as int) =~= s@);
    while n - i >= 4 && s.get_char(i) == '\\' && s.get_char(i + 1) == '\\' && s.get_char(i + 2) == '?'
        && s.get_char(i + 3) == '\\'
        invariant
            n == s@.len(),
            i <= n,
            trim_verbatim(s@) == trim_verbatim(s@.subrange(i as int, n as int)),
        decreases n - i,
    {
        let ghost rest = s@.subrange(i as int, n as int);
        assert(rest.subrange(0, 4) =~= verbatim_prefix());
        assert(rest.subrange(4, rest.len() as int) =~= s@.subrange(i + 4, n as int));
        i = i + 4;
    }
    let ghost rest = s@.subrange(i as int, n as int);
    if n - i >= 4 {
        assert(rest.subrange(0, 4) != verbatim_prefix()) by {
            if rest.subrange(0, 4) == verbatim_prefix() {
                assert(rest.subrange(0, 4)[0] == '\\');
                assert(rest.subrange(0, 4)[1] == '\\');
                assert(rest.subrange(0, 4)[2] == '?');
                assert(rest.subrange(0, 4)[3] == '\\');
            }
        }
    }
    s.substring_char(i, n)
}

/// A path as shown: `None` when there is none.
pub fn shown_path(path: Option<&String>, strip_verbatim: bool) -> (r: String)
    ensures
        match path {
            Some(p) => r@ == shown(p@, strip_verbatim),
            None => r@ == "None"@,
        },
{
    match path {
        Some(p) => {
            if strip_verbatim {
                String::from_str(trimmed(p.as_str()))
            } else {
                p.clone()
            }
        },
        None => String::from_str("None"),
    }
}

/// The state behind the window.
pub struct Session {
    path: Option<String>,
    source_is_dir: bool,
    output_path: Option<String>,
    status: Option<Status>,
    filter_duplicates: bool,
    rename_files: bool,
    extract_mp4: bool,
    converting: bool,
    strip_verbatim: bool,
}

impl View for Session {
    type V = SessionView;

    closed spec fn view(&self) -> SessionView {
        SessionView {
            path: self.path.deep_view(),
            source_is_dir: self.source_is_dir,
            output_path: self.output_path.deep_view(),
            status: match self.status {
                Some(s) => Some(s@),
                None => None,
            },
            filter_duplicates: self.filter_duplicates,
            rename_files: self.rename_files,
            extract_mp4: self.extract_mp4,
            converting: self.converting,
            strip_verbatim: self.strip_verbatim,
        }
    }
}

impl Session {
    /// A job runs only with both paths chosen.
    pub open spec fn wf(&self) -> bool {
        self@.converting ==> self@.path is Some && self@.output_path is Some
    }

    /// No paths chosen, no options set, no job running.
    pub fn new(strip_verbatim: bool) -> (r: Session)
        ensures
            r.wf(),
            r@ == (SessionView {
                path: None,
                source_is_dir: false,
                output_path: None,
                status: None,
                filter_duplicates: false,
                rename_files: false,
                extract_mp4: false,
                converting: false,
                strip_verbatim,
            }),
    {
        Session {
            path: None,
            source_is_dir: false,
            output_path: None,
            status: None,
            filter_duplicates: false,
            rename_files: false,
            extract_mp4: false,
            converting: false,
            strip_verbatim,
        }
    }

    /// Handles a message: options are set, events of the running job
    /// update the status (the final one ends the job), a start request
    /// starts a job when both paths are chosen and none runs, and, while no
    /// job runs, a request to choose a path asks for a dialog. The
    /// destination is picked as the same kind of path as the source.
    pub fn update(&mut self, message: Message) -> (r: Action)
        requires
            old(self).wf(),
        ensures
            final(self).wf(),
            match message {
                Message::ToggleDuplicate(b) => r == Action::Nothing && final(self)@ == (SessionView {
                    filter_duplicates: b,
                    ..old(self)@
                }),
                Message::ToggleRename(b) => r == Action::Nothing && final(self)@ == (SessionView {
                    rename_files: b,
                    ..old(self)@
                }),
                Message::ToggleMotionExtract(b) => r == Action::Nothing && final(self)@ == (SessionView {
                    extract_mp4: b,
                    ..old(self)@
                }),
                Message::TaskUpdate(Update::Progress { path, done, total }) => {
                    &&& r == Action::Nothing
                    &&& done == total ==> final(self)@ == (SessionView {
                        converting: false,
                        status: Some(StatusView::Success),
                        ..old(self)@
                    })
                    &&& done != total ==> final(self)@ == (SessionView {
                        status: Some(
                            StatusView::Progress(
                                progress_text(path@, done, total, old(self)@.strip_verbatim),
                            ),
                        ),
                        ..old(self)@
                    })
                },
                Message::TaskUpdate(Update::Error(m)) => r == Action::Nothing && final(self)@ == (
                SessionView { status: Some(StatusView::Issue(m@)), ..old(self)@ }),
                Message::Convert => {
                    &&& r == Action::Nothing
                    &&& if old(self)@.converting {
                        final(self)@ == old(self)@
                    } else if old(self)@.path is None {
                        final(self)@ == (SessionView {
                            status: Some(
                                StatusView::Issue("Please select a file or directory to convert"@),
                            ),
                            ..old(self)@
                        })
                    } else if old(self)@.output_path is None {
                        final(self)@ == (SessionView {
                            status: Some(
                                StatusView::Issue("Please select a file or directory to write to"@),
                            ),
                            ..old(self)@
                        })
                    } else {
                        final(self)@ == (SessionView {
                            status: Some(StatusView::Working),
                            converting: true,
                            ..old(self)@
                        })
                    }
                },
                Message::SelectFile => final(self)@ == old(self)@ && r == if old(self)@.converting {
                    Action::Nothing
                } else {
                    Action::OpenDialog(Pick::File, Target::Source)
                },
                Message::SelectDirectory => final(self)@ == old(self)@ && r == if old(
                    self,
                )@.converting {
                    Action::Nothing
                } else {
                    Action::OpenDialog(Pick::Directory, Target::Source)
                },
                Message::SelectDestination => final(self)@ == old(self)@ && r == if old(
                    self,
                )@.converting || old(self)@.path is None {
                    Action::Nothing
                } else if old(self)@.source_is_dir {
                    Action::OpenDialog(Pick::Directory, Target::Destination)
                } else {
                    Action::OpenDialog(Pick::File, Target::Destination)
                },
                Message::Noop => final(self)@ == old(self)@ && r == Action::Nothing,
            },
    {
        match message {
            Message::ToggleDuplicate(b) => {
                self.filter_duplicates = b;
                Action::Nothing
            },
            Message::ToggleRename(b) => {
                self.rename_files = b;
                Action::Nothing
            },
            Message::ToggleMotionExtract(b) => {
                self.extract_mp4 = b;
                Action::Nothing
            },
            Message::TaskUpdate(Update::Progress { path, done, total }) => {
                if done == total {
                    self.converting = false;
                    self.status = Some(Status::Success);
                } else {
                    let mut text = shown_path(Some(&path), self.strip_verbatim);
                    text.append(": ");
                    append_decimal(&mut text, done);
                    text.append("/");
                    append_decimal(&mut text, total);
                    proof {
                        reveal_strlit(": ");
                        reveal_strlit("/");
                    }
                    assert(text@ =~= progress_text(path@, done, total, self.strip_verbatim));
                    self.status = Some(Status::Progress(text));
                }
                Action::Nothing
            },
            Message::TaskUpdate(Update::Error(m)) => {
                self.status = Some(Status::Issue(m));
                Action::Nothing
            },
            Message::Convert => {
                if self.converting {
                } else if self.path.is_none() {
                    self.status = Some(
                        Status::Issue(String::from_str("Please select a file or directory to convert")),
                    );
                } else if self.output_path.is_none() {
                    self.status = Some(
                        Status::Issue(String::from_str("Please select a file or directory to write to")),
                    );
                } else {
                    self.status = Some(Status::Working);
                    self.converting = true;
                }
                Action::Nothing
            },
            Message::SelectFile => {
                if self.converting {
                    Action::Nothing
                } else {
                    Action::OpenDialog(Pick::File, Target::Source)
                }
            },
            Message::SelectDirectory => {
                if self.converting {
                    Action::Nothing
                } else {
                    Action::OpenDialog(Pick::Directory, Target::Source)
                }
            },
            Message::SelectDestination => {
                if self.converting || self.path.is_none() {
                    Action::Nothing
                } else if self.source_is_dir {
                    Action::OpenDialog(Pick::Directory, Target::Destination)
                } else {
                    Action::OpenDialog(Pick::File, Target::Destination)
                }
            },
            Message::Noop => Action::Nothing,
        }
    }

    /// Takes the answer of a dialog: the path picked, or `None` when none
    /// was. Ignored while a job runs.
    pub fn take_answer(&mut self, target: Target, pick: Pick, path: Option<String>)
        requires
            old(self).wf(),
        ensures
            final(self).wf(),
            final(self)@ == if old(self)@.converting {
                old(self)@
            } else {
                match target {
                    Target::Source => SessionView {
                        path: path.deep_view(),
                        source_is_dir: pick == Pick::Directory,
                        ..old(self)@
                    },
                    Target::Destination => SessionView { output_path: path.deep_view(), ..old(self)@ },
                }
            },
    {
        if self.converting {
            return;
        }
        match target {
            Target::Source => {
                self.path = path;
                self.source_is_dir = pick == Pick::Directory;
            },
            Target::Destination => {
                self.output_path = path;
            },
        }
    }

    /// The task of the running job, if one runs.
    pub fn task(&self) -> (r: Option<FileTask>)
        requires
            self.wf(),
        ensures
            r is Some <==> self@.converting,
            r matches Some(t) ==> {
                &&& Some(t.path@) == self@.path
                &&& Some(t.output@) == self@.output_path
                &&& t.filter_duplicates == self@.filter_duplicates
                &&& t.rename_files == self@.rename_files
                &&& t.extract_mp4 == self@.extract_mp4
            },
    {
        if !self.converting {
            return None;
        }
        match (&self.path, &self.output_path) {
            (Some(p), Some(o)) => Some(
                FileTask::new(
                    p.clone(),
                    o.clone(),
                    self.filter_duplicates,
                    self.rename_files,
                    self.extract_mp4,
                ),
            ),
            _ => None,
        }
    }

    /// Which controls can be used: none of them while a job runs; the
    /// destination once a source is chosen; the start once both are.
    pub fn controls(&self) -> (r: Controls)
        ensures
            r.select_source == !self@.converting,
            r.select_destination == (!self@.converting && self@.path is Some),
            r.convert == (!self@.converting && self@.path is Some && self@.output_path is Some),
    {
        Controls {
            select_source: !self.converting,
            select_destination: !self.converting && self.path.is_some(),
            convert: !self.converting && self.path.is_some() && self.output_path.is_some(),
        }
    }

    /// The source path as shown.
    pub fn shown_source(&self) -> (r: String)
        ensures
            match self@.path {
                Some(p) => r@ == shown(p, self@.strip_verbatim),
                None => r@ == "None"@,
            },
    {
        shown_path(self.path.as_ref(), self.strip_verbatim)
    }

    /// The destination path as shown.
    pub fn shown_destination(&self) -> (r: String)
        ensures
            match self@.output_path {
                Some(p) => r@ == shown(p, self@.strip_verbatim),
                None => r@ == "None"@,
            },
    {
        shown_path(self.output_path.as_ref(), self.strip_verbatim)
    }

    /// The text of the status line, empty before anything happened.
    pub fn status_text(&self) -> (r: String)
        ensures
            r@ == match self@.status {
                Some(st) => status_text_of(st),
                None => Seq::empty(),
            },
    {
        match &self.status {
            Some(s) => s.text(),
            None => String::new(),
        }
    }

    pub fn is_converting(&self) -> (r: bool)
        ensures
            r == self@.converting,
    {
        self.converting
    }

    pub fn filter_duplicates(&self) -> (r: bool)
        ensures
            r == self@.filter_duplicates,
    {
        self.filter_duplicates
    }

    pub fn rename_files(&self) -> (r: bool)
        ensures
            r == self@.rename_files,
    {
        self.rename_files
    }

    pub fn extract_mp4(&self) -> (r: bool)
        ensures
            r == self@.extract_mp4,
    {
        self.extract_mp4
    }
}

} // verus!
