//! Jobs and the progress events they publish. A job runs on a worker of
//! its own; after each duplicate group it publishes one event on an
//! unbounded channel, and after the last group one final event.

use vstd::prelude::*;
use tokio::sync::mpsc::UnboundedSender;

use crate::grouping::{groups_wf, keys_of_copies, DuplicateGroup, GroupView, Grouping};
use crate::photo::{lemma_alike_photos_keep_first, representative_of, select_representative};
use crate::plan::{plan_output, renamed_copy, PlanError};
use crate::walk::{texts, Walker};

verus! {

/// The sending half of tokio's unbounded channel, carried through as it is.
#[verifier::external_type_specification]
#[verifier::external_body]
#[verifier::reject_recursive_types(T)]
pub struct ExUnboundedSender<T>(UnboundedSender<T>);

/// An event of a job, as the watcher sees it.
#[derive(Clone, Debug)]
pub enum Update {
    /// The group whose representative lies at `path` was handled; it was
    /// group `done` of `total`. The final event has `done == total` and the
    /// job's root as its path.
    Progress { path: String, done: u32, total: u32 },
    /// Handling a group failed; the job goes on with the next group.
    Error(String),
}

/// An event as values.
pub enum UpdateView {
    Progress { path: Seq<char>, done: u32, total: u32 },
    Error(Seq<char>),
}

impl View for Update {
    type V = UpdateView;

    open spec fn view(&self) -> UpdateView {
        match self {
            Update::Progress { path, done, total } => UpdateView::Progress {
                path: path@,
                done: *done,
                total: *total,
            },
            Update::Error(m) => UpdateView::Error(m@),
        }
    }
}

/// Relies on tokio's `UnboundedSender::send`: it never blocks, and it fails
/// (handing the event back) exactly when the receiving half has been closed
/// or dropped, which this side cannot see.
#[verifier::external_body]
fn deliver(sender: &UnboundedSender<Update>, update: Update) -> (delivered: bool) {
    sender.send(update).is_ok()
}

/// The watcher went away: the channel's receiving half was closed or
/// dropped, and the job cannot publish any more events.
#[derive(PartialEq, Eq, Structural, Clone, Copy, Debug)]
pub struct Disconnected;

/// A request to walk a tree and announce each file found in it.
pub struct ExtractTask {
    pub path: String,
    /// Each event handed to the channel so far, with whether it was
    /// delivered.
    handed: Ghost<Seq<(UpdateView, bool)>>,
}

/// The `k`-th event that announces `files` for a task at `root`: one per
/// file, carrying its index, then a final one for the root.
pub open spec fn announcement(root: Seq<char>, files: Seq<Seq<char>>, k: int) -> UpdateView {
    if k < files.len() {
        UpdateView::Progress { path: files[k], done: k as u32, total: files.len() as u32 }
    } else {
        UpdateView::Progress { path: root, done: files.len() as u32, total: files.len() as u32 }
    }
}

impl ExtractTask {
    pub fn new(path: String) -> (r: ExtractTask)
        ensures
            r.root() == path@,
            r.handed().len() == 0,
    {
        ExtractTask { path, handed: Ghost(Seq::empty()) }
    }

    /// The path the task walks.
    pub closed spec fn root(&self) -> Seq<char> {
        self.path@
    }

    /// Each event handed to the channel so far, with whether it was
    /// delivered.
    pub closed spec fn handed(&self) -> Seq<(UpdateView, bool)> {
        self.handed@
    }

    /// The walk over every file under the task's path.
    pub fn walker(&self) -> (r: Walker)
        ensures
            r.wf(),
            r@.queue == seq![(self.root(), self.root())],
            r@.visited.len() == 0,
            r@.files.len() == 0,
            r@.pending is None,
            !r@.jpg_only,
    {
        Walker::new(self.path.clone(), false)
    }

    /// Hands `u` to the channel and records it with whether it was
    /// delivered.
    fn hand_over(&mut self, sender: &UnboundedSender<Update>, u: Update) -> (delivered: bool)
        ensures
            final(self).root() == old(self).root(),
            final(self).handed() == old(self).handed().push((u@, delivered)),
    {
        let ghost ev = u@;
        let ok = deliver(sender, u);
        self.handed = Ghost(self.handed@.push((ev, ok)));
        ok
    }

    /// Publishes the events that announce `files`, in order, and stops at
    /// the first that cannot be delivered: nothing is handed over after it.
    pub fn announce(&mut self, sender: &UnboundedSender<Update>, files: &Vec<String>) -> (r: Result<(), Disconnected>)
        requires
            files@.len() <= u32::MAX,
        ensures
            final(self).root() == old(self).root(),
            ({
                let before = old(self).handed().len();
                let handed = final(self).handed().subrange(before as int, final(self).handed().len() as int);
                &&& final(self).handed().subrange(0, before as int) == old(self).handed()
                &&& 1 <= handed.len() <= files@.len() + 1
                &&& forall|k: int| 0 <= k < handed.len() ==> #[trigger] handed[k].0 == announcement(old(self).root(), texts(files@), k)
                &&& forall|k: int| 0 <= k < handed.len() - 1 ==> #[trigger] handed[k].1
                &&& r is Ok <==> handed.len() == files@.len() + 1 && handed.last().1
                &&& r is Err ==> !handed.last().1
            }),
    {
        let ghost before = self.handed();
        let ghost fs = texts(files@);
        let ghost root = self.root();
        let total = files.len() as u32;
        let mut i: usize = 0;
        while i < files.len()
            invariant
                i <= files@.len(),
                files@.len() <= u32::MAX,
                total == files@.len(),
                fs == texts(files@),
                root == old(self).root(),
                before == old(self).handed(),
                self.root() == root,
                self.handed().len() == before.len() + i,
                self.handed().subrange(0, before.len() as int) == before,
                forall|k: int| before.len() <= k < self.handed().len() ==> #[trigger] self.handed()[k].0 == announcement(root, fs, k - before.len()),
                forall|k: int| before.len() <= k < self.handed().len() ==> #[trigger] self.handed()[k].1,
            decreases files@.len() - i,
        {
            let u = Update::Progress { path: files[i].clone(), done: i as u32, total };
            assert(u@ == announcement(root, fs, i as int));
            let ghost h = self.handed();
            let ok = self.hand_over(sender, u);
            assert(self.handed().subrange(0, before.len() as int) =~= h.subrange(0, before.len() as int));
            if !ok {
                proof {
                    self.lemma_handed_tail(before, root, fs);
                }
                return Err(Disconnected);
            }
            i = i + 1;
        }
        let u = Update::Progress { path: self.path.clone(), done: total, total };
        assert(u@ == announcement(root, fs, i as int));
        let ghost h = self.handed();
        let ok = self.hand_over(sender, u);
        assert(self.handed().subrange(0, before.len() as int) =~= h.subrange(0, before.len() as int));
        proof {
            self.lemma_handed_tail(before, root, fs);
        }
        if ok {
            Ok(())
        } else {
            Err(Disconnected)
        }
    }

    /// Restates the record of the events handed over after `before`,
    /// relative to where they start.
    proof fn lemma_handed_tail(&self, before: Seq<(UpdateView, bool)>, root: Seq<char>, fs: Seq<Seq<char>>)
        requires
            self.handed().len() > before.len(),
            forall|k: int| before.len() <= k < self.handed().len() ==> #[trigger] self.handed()[k].0 == announcement(root, fs, k - before.len()),
            forall|k: int| before.len() <= k < self.handed().len() - 1 ==> #[trigger] self.handed()[k].1,
        ensures
            ({
                let handed = self.handed().subrange(before.len() as int, self.handed().len() as int);
                &&& forall|k: int| 0 <= k < handed.len() ==> #[trigger] handed[k].0 == announcement(root, fs, k)
                &&& forall|k: int| 0 <= k < handed.len() - 1 ==> #[trigger] handed[k].1
                &&& handed.last() == self.handed().last()
            }),
    {
        let handed = self.handed().subrange(before.len() as int, self.handed().len() as int);
        assert forall|k: int| 0 <= k < handed.len() implies #[trigger] handed[k].0 == announcement(root, fs, k) by {
            assert(handed[k] == self.handed()[before.len() + k]);
        }
        assert forall|k: int| 0 <= k < handed.len() - 1 implies #[trigger] handed[k].1 by {
            assert(handed[k] == self.handed()[before.len() + k]);
        }
    }
}


/// A request to process the photos under `path` into `output`.
pub struct FileTask {
    /// The root of the tree of photos.
    pub path: String,
    /// Where renamed copies go.
    pub output: String,
    /// Whether photos with identical contents are handled once.
    pub filter_duplicates: bool,
    /// Whether representatives are copied under a dated name.
    pub rename_files: bool,
    /// Whether the clips of motion photos are written out.
    pub extract_mp4: bool,
}

/// Where a job stands.
#[derive(PartialEq, Eq, Structural, Clone, Copy, Debug)]
pub enum JobState {
    /// Groups or the final event remain to be published.
    Running,
    /// The final event was published.
    Finished,
    /// An event could not be delivered; nothing more can be published.
    Disconnected,
}

/// The work for one group, done by whoever drives the job: copy `source`
/// to `copy_to` if set, then write out the clip of `extract` if set.
pub struct GroupWork {
    /// The representative's path.
    pub source: String,
    /// Where a renamed copy of the representative goes.
    pub copy_to: Option<String>,
    /// The file whose clip is written out.
    pub extract: Option<String>,
}

/// A job as values.
pub struct JobView {
    pub root: Seq<char>,
    pub output: Seq<char>,
    pub rename_files: bool,
    pub extract_mp4: bool,
    pub groups: Seq<GroupView>,
    /// How many groups have been reported.
    pub next: nat,
    pub state: JobState,
    /// Every event handed to the channel so far, the undelivered one
    /// included.
    pub sent: Seq<UpdateView>,
}

/// The path of the representative of group `i`.
pub open spec fn rep_path(groups: Seq<GroupView>, i: int) -> Seq<char> {
    groups[i].photos[representative_of(groups[i].photos)].path
}

/// The event for group `i` when its work succeeded.
pub open spec fn group_progress(v: JobView, i: int) -> UpdateView {
    UpdateView::Progress { path: rep_path(v.groups, i), done: i as u32, total: v.groups.len() as u32 }
}

/// The event for group `i`, given how its work went.
pub open spec fn group_event(v: JobView, i: int, outcome: Result<(), String>) -> UpdateView {
    match outcome {
        Ok(_) => group_progress(v, i),
        Err(m) => UpdateView::Error(m@),
    }
}

/// The event that ends a job.
pub open spec fn final_event(v: JobView) -> UpdateView {
    UpdateView::Progress { path: v.root, done: v.groups.len() as u32, total: v.groups.len() as u32 }
}

/// The event at position `i` of what a job publishes is the one due there:
/// for a group, its progress or an error; after the groups, the final one.
pub open spec fn event_fits(v: JobView, i: int, e: UpdateView) -> bool {
    if i < v.groups.len() {
        e is Error || e == group_progress(v, i)
    } else {
        i == v.groups.len() && e == final_event(v)
    }
}

pub open spec fn job_wf(v: JobView) -> bool {
    &&& groups_wf(v.groups)
    &&& v.groups.len() <= u32::MAX
    &&& v.next <= v.groups.len()
    &&& forall|i: int| 0 <= i < v.sent.len() ==> event_fits(v, i, #[trigger] v.sent[i])
    &&& match v.state {
        JobState::Running => v.sent.len() == v.next,
        JobState::Finished => v.next == v.groups.len() && v.sent.len() == v.groups.len() + 1,
        JobState::Disconnected => v.sent.len() == v.next + 1,
    }
}

/// A running job: its groups, and how far their reporting has come.
pub struct Job {
    root: String,
    output: String,
    rename_files: bool,
    extract_mp4: bool,
    groups: Vec<DuplicateGroup>,
    next: usize,
    state: JobState,
    sent: Ghost<Seq<UpdateView>>,
}

impl View for Job {
    type V = JobView;

    closed spec fn view(&self) -> JobView {
        JobView {
            root: self.root@,
            output: self.output@,
            rename_files: self.rename_files,
            extract_mp4: self.extract_mp4,
            groups: self.groups@.map_values(|g: DuplicateGroup| g@),
            next: self.next as nat,
            state: self.state,
            sent: self.sent@,
        }
    }
}

impl FileTask {
    pub fn new(
        path: String,
        output: String,
        filter_duplicates: bool,
        rename_files: bool,
        extract_mp4: bool,
    ) -> (r: FileTask)
        ensures
            r.path@ == path@,
            r.output@ == output@,
            r.filter_duplicates == filter_duplicates,
            r.rename_files == rename_files,
            r.extract_mp4 == extract_mp4,
    {
        FileTask { path, output, filter_duplicates, rename_files, extract_mp4 }
    }

    /// The walk over the `jpg` files under the task's root.
    pub fn walker(&self) -> (r: Walker)
        ensures
            r.wf(),
            r@.queue == seq![(self.path@, self.path@)],
            r@.visited.len() == 0,
            r@.files.len() == 0,
            r@.pending is None,
            r@.jpg_only,
    {
        Walker::new(self.path.clone(), true)
    }

    /// An empty grouping, merging duplicates when the task asks for it.
    pub fn grouping(&self) -> (r: Grouping)
        ensures
            r.wf(),
            r@.len() == 0,
            r.deduplicates() == self.filter_duplicates,
    {
        Grouping::new(self.filter_duplicates)
    }

    /// The job over the groups found; `None` when there are more groups
    /// than an event can count.
    pub fn start(&self, grouping: Grouping) -> (r: Option<Job>)
        requires
            grouping.wf(),
        ensures
            match r {
                Some(job) => {
                    &&& job.wf()
                    &&& job@ == (JobView {
                        root: self.path@,
                        output: self.output@,
                        rename_files: self.rename_files,
                        extract_mp4: self.extract_mp4,
                        groups: grouping@,
                        next: 0,
                        state: JobState::Running,
                        sent: Seq::empty(),
                    })
                },
                None => grouping@.len() > u32::MAX,
            },
    {
        if grouping.len() > u32::MAX as usize {
            return None;
        }
        let groups = grouping.into_groups();
        let job = Job {
            root: self.path.clone(),
            output: self.output.clone(),
            rename_files: self.rename_files,
            extract_mp4: self.extract_mp4,
            groups,
            next: 0,
            state: JobState::Running,
            sent: Ghost(Seq::empty()),
        };
        Some(job)
    }
}

impl Job {
    pub open spec fn wf(&self) -> bool {
        job_wf(self@)
    }

    /// The number of groups.
    pub fn total(&self) -> (r: u32)
        requires
            self.wf(),
        ensures
            r == self@.groups.len(),
    {
        self.groups.len() as u32
    }

    /// Where the job stands.
    pub fn state(&self) -> (r: JobState)
        ensures
            r == self@.state,
    {
        self.state
    }

    /// The work for the next group to report: `None` once every group has
    /// been reported; an error when its representative does not lie under
    /// the root.
    pub fn current_work(&self) -> (r: Option<Result<GroupWork, PlanError>>)
        requires
            self.wf(),
        ensures
            r is None <==> self@.next == self@.groups.len(),
            r matches Some(Ok(w)) ==> {
                let v = self@;
                let g = v.groups[v.next as int].photos;
                let photo = g[representative_of(g)];
                let copy = renamed_copy(photo, v.root, v.output, v.rename_files);
                &&& crate::paths::relative_to(photo.path, v.root) is Some
                &&& w.source@ == photo.path
                &&& w.copy_to.deep_view() == copy
                &&& w.extract.deep_view() == if v.extract_mp4 {
                    Some(
                        match copy {
                            Some(p) => p,
                            None => photo.path,
                        },
                    )
                } else {
                    None
                }
            },
            r matches Some(Err(e)) ==> {
                let v = self@;
                let g = v.groups[v.next as int].photos;
                e == PlanError::OutsideRoot && crate::paths::relative_to(
                    g[representative_of(g)].path,
                    v.root,
                ) is None
            },
    {
        if self.next >= self.groups.len() {
            return None;
        }
        let group = &self.groups[self.next];
        let best = select_representative(group.photos.as_slice());
        let photo = &group.photos[best];
        match plan_output(photo, self.root.as_str(), self.output.as_str(), self.rename_files) {
            Err(e) => Some(Err(e)),
            Ok(plan) => {
                let extract = if self.extract_mp4 {
                    Some(plan.target)
                } else {
                    None
                };
                Some(Ok(GroupWork { source: photo.path.clone(), copy_to: plan.copy_to, extract }))
            },
        }
    }

    /// Publishes the event for the next group, given how its work went, and
    /// moves on to the group after it. When the event cannot be delivered
    /// the job is disconnected for good.
    pub fn report(&mut self, sender: &UnboundedSender<Update>, outcome: Result<(), String>) -> (r: Result<(), Disconnected>)
        requires
            old(self).wf(),
            old(self)@.state == JobState::Running,
            old(self)@.next < old(self)@.groups.len(),
        ensures
            final(self).wf(),
            final(self)@.sent == old(self)@.sent.push(
                group_event(old(self)@, old(self)@.next as int, outcome),
            ),
            r is Ok ==> final(self)@ == (JobView {
                next: old(self)@.next + 1,
                sent: final(self)@.sent,
                ..old(self)@
            }),
            r is Err ==> final(self)@ == (JobView {
                state: JobState::Disconnected,
                sent: final(self)@.sent,
                ..old(self)@
            }),
    {
        let ghost v = self@;
        let update = match outcome {
            Ok(()) => {
                let group = &self.groups[self.next];
                let best = select_representative(group.photos.as_slice());
                Update::Progress {
                    path: group.photos[best].path.clone(),
                    done: self.next as u32,
                    total: self.groups.len() as u32,
                }
            },
            Err(m) => Update::Error(m),
        };
        let ghost e = update@;
        assert(e == group_event(v, v.next as int, outcome));
        self.sent = Ghost(self.sent@.push(e));
        if deliver(sender, update) {
            self.next = self.next + 1;
            Ok(())
        } else {
            self.state = JobState::Disconnected;
            Err(Disconnected)
        }
    }

    /// Publishes the final event, once every group has been reported.
    pub fn finish(&mut self, sender: &UnboundedSender<Update>) -> (r: Result<(), Disconnected>)
        requires
            old(self).wf(),
            old(self)@.state == JobState::Running,
            old(self)@.next == old(self)@.groups.len(),
        ensures
            final(self).wf(),
            final(self)@.sent == old(self)@.sent.push(final_event(old(self)@)),
            final(self)@ == (JobView {
                state: if r is Ok {
                    JobState::Finished
                } else {
                    JobState::Disconnected
                },
                sent: final(self)@.sent,
                ..old(self)@
            }),
    {
        let total = self.groups.len() as u32;
        let update = Update::Progress { path: self.root.clone(), done: total, total };
        self.sent = Ghost(self.sent@.push(update@));
        if deliver(sender, update) {
            self.state = JobState::Finished;
            Ok(())
        } else {
            self.state = JobState::Disconnected;
            Err(Disconnected)
        }
    }
}

/// What a finished job published: one event per group in order, each an
/// error or a progress event whose `done` is the group's index and whose
/// `total` is the number of groups, followed by exactly one final event
/// with `done == total` for the job's root.
pub proof fn lemma_finished_events(job: Job)
    requires
        job.wf(),
        job@.state == JobState::Finished,
    ensures
        job@.sent.len() == job@.groups.len() + 1,
        forall|i: int|
            0 <= i < job@.groups.len() ==> (#[trigger] job@.sent[i] is Error || (job@.sent[i] matches UpdateView::Progress { done, total, .. } && done == i && total == job@.groups.len())),
        job@.sent.last() == (UpdateView::Progress {
            path: job@.root,
            done: job@.groups.len() as u32,
            total: job@.groups.len() as u32,
        }),
{
    let v = job@;
    assert forall|i: int| 0 <= i < v.groups.len() implies (#[trigger] v.sent[i] is Error || (v.sent[i] matches UpdateView::Progress { done, total, .. } && done == i && total == v.groups.len())) by {
        assert(event_fits(v, i, v.sent[i]));
    }
    assert(event_fits(v, v.groups.len() as int, v.sent[v.groups.len() as int]));
}

/// A finished job over files with identical contents, merged into one
/// group (the grouping holds them under indices 0, 1, 2, ..., all alike in
/// metadata date and accuracy, as `Grouping::add_file` adds copies):
/// it published exactly two events, the first for the first file (or an
/// error) with `done == 0` and `total == 1`, the second the final one for
/// the root with `done == total == 1`.
pub proof fn lemma_merged_copies_events(g: Grouping, job: Job, data: Seq<u8>)
    requires
        g.wf(),
        g.deduplicates(),
        g.added_photos().len() > 0,
        g.added_photos().len() <= u64::MAX,
        g.added_keys() == keys_of_copies(true, data, g.added_photos().len()),
        forall|i: int| 0 <= i < g.added_photos().len() ==> (#[trigger] g.added_photos()[i]).exif_date
            == g.added_photos()[0].exif_date,
        forall|i: int| 0 <= i < g.added_photos().len() ==> (#[trigger] g.added_photos()[i]).accurate
            == g.added_photos()[0].accurate,
        job.wf(),
        job@.groups == g@,
        job@.state == JobState::Finished,
    ensures
        job@.sent.len() == 2,
        job@.sent[0] is Error || job@.sent[0] == (UpdateView::Progress {
            path: g.added_photos()[0].path,
            done: 0,
            total: 1,
        }),
        job@.sent[1] == (UpdateView::Progress { path: job@.root, done: 1, total: 1 }),
{
    g.lemma_grouping_of_copies(data);
    lemma_finished_events(job);
    let ph = g.added_photos();
    assert forall|i: int| 0 <= i < ph.len() implies (#[trigger] ph[i]).exif_date is Some == ph[0].exif_date is Some by {
        assert(ph[i].exif_date == ph[0].exif_date);
    }
    lemma_alike_photos_keep_first(ph, ph.len());
    assert(event_fits(job@, 0, job@.sent[0]));
}

} // verus!
