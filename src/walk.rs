//! Breadth-first discovery of the files under a root. The walker decides
//! what to visit and what to keep; whoever drives it looks at the file
//! system and reports what each path turned out to be. Every path comes
//! with a key naming what it leads to (its canonical path), so that a path
//! reached twice, through a link or a loop of links, is walked once.

use vstd::prelude::*;
use std::collections::VecDeque;

use crate::paths::{has_jpg_extension, is_jpg};

verus! {

/// A path found during a walk, with the key of what it leads to.
pub struct Entry {
    pub path: String,
    pub key: String,
}

impl View for Entry {
    type V = (Seq<char>, Seq<char>);

    open spec fn view(&self) -> (Seq<char>, Seq<char>) {
        (self.path@, self.key@)
    }
}

/// What a path turned out to be.
pub enum EntryKind {
    /// A regular file.
    File,
    /// A readable directory, with its entries.
    Directory(Vec<Entry>),
    /// Anything else, an unreadable directory included: it is skipped.
    Other,
}

/// The state of a walk, as values; an entry is a pair of path and key.
pub struct WalkView {
    /// Entries waiting to be looked at, first in first out.
    pub queue: Seq<(Seq<char>, Seq<char>)>,
    /// Keys of the entries already taken out of the queue.
    pub visited: Seq<Seq<char>>,
    /// Files kept so far, in the order they were found.
    pub files: Seq<(Seq<char>, Seq<char>)>,
    /// The entry taken out last, until what it is has been recorded.
    pub pending: Option<(Seq<char>, Seq<char>)>,
    /// Whether only files with the `jpg` extension are kept.
    pub jpg_only: bool,
}

/// The views of a sequence of entries.
pub open spec fn entries_view(v: Seq<Entry>) -> Seq<(Seq<char>, Seq<char>)> {
    v.map_values(|e: Entry| e@)
}

/// The text of each string.
pub open spec fn texts(v: Seq<String>) -> Seq<Seq<char>> {
    v.map_values(|s: String| s@)
}

/// The keys of a sequence of entries.
pub open spec fn keys(v: Seq<(Seq<char>, Seq<char>)>) -> Seq<Seq<char>> {
    v.map_values(|e: (Seq<char>, Seq<char>)| e.1)
}

/// The paths of a sequence of entries.
pub open spec fn paths_of(v: Seq<(Seq<char>, Seq<char>)>) -> Seq<Seq<char>> {
    v.map_values(|e: (Seq<char>, Seq<char>)| e.0)
}

/// No element occurs twice.
pub open spec fn distinct<A>(s: Seq<A>) -> bool {
    forall|i: int, j: int| 0 <= i < s.len() && 0 <= j < s.len() && i != j ==> s[i] != s[j]
}

/// Whether a file at `path` is kept.
pub open spec fn keeps(jpg_only: bool, path: Seq<char>) -> bool {
    !jpg_only || is_jpg(path)
}

/// The entries of a directory that join the queue: in the directory's
/// order, those whose key was not `seen` (visited or queued) and did not
/// come with an earlier entry.
pub open spec fn admitted(entries: Seq<(Seq<char>, Seq<char>)>, seen: Seq<Seq<char>>) -> Seq<(Seq<char>, Seq<char>)>
    decreases entries.len(),
{
    if entries.len() == 0 {
        Seq::empty()
    } else {
        let rest = admitted(entries.drop_last(), seen);
        let e = entries.last();
        if seen.contains(e.1) || keys(rest).contains(e.1) {
            rest
        } else {
            rest.push(e)
        }
    }
}

/// The invariant of a walk: no key is visited twice or queued twice, or
/// queued once visited; each file is kept once, and only once visited.
pub open spec fn walk_wf(v: WalkView) -> bool {
    &&& distinct(v.visited + keys(v.queue))
    &&& distinct(keys(v.files))
    &&& forall|i: int| 0 <= i < v.files.len() ==> v.visited.contains(#[trigger] v.files[i].1)
    &&& v.pending matches Some(e) ==> {
        &&& v.visited.len() > 0
        &&& v.visited.last() == e.1
        &&& !keys(v.files).contains(e.1)
    }
}

/// A breadth-first walk over the paths under a root.
pub struct Walker {
    queue: VecDeque<Entry>,
    visited: Vec<String>,
    files: Vec<Entry>,
    pending: Option<Entry>,
    jpg_only: bool,
}

impl View for Walker {
    type V = WalkView;

    closed spec fn view(&self) -> WalkView {
        WalkView {
            queue: entries_view(self.queue@),
            visited: texts(self.visited@),
            files: entries_view(self.files@),
            pending: match self.pending {
                Some(e) => Some(e@),
                None => None,
            },
            jpg_only: self.jpg_only,
        }
    }
}

/// Whether `s` is among `v`.
fn contains_text(v: &Vec<String>, s: &String) -> (r: bool)
    ensures
        r == texts(v@).contains(s@),
{
    let mut i: usize = 0;
    while i < v.len()
        invariant
            i <= v@.len(),
            forall|k: int| 0 <= k < i ==> v@[k]@ != s@,
        decreases v@.len() - i,
    {
        if v[i] == *s {
            assert(texts(v@)[i as int] == s@);
            return true;
        }
        i = i + 1;
    }
    assert(!texts(v@).contains(s@)) by {
        if texts(v@).contains(s@) {
            let k = choose|k: int| 0 <= k < texts(v@).len() && texts(v@)[k] == s@;
            assert(v@[k]@ == s@);
        }
    }
    false
}

/// Whether some entry of `q` has the key `key`.
fn queued(q: &VecDeque<Entry>, key: &String) -> (r: bool)
    ensures
        r == keys(entries_view(q@)).contains(key@),
{
    let mut i: usize = 0;
    while i < q.len()
        invariant
            i <= q@.len(),
            forall|k: int| 0 <= k < i ==> q@[k].key@ != key@,
        decreases q@.len() - i,
    {
        if q[i].key == *key {
            assert(keys(entries_view(q@))[i as int] == key@);
            return true;
        }
        i = i + 1;
    }
    assert(!keys(entries_view(q@)).contains(key@)) by {
        if keys(entries_view(q@)).contains(key@) {
            let k = choose|k: int| 0 <= k < keys(entries_view(q@)).len() && keys(entries_view(q@))[k] == key@;
            assert(q@[k].key@ == key@);
        }
    }
    false
}

fn copy_entry(e: &Entry) -> (r: Entry)
    ensures
        r@ == e@,
{
    Entry { path: e.path.clone(), key: e.key.clone() }
}

impl Walker {
    pub closed spec fn wf(&self) -> bool {
        walk_wf(self@)
    }

    /// A walk that starts at `root`, whose key is the root itself, keeping
    /// every file or only those with the `jpg` extension.
    pub fn new(root: String, jpg_only: bool) -> (r: Walker)
        ensures
            r.wf(),
            r@ == (WalkView {
                queue: seq![(root@, root@)],
                visited: Seq::empty(),
                files: Seq::empty(),
                pending: None,
                jpg_only,
            }),
    {
        let ghost rv = root@;
        let key = root.clone();
        let mut queue: VecDeque<Entry> = VecDeque::new();
        queue.push_back(Entry { path: root, key });
        let r = Walker { queue, visited: Vec::new(), files: Vec::new(), pending: None, jpg_only };
        assert(r@.queue =~= seq![(rv, rv)]);
        assert(r@.visited =~= Seq::<Seq<char>>::empty());
        assert(r@.files =~= Seq::<(Seq<char>, Seq<char>)>::empty());
        assert(r@.visited + keys(r@.queue) =~= seq![rv]);
        r
    }

    /// Takes the next entry out of the queue, marks its key visited and
    /// returns its path; `None` once the walk is over.
    pub fn next_path(&mut self) -> (r: Option<String>)
        requires
            old(self).wf(),
        ensures
            final(self).wf(),
            match r {
                Some(p) => {
                    let e = old(self)@.queue[0];
                    &&& old(self)@.queue.len() > 0
                    &&& p@ == e.0
                    &&& final(self)@ == (WalkView {
                        queue: old(self)@.queue.drop_first(),
                        visited: old(self)@.visited.push(e.1),
                        pending: Some(e),
                        ..old(self)@
                    })
                },
                None => old(self)@.queue.len() == 0 && final(self)@ == (WalkView {
                    pending: None,
                    ..old(self)@
                }),
            },
    {
        let ghost v = self@;
        match self.queue.pop_front() {
            Some(e) => {
                let ghost old_visited = self.visited@;
                self.visited.push(e.key.clone());
                let p = e.path.clone();
                self.pending = Some(e);
                proof {
                    assert(texts(self.visited@) =~= texts(old_visited).push(v.queue[0].1));
                    assert(entries_view(self.queue@) =~= v.queue.drop_first());
                    assert(self@.visited + keys(self@.queue) =~= v.visited + keys(v.queue));
                    assert forall|i: int| 0 <= i < self@.files.len() implies self@.visited.contains(
                        #[trigger] self@.files[i].1,
                    ) by {
                        let k = choose|k: int| 0 <= k < v.visited.len() && v.visited[k] == v.files[i].1;
                        assert(self@.visited[k] == v.files[i].1);
                    }
                    let n = v.visited.len() as int;
                    assert((v.visited + keys(v.queue))[n] == v.queue[0].1);
                    if keys(v.files).contains(v.queue[0].1) {
                        let f = choose|f: int| 0 <= f < keys(v.files).len() && keys(v.files)[f] == v.queue[0].1;
                        assert(v.visited.contains(v.files[f].1));
                        let k = choose|k: int| 0 <= k < v.visited.len() && v.visited[k] == v.files[f].1;
                        assert((v.visited + keys(v.queue))[k] == (v.visited + keys(v.queue))[n]);
                    }
                }
                Some(p)
            },
            None => {
                self.pending = None;
                None
            },
        }
    }

    /// Records what the entry just taken out turned out to be: a file is
    /// kept when the walk keeps it; the entries of a directory that were
    /// neither visited nor queued join the queue. Without such an entry
    /// nothing happens.
    pub fn record(&mut self, kind: EntryKind)
        requires
            old(self).wf(),
        ensures
            final(self).wf(),
            final(self)@.pending is None,
            final(self)@.visited == old(self)@.visited,
            final(self)@.jpg_only == old(self)@.jpg_only,
            final(self)@.files == match old(self)@.pending {
                Some(e) if kind is File && keeps(old(self)@.jpg_only, e.0) => old(self)@.files.push(e),
                _ => old(self)@.files,
            },
            final(self)@.queue == match (old(self)@.pending, kind) {
                (Some(_), EntryKind::Directory(entries)) => old(self)@.queue + admitted(
                    entries_view(entries@),
                    old(self)@.visited + keys(old(self)@.queue),
                ),
                _ => old(self)@.queue,
            },
    {
        let ghost v = self@;
        let pending = self.pending.take();
        let entry = match pending {
            Some(e) => e,
            None => {
                assert(self@ == v);
                return;
            },
        };
        match kind {
            EntryKind::File => {
                if !self.jpg_only || has_jpg_extension(entry.path.as_str()) {
                    let ghost ev = entry@;
                    self.files.push(entry);
                    proof {
                        assert(entries_view(self.files@) =~= v.files.push(ev));
                        assert(keys(self@.files) =~= keys(v.files).push(ev.1));
                        assert(v.visited.len() > 0);
                        assert(v.visited[v.visited.len() - 1] == ev.1);
                        assert forall|i: int| 0 <= i < self@.files.len() implies self@.visited.contains(
                            #[trigger] self@.files[i].1,
                        ) by {
                            if i < v.files.len() {
                                assert(v.visited.contains(v.files[i].1));
                            } else {
                                assert(self@.files[i] == ev);
                            }
                        }
                    }
                }
            },
            EntryKind::Directory(entries) => {
                let ghost seen = v.visited + keys(v.queue);
                let ghost es = entries_view(entries@);
                let mut i: usize = 0;
                while i < entries.len()
                    invariant
                        i <= entries@.len(),
                        es == entries_view(entries@),
                        seen == v.visited + keys(v.queue),
                        self.files == old(self).files,
                        self.visited == old(self).visited,
                        self.jpg_only == old(self).jpg_only,
                        self.pending is None,
                        v == old(self)@,
                        walk_wf(v),
                        entries_view(self.queue@) == v.queue + admitted(es.subrange(0, i as int), seen),
                        distinct(v.visited + keys(entries_view(self.queue@))),
                    decreases entries@.len() - i,
                {
                    let e = &entries[i];
                    let ghost before = entries_view(self.queue@);
                    let ghost rest = admitted(es.subrange(0, i as int), seen);
                    proof {
                        let s = es.subrange(0, i + 1);
                        assert(s.drop_last() =~= es.subrange(0, i as int));
                        assert(s.last() == e@);
                        assert(keys(before) =~= keys(v.queue) + keys(rest));
                        assert(v.visited + keys(before) =~= seen + keys(rest));
                    }
                    let fresh = !contains_text(&self.visited, &e.key) && !queued(&self.queue, &e.key);
                    proof {
                        assert(keys(before).contains(e.key@) <==> (keys(v.queue).contains(e.key@) || keys(rest).contains(e.key@))) by {
                            if keys(v.queue).contains(e.key@) {
                                let k = choose|k: int| 0 <= k < keys(v.queue).len() && keys(v.queue)[k] == e.key@;
                                assert(keys(before)[k] == e.key@);
                            }
                            if keys(rest).contains(e.key@) {
                                let k = choose|k: int| 0 <= k < keys(rest).len() && keys(rest)[k] == e.key@;
                                assert(keys(before)[keys(v.queue).len() + k] == e.key@);
                            }
                            if keys(before).contains(e.key@) {
                                let k = choose|k: int| 0 <= k < keys(before).len() && keys(before)[k] == e.key@;
                                if k < keys(v.queue).len() {
                                    assert(keys(v.queue)[k] == e.key@);
                                } else {
                                    assert(keys(rest)[k - keys(v.queue).len()] == e.key@);
                                }
                            }
                        }
                        assert(seen.contains(e.key@) <==> (v.visited.contains(e.key@) || keys(v.queue).contains(e.key@))) by {
                            if v.visited.contains(e.key@) {
                                let k = choose|k: int| 0 <= k < v.visited.len() && v.visited[k] == e.key@;
                                assert(seen[k] == e.key@);
                            }
                            if keys(v.queue).contains(e.key@) {
                                let k = choose|k: int| 0 <= k < keys(v.queue).len() && keys(v.queue)[k] == e.key@;
                                assert(seen[v.visited.len() + k] == e.key@);
                            }
                            if seen.contains(e.key@) {
                                let k = choose|k: int| 0 <= k < seen.len() && seen[k] == e.key@;
                                if k < v.visited.len() {
                                    assert(v.visited[k] == e.key@);
                                } else {
                                    assert(keys(v.queue)[k - v.visited.len()] == e.key@);
                                }
                            }
                        }
                        reveal_with_fuel(admitted, 1);
                    }
                    if fresh {
                        self.queue.push_back(copy_entry(e));
                        proof {
                            assert(entries_view(self.queue@) =~= before.push(e@));
                            let all = v.visited + keys(entries_view(self.queue@));
                            let prev = v.visited + keys(before);
                            assert(all =~= prev.push(e.key@));
                            assert forall|a: int| 0 <= a < prev.len() implies prev[a] != e.key@ by {
                                if prev[a] == e.key@ {
                                    if a < v.visited.len() {
                                        assert(v.visited.contains(e.key@));
                                    } else {
                                        assert(keys(before)[a - v.visited.len()] == e.key@);
                                    }
                                }
                            }
                        }
                    }
                    i = i + 1;
                }
                assert(es.subrange(0, entries@.len() as int) =~= es);
            },
            EntryKind::Other => {},
        }
    }

    /// The paths of the files kept, in the order they were found.
    pub fn into_files(self) -> (r: Vec<String>)
        ensures
            texts(r@) == paths_of(self@.files),
    {
        let mut r: Vec<String> = Vec::new();
        let mut i: usize = 0;
        while i < self.files.len()
            invariant
                i <= self.files@.len(),
                texts(r@) == paths_of(self@.files).subrange(0, i as int),
            decreases self.files@.len() - i,
        {
            let ghost prev = r@;
            r.push(self.files[i].path.clone());
            assert(paths_of(self@.files)[i as int] == self.files@[i as int].path@);
            assert(texts(r@) =~= texts(prev).push(self.files@[i as int].path@));
            i = i + 1;
            assert(texts(r@) =~= paths_of(self@.files).subrange(0, i as int));
        }
        assert(paths_of(self@.files).subrange(0, i as int) =~= paths_of(self@.files));
        r
    }
}

/// What a walk guarantees at every step: a key (a canonical path) is taken
/// out of the queue at most once and never queued again once taken or
/// while queued, so a walk over finitely many canonical paths ends, links
/// that loop included; and each file is kept at most once.
pub proof fn lemma_walk_visits_once(w: Walker)
    requires
        w.wf(),
    ensures
        distinct(w@.visited),
        distinct(keys(w@.queue)),
        forall|k: Seq<char>| w@.visited.contains(k) ==> !keys(w@.queue).contains(k),
        distinct(keys(w@.files)),
{
    let v = w@;
    let all = v.visited + keys(v.queue);
    let n = v.visited.len() as int;
    assert forall|i: int, j: int| 0 <= i < v.visited.len() && 0 <= j < v.visited.len() && i != j implies v.visited[i] != v.visited[j] by {
        assert(all[i] == v.visited[i] && all[j] == v.visited[j]);
    }
    assert forall|i: int, j: int| 0 <= i < keys(v.queue).len() && 0 <= j < keys(v.queue).len() && i != j implies keys(v.queue)[i] != keys(v.queue)[j] by {
        assert(all[n + i] == keys(v.queue)[i] && all[n + j] == keys(v.queue)[j]);
    }
    assert forall|k: Seq<char>| v.visited.contains(k) implies !keys(v.queue).contains(k) by {
        if v.visited.contains(k) && keys(v.queue).contains(k) {
            let a = choose|a: int| 0 <= a < v.visited.len() && v.visited[a] == k;
            let b = choose|b: int| 0 <= b < keys(v.queue).len() && keys(v.queue)[b] == k;
            assert(all[a] == all[n + b]);
        }
    }
}

} // verus!
