//! Content keys, and the grouping of photos whose keys are equal.

use vstd::prelude::*;

use crate::photo::{views, Photo, PhotoView};

verus! {

/// The SHA-256 digest of a byte sequence.
pub uninterp spec fn sha256_of(data: Seq<u8>) -> Seq<u8>;

/// Relies on ring's `digest::digest` with the `SHA256` algorithm: the
/// 32-byte digest of `data`, which depends on the bytes alone.
#[verifier::external_body]
fn sha256(data: &[u8]) -> (r: Vec<u8>)
    ensures
        r@ == sha256_of(data@),
        r@.len() == 32,
{
    ring::digest::digest(&ring::digest::SHA256, data).as_ref().to_vec()
}

/// The eight bytes of `v`, most significant first.
pub open spec fn be_bytes(v: u64) -> Seq<u8> {
    seq![
        ((v >> 56u64) & 0xff) as u8,
        ((v >> 48u64) & 0xff) as u8,
        ((v >> 40u64) & 0xff) as u8,
        ((v >> 32u64) & 0xff) as u8,
        ((v >> 24u64) & 0xff) as u8,
        ((v >> 16u64) & 0xff) as u8,
        ((v >> 8u64) & 0xff) as u8,
        (v & 0xff) as u8,
    ]
}

/// The key under which the `index`-th file found, holding `data`, is
/// grouped: the digest of its contents when duplicates are merged, else its
/// index, so that every file stands alone.
pub open spec fn key_of(deduplicate: bool, index: u64, data: Seq<u8>) -> Seq<u8> {
    if deduplicate {
        sha256_of(data)
    } else {
        be_bytes(index)
    }
}

/// The eight bytes of `v`, most significant first.
pub fn index_key(v: u64) -> (r: Vec<u8>)
    ensures
        r@ == be_bytes(v),
{
    let r = vec![
        ((v >> 56u64) & 0xff) as u8,
        ((v >> 48u64) & 0xff) as u8,
        ((v >> 40u64) & 0xff) as u8,
        ((v >> 32u64) & 0xff) as u8,
        ((v >> 24u64) & 0xff) as u8,
        ((v >> 16u64) & 0xff) as u8,
        ((v >> 8u64) & 0xff) as u8,
        (v & 0xff) as u8,
    ];
    assert(r@ =~= be_bytes(v));
    r
}

/// The key of the `index`-th file found, holding `data`.
pub fn content_key(deduplicate: bool, index: u64, data: &[u8]) -> (r: Vec<u8>)
    ensures
        r@ == key_of(deduplicate, index, data@),
{
    if deduplicate {
        sha256(data)
    } else {
        index_key(index)
    }
}

/// Photos that share a content key, in the order they were found.
pub struct DuplicateGroup {
    pub key: Vec<u8>,
    pub photos: Vec<Photo>,
}

/// A group as values.
pub struct GroupView {
    pub key: Seq<u8>,
    pub photos: Seq<PhotoView>,
}

impl View for DuplicateGroup {
    type V = GroupView;

    open spec fn view(&self) -> GroupView {
        GroupView { key: self.key@, photos: views(self.photos@) }
    }
}

/// The groups hold distinct keys and none is empty.
pub open spec fn groups_wf(gs: Seq<GroupView>) -> bool {
    &&& forall|i: int| 0 <= i < gs.len() ==> #[trigger] gs[i].photos.len() > 0
    &&& forall|i: int, j: int|
        0 <= i < gs.len() && 0 <= j < gs.len() && i != j ==> #[trigger] gs[i].key != #[trigger] gs[j].key
}

/// The groups after a photo with `key` is added: appended to the group of
/// that key, or alone in a new last group when no group has it.
pub open spec fn with_photo(gs: Seq<GroupView>, key: Seq<u8>, p: PhotoView) -> Seq<GroupView> {
    if exists|i: int| 0 <= i < gs.len() && gs[i].key == key {
        let i = choose|i: int| 0 <= i < gs.len() && gs[i].key == key;
        gs.update(i, GroupView { key, photos: gs[i].photos.push(p) })
    } else {
        gs.push(GroupView { key, photos: seq![p] })
    }
}

/// The groups formed by adding the photos one by one, each under its key.
pub open spec fn grouped(keys: Seq<Seq<u8>>, photos: Seq<PhotoView>) -> Seq<GroupView>
    decreases keys.len(),
{
    if keys.len() == 0 || photos.len() == 0 {
        Seq::empty()
    } else {
        let n = keys.len() - 1;
        with_photo(
            grouped(keys.subrange(0, n), photos.subrange(0, photos.len() - 1)),
            keys[n],
            photos.last(),
        )
    }
}

/// The keys of `n` files found one after the other, all holding `data`.
pub open spec fn keys_of_copies(deduplicate: bool, data: Seq<u8>, n: nat) -> Seq<Seq<u8>> {
    Seq::new(n, |i: int| key_of(deduplicate, i as u64, data))
}

/// Distinct indices have distinct keys.
pub proof fn lemma_index_keys_distinct(a: u64, b: u64)
    requires
        a != b,
    ensures
        be_bytes(a) != be_bytes(b),
{
    if be_bytes(a) == be_bytes(b) {
        assert(be_bytes(a)[0] == be_bytes(b)[0]);
        assert(be_bytes(a)[1] == be_bytes(b)[1]);
        assert(be_bytes(a)[2] == be_bytes(b)[2]);
        assert(be_bytes(a)[3] == be_bytes(b)[3]);
        assert(be_bytes(a)[4] == be_bytes(b)[4]);
        assert(be_bytes(a)[5] == be_bytes(b)[5]);
        assert(be_bytes(a)[6] == be_bytes(b)[6]);
        assert(be_bytes(a)[7] == be_bytes(b)[7]);
        assert(a == b) by (bit_vector)
            requires
                ((a >> 56u64) & 0xff) as u8 == ((b >> 56u64) & 0xff) as u8,
                ((a >> 48u64) & 0xff) as u8 == ((b >> 48u64) & 0xff) as u8,
                ((a >> 40u64) & 0xff) as u8 == ((b >> 40u64) & 0xff) as u8,
                ((a >> 32u64) & 0xff) as u8 == ((b >> 32u64) & 0xff) as u8,
                ((a >> 24u64) & 0xff) as u8 == ((b >> 24u64) & 0xff) as u8,
                ((a >> 16u64) & 0xff) as u8 == ((b >> 16u64) & 0xff) as u8,
                ((a >> 8u64) & 0xff) as u8 == ((b >> 8u64) & 0xff) as u8,
                (a & 0xff) as u8 == (b & 0xff) as u8,
        ;
    }
}

proof fn lemma_copies_merged(data: Seq<u8>, photos: Seq<PhotoView>)
    requires
        photos.len() > 0,
    ensures
        grouped(keys_of_copies(true, data, photos.len()), photos) == seq![
            GroupView { key: sha256_of(data), photos },
        ],
    decreases photos.len(),
{
    let n = photos.len();
    let keys = keys_of_copies(true, data, n);
    let front = photos.subrange(0, n - 1);
    assert(keys.subrange(0, n - 1) =~= keys_of_copies(true, data, (n - 1) as nat));
    if n == 1 {
        assert(front.len() == 0);
        assert(grouped(keys.subrange(0, 0), front) =~= Seq::<GroupView>::empty());
        assert(seq![photos.last()] =~= photos);
        assert(with_photo(Seq::empty(), keys[0], photos.last()) =~= seq![
            GroupView { key: sha256_of(data), photos },
        ]);
    } else {
        lemma_copies_merged(data, front);
        let gs = grouped(keys.subrange(0, n - 1), front);
        assert(gs[0].key == keys[n - 1]);
        assert(front.push(photos.last()) =~= photos);
        assert(with_photo(gs, keys[n - 1], photos.last()) =~= seq![
            GroupView { key: sha256_of(data), photos },
        ]);
    }
}

proof fn lemma_copies_apart(data: Seq<u8>, photos: Seq<PhotoView>)
    requires
        photos.len() <= u64::MAX,
    ensures
        grouped(keys_of_copies(false, data, photos.len()), photos) == Seq::new(
            photos.len(),
            |i: int| GroupView { key: be_bytes(i as u64), photos: seq![photos[i]] },
        ),
    decreases photos.len(),
{
    let n = photos.len();
    let keys = keys_of_copies(false, data, n);
    let expected = Seq::new(n, |i: int| GroupView { key: be_bytes(i as u64), photos: seq![photos[i]] });
    if n == 0 {
        assert(grouped(keys, photos) =~= expected);
    } else {
        let front = photos.subrange(0, n - 1);
        assert(keys.subrange(0, n - 1) =~= keys_of_copies(false, data, (n - 1) as nat));
        lemma_copies_apart(data, front);
        let gs = grouped(keys.subrange(0, n - 1), front);
        assert forall|i: int| 0 <= i < gs.len() implies gs[i].key != keys[n - 1] by {
            lemma_index_keys_distinct(i as u64, (n - 1) as u64);
        }
        assert(with_photo(gs, keys[n - 1], photos.last()) =~= expected);
    }
}

/// Files with identical contents: when duplicates are merged they form a
/// single group holding all of them in order, so one representative is
/// chosen; otherwise every file forms a group of its own.
pub proof fn lemma_identical_contents(deduplicate: bool, data: Seq<u8>, photos: Seq<PhotoView>)
    requires
        photos.len() > 0,
        photos.len() <= u64::MAX,
    ensures
        deduplicate ==> grouped(keys_of_copies(deduplicate, data, photos.len()), photos).len() == 1,
        deduplicate ==> grouped(keys_of_copies(deduplicate, data, photos.len()), photos)[0].photos
            == photos,
        !deduplicate ==> grouped(keys_of_copies(deduplicate, data, photos.len()), photos).len()
            == photos.len(),
{
    if deduplicate {
        lemma_copies_merged(data, photos);
    } else {
        lemma_copies_apart(data, photos);
    }
}

/// The photos of a job, grouped by content key.
pub struct Grouping {
    deduplicate: bool,
    groups: Vec<DuplicateGroup>,
    /// The keys and photos added so far, in order.
    added: Ghost<(Seq<Seq<u8>>, Seq<PhotoView>)>,
}

impl View for Grouping {
    type V = Seq<GroupView>;

    closed spec fn view(&self) -> Seq<GroupView> {
        self.groups@.map_values(|g: DuplicateGroup| g@)
    }
}

/// Whether two byte strings are equal.
fn same_bytes(a: &[u8], b: &[u8]) -> (r: bool)
    ensures
        r == (a@ == b@),
{
    if a.len() != b.len() {
        return false;
    }
    let mut i: usize = 0;
    while i < a.len()
        invariant
            a@.len() == b@.len(),
            i <= a@.len(),
            forall|k: int| 0 <= k < i ==> a@[k] == b@[k],
        decreases a@.len() - i,
    {
        if a[i] != b[i] {
            return false;
        }
        i = i + 1;
    }
    assert(a@ =~= b@);
    true
}

impl Grouping {
    /// The groups are those formed by the photos added so far.
    pub open spec fn wf(&self) -> bool {
        &&& groups_wf(self@)
        &&& self.added_keys().len() == self.added_photos().len()
        &&& self@ == grouped(self.added_keys(), self.added_photos())
    }

    /// The keys of the photos added so far, in order.
    pub closed spec fn added_keys(&self) -> Seq<Seq<u8>> {
        self.added@.0
    }

    /// The photos added so far, in order.
    pub closed spec fn added_photos(&self) -> Seq<PhotoView> {
        self.added@.1
    }

    pub closed spec fn deduplicates(&self) -> bool {
        self.deduplicate
    }

    /// No groups yet.
    pub fn new(deduplicate: bool) -> (r: Grouping)
        ensures
            r.wf(),
            r@ == Seq::<GroupView>::empty(),
            r.added_keys().len() == 0,
            r.deduplicates() == deduplicate,
    {
        let r = Grouping { deduplicate, groups: Vec::new(), added: Ghost((Seq::empty(), Seq::empty())) };
        assert(r@ =~= Seq::<GroupView>::empty());
        r
    }

    /// Whether duplicates are merged.
    pub fn deduplicate(&self) -> (r: bool)
        ensures
            r == self.deduplicates(),
    {
        self.deduplicate
    }

    /// The number of groups.
    pub fn len(&self) -> (r: usize)
        ensures
            r == self@.len(),
    {
        self.groups.len()
    }

    /// Adds a photo under `key`.
    pub fn insert(&mut self, key: Vec<u8>, photo: Photo)
        requires
            old(self).wf(),
        ensures
            final(self).wf(),
            final(self)@ == with_photo(old(self)@, key@, photo@),
            final(self).deduplicates() == old(self).deduplicates(),
            final(self).added_keys() == old(self).added_keys().push(key@),
            final(self).added_photos() == old(self).added_photos().push(photo@),
    {
        let ghost gs = self@;
        let ghost p = photo@;
        let ghost k = key@;
        let ghost (ks, ps) = self.added@;
        proof {
            let ks2 = ks.push(k);
            let ps2 = ps.push(p);
            assert(ks2.subrange(0, ks.len() as int) =~= ks);
            assert(ps2.subrange(0, ps.len() as int) =~= ps);
            assert(grouped(ks2, ps2) == with_photo(grouped(ks, ps), k, p));
        }
        self.added = Ghost((ks.push(k), ps.push(p)));
        assert(self@ == gs);
        match self.find(&key) {
            Some(i) => {
                let mut g = DuplicateGroup { key: Vec::new(), photos: Vec::new() };
                self.groups.set_and_swap(i, &mut g);
                g.photos.push(photo);
                self.groups.set_and_swap(i, &mut g);
                proof {
                    let c = choose|c: int| 0 <= c < gs.len() && gs[c].key == key@;
                    assert(c == i);
                    assert(self@[i as int].photos =~= gs[i as int].photos.push(p));
                    assert(self@ =~= with_photo(gs, key@, p));
                }
            },
            None => {
                let mut photos: Vec<Photo> = Vec::new();
                photos.push(photo);
                self.groups.push(DuplicateGroup { key, photos });
                proof {
                    assert(self@[gs.len() as int].photos =~= seq![p]);
                    assert(self@[gs.len() as int].key == k);
                    assert(self@ =~= gs.push(GroupView { key: k, photos: seq![p] }));
                    assert(self@ =~= with_photo(gs, k, p));
                }
            },
        }
    }

    /// The position of the group of `key`.
    fn find(&self, key: &Vec<u8>) -> (r: Option<usize>)
        ensures
            match r {
                Some(i) => i < self@.len() && self@[i as int].key == key@,
                None => forall|k: int| 0 <= k < self@.len() ==> self@[k].key != key@,
            },
    {
        let mut i: usize = 0;
        while i < self.groups.len()
            invariant
                i <= self@.len(),
                forall|k: int| 0 <= k < i ==> self@[k].key != key@,
            decreases self@.len() - i,
        {
            if same_bytes(self.groups[i].key.as_slice(), key.as_slice()) {
                return Some(i);
            }
            i = i + 1;
        }
        None
    }

    /// Adds the `index`-th file found, at `path` and holding `data`, under
    /// its content key.
    pub fn add_file(&mut self, index: u64, path: String, data: &[u8])
        requires
            old(self).wf(),
        ensures
            final(self).wf(),
            final(self)@ == with_photo(
                old(self)@,
                key_of(old(self).deduplicates(), index, data@),
                Photo::from_contents_view(path@, data@),
            ),
            final(self).deduplicates() == old(self).deduplicates(),
            final(self).added_keys() == old(self).added_keys().push(
                key_of(old(self).deduplicates(), index, data@),
            ),
            final(self).added_photos() == old(self).added_photos().push(
                Photo::from_contents_view(path@, data@),
            ),
    {
        let key = content_key(self.deduplicate, index, data);
        let photo = Photo::from_contents(path, data);
        self.insert(key, photo);
    }

    /// A grouping to which files all holding `data` were added one by one
    /// under the indices 0, 1, 2, ...: when duplicates are merged it holds a
    /// single group of all of them, so one representative is chosen;
    /// otherwise as many groups as files.
    pub proof fn lemma_grouping_of_copies(&self, data: Seq<u8>)
        requires
            self.wf(),
            self.added_photos().len() > 0,
            self.added_photos().len() <= u64::MAX,
            self.added_keys() == keys_of_copies(self.deduplicates(), data, self.added_photos().len()),
        ensures
            self.deduplicates() ==> self@.len() == 1 && self@[0].photos == self.added_photos(),
            !self.deduplicates() ==> self@.len() == self.added_photos().len(),
    {
        lemma_identical_contents(self.deduplicates(), data, self.added_photos());
    }

    /// The groups, in the order their keys were first met.
    pub fn into_groups(self) -> (r: Vec<DuplicateGroup>)
        ensures
            r@.map_values(|g: DuplicateGroup| g@) == self@,
    {
        self.groups
    }
}

} // verus!
