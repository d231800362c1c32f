//! Photos found by a job, their capture dates, and the choice of one
//! representative among photos with the same content.

use vstd::prelude::*;

use crate::dates::{best_effort_date_of, metadata_date, name_date};
use crate::paths::{file_name, file_name_of};

verus! {

/// The text of the original-capture-date field of the EXIF data that an
/// image file's contents carry, when they carry that field.
pub uninterp spec fn exif_capture_date(data: Seq<u8>) -> Option<Seq<char>>;

/// Relies on kamadak-exif: `Reader::read_from_container` parses the EXIF
/// data of an image container, `Exif::get_field` looks up the
/// `DateTimeOriginal` field of the primary image and `Field::display_value`
/// renders it as text. The text depends on the bytes alone.
#[verifier::external_body]
fn read_capture_date(data: &[u8]) -> (r: Option<String>)
    ensures
        r.deep_view() == exif_capture_date(data@),
{
    let mut cursor = std::io::Cursor::new(data);
    let exif = exif::Reader::new().read_from_container(&mut cursor).ok()?;
    let field = exif.get_field(exif::Tag::DateTimeOriginal, exif::In::PRIMARY)?;
    Some(field.display_value().to_string())
}

/// A photo file found under a job's root.
pub struct Photo {
    /// Where the file lies.
    pub path: String,
    /// The text of its original-capture-date metadata field, if it has one.
    pub exif_date: Option<String>,
    /// Whether the file is trusted to be intact; every photo is today.
    pub accurate: bool,
}

/// What a photo is, as values.
pub struct PhotoView {
    pub path: Seq<char>,
    pub exif_date: Option<Seq<char>>,
    pub accurate: bool,
}

impl View for Photo {
    type V = PhotoView;

    open spec fn view(&self) -> PhotoView {
        PhotoView { path: self.path@, exif_date: self.exif_date.deep_view(), accurate: self.accurate }
    }
}

/// The photo's best-effort capture date.
pub open spec fn photo_date(p: PhotoView) -> Option<Seq<char>> {
    best_effort_date_of(p.exif_date, file_name_of(p.path))
}

impl Photo {
    /// The photo at `path` whose file holds `data`, as values.
    pub open spec fn from_contents_view(path: Seq<char>, data: Seq<u8>) -> PhotoView {
        PhotoView { path, exif_date: exif_capture_date(data), accurate: true }
    }

    /// The photo at `path` whose file holds `data`, with the capture date
    /// that its metadata records.
    pub fn from_contents(path: String, data: &[u8]) -> (r: Photo)
        ensures
            r@ == Photo::from_contents_view(path@, data@),
    {
        Photo { path, exif_date: read_capture_date(data), accurate: true }
    }

    /// Whether the photo's metadata records a capture date.
    pub fn has_valid_exif_date(&self) -> (r: bool)
        ensures
            r == (self@.exif_date is Some),
    {
        self.exif_date.is_some()
    }

    /// The text of the capture date that the photo's metadata records.
    pub fn get_exif_date(&self) -> (r: Option<String>)
        ensures
            r.deep_view() == self@.exif_date,
    {
        match &self.exif_date {
            Some(d) => Some(d.clone()),
            None => None,
        }
    }

    /// The capture date as `YYYY-MM-DD`: from the metadata when its text
    /// holds a date, else from the file name, else none.
    pub fn get_best_effort_date(&self) -> (r: Option<String>)
        ensures
            r.deep_view() == photo_date(self@),
    {
        if let Some(text) = &self.exif_date {
            if let Some(d) = metadata_date(text.as_str()) {
                return Some(d);
            }
        }
        name_date(file_name(self.path.as_str()))
    }

    /// Whether the photo is trusted to be intact.
    pub fn is_accurate(&self) -> (r: bool)
        ensures
            r == self@.accurate,
    {
        self.accurate
    }
}

/// The views of a sequence of photos.
pub open spec fn views(ph: Seq<Photo>) -> Seq<PhotoView> {
    ph.map_values(|p: Photo| p@)
}

/// Whether a candidate takes the place of the current best photo: only when
/// the best has no metadata date and the candidate has one, or the best is
/// not accurate and the candidate is.
pub open spec fn replaces(best: PhotoView, cand: PhotoView) -> bool {
    best.exif_date is None && (cand.exif_date is Some || (!best.accurate && cand.accurate))
}

/// The index of the photo chosen among the first `n` of `ph`: a left fold
/// that starts from the first photo and lets each later one replace the
/// current choice when `replaces` says so.
pub open spec fn chosen_among(ph: Seq<PhotoView>, n: nat) -> int
    decreases n,
{
    if n <= 1 {
        0
    } else {
        let b = chosen_among(ph, (n - 1) as nat);
        if replaces(ph[b], ph[n - 1]) {
            n - 1
        } else {
            b
        }
    }
}

/// The index of the representative of a group of photos.
pub open spec fn representative_of(ph: Seq<PhotoView>) -> int {
    chosen_among(ph, ph.len())
}

/// Picks the representative of a non-empty group of photos by the fold of
/// `chosen_among`.
pub fn select_representative(photos: &[Photo]) -> (r: usize)
    requires
        photos@.len() > 0,
    ensures
        r == representative_of(views(photos@)),
        r < photos@.len(),
{
    let mut best: usize = 0;
    let mut i: usize = 1;
    while i < photos.len()
        invariant
            1 <= i <= photos@.len(),
            best == chosen_among(views(photos@), i as nat),
            best < i,
        decreases photos@.len() - i,
    {
        let b = &photos[best];
        let c = &photos[i];
        if !b.has_valid_exif_date() && (c.has_valid_exif_date() || (!b.is_accurate() && c.is_accurate())) {
            best = i;
        }
        i = i + 1;
    }
    best
}

} // verus!

verus! {

/// In a group whose photos all agree on having a metadata date and on
/// being accurate (as copies of one file do), the first photo is chosen.
pub proof fn lemma_alike_photos_keep_first(ph: Seq<PhotoView>, n: nat)
    requires
        1 <= n <= ph.len(),
        forall|i: int| 0 <= i < ph.len() ==> (#[trigger] ph[i]).exif_date is Some == ph[0].exif_date is Some,
        forall|i: int| 0 <= i < ph.len() ==> (#[trigger] ph[i]).accurate == ph[0].accurate,
    ensures
        chosen_among(ph, n) == 0,
    decreases n,
{
    if n > 1 {
        lemma_alike_photos_keep_first(ph, (n - 1) as nat);
        assert(ph[n - 1].exif_date is Some == ph[0].exif_date is Some);
        assert(ph[n - 1].accurate == ph[0].accurate);
    }
}

} // verus!
