//! Where the representative of a group ends up.

use vstd::prelude::*;

use crate::paths::{join, joined, name_prefixed, prefix_file_name, relative_path, relative_to};
use crate::photo::{photo_date, Photo, PhotoView};

verus! {

/// Why no destination could be planned.
#[derive(PartialEq, Eq, Structural, Clone, Copy, Debug)]
pub enum PlanError {
    /// The photo does not lie under the job's root.
    OutsideRoot,
}

impl PlanError {
    /// A message for the person watching the job.
    pub fn message(&self) -> (r: String)
        ensures
            r@ == "the photo does not lie under the chosen folder"@,
    {
        String::from_str("the photo does not lie under the chosen folder")
    }
}

/// What happens to a representative: it may be copied to a new path, and
/// later steps work on `target`.
pub struct Plan {
    /// The path a copy of the photo is written to, if any.
    pub copy_to: Option<String>,
    /// The path that later steps (extraction) work on.
    pub target: String,
}

/// The path a renamed copy of `photo` is written to: its place below
/// `output`, mirroring its place below `root`, with its file name prefixed
/// by its date and an underscore. `None` when the photo is not renamed: no
/// rename was asked for, or it has no date, or it lies outside `root`.
pub open spec fn renamed_copy(photo: PhotoView, root: Seq<char>, output: Seq<char>, rename: bool) -> Option<Seq<char>> {
    match (relative_to(photo.path, root), photo_date(photo)) {
        (Some(rel), Some(d)) if rename => Some(
            name_prefixed(joined(output, rel), d + seq!['_']),
        ),
        _ => None,
    }
}

/// Plans what happens to `photo`, the representative of its group, in a
/// job from `root` to `output`. With renaming asked for and a date found,
/// the photo is copied below `output` under a dated name and that copy is
/// the target; otherwise nothing is copied and the photo itself is the
/// target.
pub fn plan_output(photo: &Photo, root: &str, output: &str, rename: bool) -> (r: Result<Plan, PlanError>)
    ensures
        match r {
            Ok(plan) => {
                &&& relative_to(photo@.path, root@) is Some
                &&& plan.copy_to.deep_view() == renamed_copy(photo@, root@, output@, rename)
                &&& plan.target@ == match renamed_copy(photo@, root@, output@, rename) {
                    Some(p) => p,
                    None => photo@.path,
                }
            },
            Err(e) => e == PlanError::OutsideRoot && relative_to(photo@.path, root@) is None,
        },
{
    let rel = match relative_path(photo.path.as_str(), root) {
        Some(rel) => rel,
        None => return Err(PlanError::OutsideRoot),
    };
    if rename {
        if let Some(date) = photo.get_best_effort_date() {
            let dest = join(output, rel);
            let mut prefix = date;
            prefix.append("_");
            proof {
                reveal_strlit("_");
            }
            let renamed = prefix_file_name(dest.as_str(), prefix.as_str());
            let target = renamed.clone();
            return Ok(Plan { copy_to: Some(renamed), target });
        }
    }
    Ok(Plan { copy_to: None, target: photo.path.clone() })
}

} // verus!
