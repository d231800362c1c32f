//! Background processing of a tree of photos: duplicate grouping, capture
//! date inference, output planning, and extraction of the video clip that
//! motion photos carry after their image data.

pub mod dates;
pub mod grouping;
pub mod job;
pub mod paths;
pub mod payload;
pub mod photo;
pub mod session;
pub mod plan;
pub mod walk;
