//! Shapes read from lines of text, point containment, and the collision
//! relation that samples one shape's representative points against another
//! shape's bounds (`text`, `collisions`, `rect`, `circle`, `shape`, `report`).
//!
//! Beside them stand a few smaller verified pieces: the largest container
//! between two lines (`max_area`), the k-th smallest entry of a sorted matrix
//! (`kth_smallest`), a quota tracker that warns through a messenger
//! (`limit_tracker`), a post's review workflow (`blog`), curved test scores
//! (`grading`), a breakfast menu (`back_of_house`) and a static word
//! (`words`).

pub mod text;
pub mod collisions;
pub mod error;
pub mod rect;
pub mod circle;
pub mod shape;
pub mod report;
pub mod back_of_house;
pub mod words;
pub mod limit_tracker;
pub mod blog;
pub mod grading;
pub mod max_area;
pub mod kth_smallest;
