//! Thread-based composition patterns.
//!
//! Data structures for composing values with weaving metaphors: warp
//! (longitudinal threads), weft (cross-threads), shed (separation),
//! heddle (pattern control) and tapestry (woven result).

pub mod heddle;
pub mod measure;
pub mod metadata;
pub mod shed;
pub mod warp;
pub mod weft;
pub mod tapestry;

pub use tapestry::{Cell, Tapestry, checkerboard, stripes, weave};
pub use warp::{Warp, WarpThread};
pub use weft::{Weft, WeftThread};
pub use shed::Shed;
pub use heddle::{Harness, Heddle};
