//! Multi-dimensional arrays with a verified indexing scheme.
//!
//! An array is a flat buffer together with a shape. A shape is any value that
//! implements [`Dimensions`]: a single axis (`3`, `10..30`, `-42..42`) or a
//! composite of axes (`(3, 4, -10..10)`, `[4, 4]`), laid out in row-major
//! order, the last axis varying fastest. The library provides no numerical
//! algorithm; what it provides, and proves, is the map from coordinates to
//! positions in the buffer.

pub mod arrays;
pub mod axis;
pub mod dimensions;
pub mod error;
pub mod row_major;
pub mod sequence;
pub mod storage;
pub mod tuples;

pub use arrays::{Array, ArrayBase};
pub use axis::Axis;
pub use dimensions::Dimensions;
pub use error::Error;
pub use storage::Storage;
