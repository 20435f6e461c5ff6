pub use crate::containers::tinyvec::TinyVec;
