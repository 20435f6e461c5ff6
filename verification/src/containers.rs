pub mod tinyvec;
