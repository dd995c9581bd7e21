pub mod aggregate;
pub mod cascade;
pub mod geometry;
pub mod lexical;
pub mod outcome;
pub mod raster;
