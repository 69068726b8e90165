pub mod art;
pub mod compose;
pub mod error;
pub mod layout;
pub mod quantize;
pub mod raster;
pub mod tables;
