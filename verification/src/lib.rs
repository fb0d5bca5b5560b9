//! Verified core of the GOES ABI renderer: PNG encoding settings, RGB product
//! metadata, NetCDF window arithmetic and the NASA FIRMS VIIRS fire pipeline.
pub mod text;
pub mod png;
pub mod satellite;
pub mod viirs;
