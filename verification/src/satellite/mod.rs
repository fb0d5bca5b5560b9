//! GOES ABI satellite products.
pub mod rgb;
pub mod netcdf;
