pub mod expression;
pub mod float_bits;
pub mod natur40;
pub mod netcdf;
pub mod operator;
pub mod pixel;
pub mod plot;
pub mod reprojection;
pub mod segmentation;
pub mod testing;
pub mod text;
pub mod tokens;
