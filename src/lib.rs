//! Integer core of a Monte-Carlo path tracer: the decimal and PPM text
//! encoding of an image, the raster schedule a render follows, and the
//! depth-bounded decisions of a traced path.

pub mod decimal;
pub mod ppm;
pub mod raster;
pub mod path;
