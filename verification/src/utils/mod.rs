pub mod bytes;
pub mod clock;
pub mod gds_format;
pub mod geometry;
pub mod io;
pub mod stream;
