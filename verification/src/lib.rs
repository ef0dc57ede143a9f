//! Software decoding for H.264/AVC and H.265/HEVC.
pub mod bitstream;
pub mod h264;
pub mod nal;
mod text;
