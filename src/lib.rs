//! Post-processing for an anchor-based single-shot face detector.
//!
//! All geometry is carried in fixed point: a normalized coordinate or a
//! probability of `1.0` is represented by [`fixed::UNIT`].

pub mod fixed;
pub mod anchors;
pub mod boxes;
pub mod filter;
pub mod nms;
pub mod decode;
pub mod mapper;
pub mod outputs;
pub mod frame;
