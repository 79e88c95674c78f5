//! Background removal for RGBA images: corner-sampled background detection,
//! colour-distance masking, border flood fill and edge feathering.

pub mod buffer;
pub mod classify;
pub mod codec;
pub mod controller;
pub mod feather;
pub mod flood;
pub mod grid;
pub mod mask;
pub mod model;
pub mod pixel;
pub mod remover;
pub mod sampler;
pub mod service;
pub mod text;
pub mod theorems;
