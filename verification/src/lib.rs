//! Collision (KCL) and GX geometry decoding for Mario Kart Wii track data.
pub mod binary;
pub mod text;
pub mod kcl;
pub mod gx;
pub mod obj;
pub mod readback;
