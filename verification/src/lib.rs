//! Conversion of Eden World Builder worlds into Minecraft 1.12 Anvil worlds,
//! procedural Eden terrain, and the binary encoders both directions rely on.

pub mod nbt;
pub mod text;
pub mod anvil;
pub mod block_map;
pub mod eden;
pub mod terrain;
pub mod eden_writer;
pub mod level_dat;
pub mod convert;
pub mod base64;
pub mod noise;
