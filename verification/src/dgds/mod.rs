//! Reader and decoder for the Dynamix DGDS / SCRANTIC resource format used by the
//! 1992 Johnny Castaway screensaver.
pub mod error;
pub mod reader;
pub mod pixels;
pub mod decompress;
pub mod chunk;
pub mod resource;
pub mod pal;
pub mod scr;
pub mod bmp;
pub mod ttm;
pub mod ads;
pub mod archive;
pub mod exe_sound;
pub mod installer;
