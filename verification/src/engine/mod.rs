//! The SCRANTIC runtime: executes the decoded TTM/ADS scripts against an abstract,
//! indexed-color surface, plus the story director and island scenery.
pub mod ads_vm;
pub mod clock;
pub mod dissolve;
pub mod error;
pub mod island;
pub mod path;
pub mod rng;
pub mod show;
pub mod story;
pub mod surface;
pub mod ttm_exec;
pub mod ttm_vm;
pub mod upscale;
pub mod walk;
