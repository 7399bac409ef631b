//! Core logic of a compositor backdrop-effect subsystem: decomposition of
//! add/subtract regions into disjoint rectangles, blur-pyramid bookkeeping,
//! damage clamping and filtering, and the cache state machines around them.

pub mod damage;
pub mod effect_buffer;
pub mod effect_capture;
pub mod effect_state;
pub mod pyramid;
pub mod rect;
pub mod region;
pub mod region_cache;
