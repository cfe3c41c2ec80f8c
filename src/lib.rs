//! Verified core of a screen-capture timer: pixel frames, candidate regions,
//! the matchers that look for known patterns in a frame, and the decision
//! logic of the workers that run them.

pub mod frame;
pub mod view_ext;
pub mod matcher;
pub mod jinhillah;
pub mod buff;
pub mod agent;
pub mod slot;
pub mod screen_dimension;
pub mod timers;
pub mod capture;
