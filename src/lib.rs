//! Detection of anomalous view-angle behaviour in recorded game sessions.
//!
//! The engine consumes per-tick orientation samples of each player and emits
//! typed, timestamped detections from three detectors: large single-tick
//! flicks, three-tick swing-and-return patterns, and sustained out-of-bounds
//! pitch. Angles are fixed-point integers in hundredths of a degree.
pub mod analyser;
pub mod angle;
pub mod detection;
pub mod export;
pub mod flick;
pub mod numeric;
pub mod oob;
pub mod psilent;
pub mod sample;
pub mod session;
pub mod steamid;
pub mod table;
