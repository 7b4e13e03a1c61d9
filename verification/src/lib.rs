//! An internet radio station: schedule-driven track selection, exact real-time
//! pacing, stereo fan-out encoding, a drop-on-full network sink and a
//! restart protocol that resumes a track at the byte where it stopped.

pub mod db;
pub mod icecast;
pub mod reader;
pub mod station;
pub mod stream;
