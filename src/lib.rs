//! Capture-and-correlate core of a passive 802.11 survey tool: frame
//! decoding, tagged-parameter scanning, GPS fix caching and NMEA decoding,
//! and the batching pipeline that turns sightings into log records.

pub mod frame;
pub mod gps;
pub mod text;
pub mod capture;
pub mod pipeline;
pub mod record;
pub mod startup;
