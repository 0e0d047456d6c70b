//! Verified core of an ECB exchange-rate service: calendar days, the cache of
//! daily EUR/X rates, the loading of one year of ECB data into that cache, the
//! look-back search for the most recent published rate, and the validation of
//! currency requests.

pub mod calendar;
pub mod ecb;
pub mod rates;
pub mod server;
pub mod text;
