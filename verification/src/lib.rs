//! A bridge from a smart-energy-meter data logger to Prometheus-style gauges.
//!
//! On each scrape the bridge fetches the logger's current readings, maps
//! them to uniquely named numeric gauges, stores the last value of each gauge
//! and renders what is stored. This library is the part of the bridge that
//! decides and computes:
//!
//! - [`client`]: where the readings are fetched from;
//! - [`measurement`]: the readings as they come, and the updates they become;
//! - [`mapper`]: which readings become gauges, and under which names;
//! - [`sink`]: the store that keeps the last value of each gauge;
//! - [`scrape`]: how a scrape ends, given what the fetch gave;
//! - [`text`]: lower-casing, which the gauge names need.
//!
//! The network, the HTTP server and the rendering of the exposition text
//! live outside of it. A 64-bit float crosses the library's border as its bit
//! pattern in a `u64`.

pub mod client;
pub mod mapper;
pub mod measurement;
pub mod scrape;
pub mod sink;
pub mod text;
