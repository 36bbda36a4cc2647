//! Building blocks of a benchmark harness for asynchronous task runtimes:
//! block planning over a file, a shared claiming cursor, the producer and
//! consumer sides of a sentinel-terminated channel, the spawn-then-join
//! schedule of a driver, and the derived rate metrics.
pub mod blocks;
pub mod partition;
pub mod channel;
pub mod schedule;
pub mod metrics;
