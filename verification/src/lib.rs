//! Counting the pips of a row of dominoes in a photograph.
//!
//! The library holds the image analysis: classifying pixels, locating the
//! domino row, splitting it into halves, counting colour buckets, ranking
//! them and scoring the row.

pub mod log;
pub mod pixel;
pub mod raster;
pub mod imaging;
pub mod ranking;
pub mod dominoes;
pub mod buckets;
pub mod statistics;
pub mod location;
pub mod labels;
pub mod pipeline;
pub mod command_line;
