//! Table sizes, so one algorithm runs at two scales.
//!
//! The desktop and a board run the *same* link, channel, and resource code: the algorithms
//! take their table sizes as parameters rather than forking. [`desktop`] instantiates them
//! large, [`small`] instantiates them for a 256 KB part.
//!
//! Capacities are powers of two.

pub mod desktop;
pub mod small;
