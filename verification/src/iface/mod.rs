//! What interfaces put around packets.

pub mod hdlc;
