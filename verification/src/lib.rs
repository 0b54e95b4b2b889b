//! A reliable-delivery layer over an unreliable, unordered, duplicating
//! datagram transport: wraparound sequence arithmetic, sliding-window packet
//! queues, acknowledgement bitmasks, RTT estimation, a connection state
//! machine, and a fixed-size in-flight packet buffer.

pub mod communicate;
pub mod connection;
pub mod debug;
pub mod netbuffers;
pub mod packet;
pub mod queue;
pub mod reliability;
pub mod sequence;
pub mod utils;
