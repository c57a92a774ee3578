//! Live-migration groundwork: dirty-page tracking, framing and the transfer channel.

pub mod frame;
pub mod chan;
pub mod writer;
pub mod dirty;
pub mod sink;
pub mod session;
pub mod transfer;
pub mod control;
pub mod receive;
pub mod ctrl_check;
pub mod pacing;
pub mod scan;
pub mod precopy;
pub mod export;
