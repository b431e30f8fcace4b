pub mod codec;
pub mod frame;
pub mod message;
pub mod node;
pub mod receiver;
pub mod retransmit;
pub mod sender;
