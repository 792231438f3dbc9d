pub mod channel;
pub mod event;
pub mod scanner;
pub mod transmit;
