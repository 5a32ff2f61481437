//! Message channels: a platform's message becomes a payload of content parts, goes
//! through a gate into the queue of its session, and the reply goes back.

pub mod envelope;
pub mod access;
pub mod config;
pub mod mailbox;
pub mod manager;
pub mod outbound;
pub mod router;
pub mod inbound;
pub mod feishu;
pub mod wire;
pub mod dingtalk;
pub mod qq;
pub mod catalog;
pub mod qrcode;
