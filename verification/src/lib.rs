//! The decision core of a local coding agent: turn parsing, tool-call
//! extraction, guards, channel envelopes and gateways, each function with the
//! contract it is proved against.

pub mod text;
pub mod json;
pub mod double;
pub mod outside;
pub mod xml_tools;
pub mod usage;
pub mod think;
pub mod paint;
pub mod turn;
pub mod fault;
pub mod stream;
pub mod reply;
pub mod adapter;
pub mod paths;
pub mod guard;
pub mod oracle;
pub mod pb;
pub mod channel;
pub mod table;
pub mod asks;
pub mod drive;
pub mod message;
pub mod context;
pub mod tools;
pub mod policy;
pub mod endpoint;
pub mod notes;
pub mod setup;
pub mod bench;
pub mod report;
pub mod cli;
pub mod turn_loop;
