//! Replay of frozen transactions through a program runtime, with timing.

pub mod account;
pub mod accounts;
pub mod builtin;
pub mod encoding;
pub mod execution;
pub mod features;
pub mod fixture;
pub mod ids;
pub mod instructions;
pub mod instructions_sysvar;
pub mod key;
pub mod options;
pub mod order;
pub mod prepare;
pub mod replay;
pub mod report;
pub mod selection;
pub mod stats;
pub mod sysvars;
pub mod text;
pub mod transaction;
