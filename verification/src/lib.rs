//! The verified core of bili-sync's split storage: metadata stays in the local
//! metadata root while videos go to a separate root or, through CloudDrive2, to a
//! cloud drive, always with the same relative directory layout; plus the MediaIndex
//! completion webhook and the notifier settings.

pub mod cd2;
pub mod checksum;
pub mod grpc_web;
pub mod media_index;
pub mod notifier;
pub mod path;
pub mod storage;
pub mod text;
pub mod upload;
pub mod web;
