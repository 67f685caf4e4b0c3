//! Moving chunks out of the buffer: uploads, staging, snapshots.

pub mod http_upload;
pub mod leaving;
pub mod scheduler;
pub mod selection;
