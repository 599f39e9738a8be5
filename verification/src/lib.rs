pub mod clock;
pub mod cloudformation;
pub mod cmd_execute;
pub mod compute_backups;
pub mod config;
pub mod digest;
pub mod part_size;
pub mod pattern;
pub mod planner_laws;
pub mod remote_catalog;
pub mod retry;
pub mod s3_utils;
pub mod tagging;
pub mod text;
pub mod upload;
pub mod upload_parts;
pub mod zfs_utils;
