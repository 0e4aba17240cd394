//! A file-name search engine for NTFS volumes.

pub mod body_laws;
pub mod byte_laws;
pub mod bytes;
pub mod cache;
pub mod calendar_laws;
pub mod catalog;
pub mod cli;
pub mod commands;
pub mod content;
pub mod content_laws;
pub mod date_laws;
pub mod dates;
pub mod elevation;
pub mod entry;
pub mod error;
pub mod export;
pub mod export_laws;
pub mod fileops;
pub mod frame_laws;
pub mod hit;
pub mod host;
pub mod hotkey;
pub mod icon_laws;
pub mod icons;
pub mod index;
pub mod index_laws;
pub mod indexer;
pub mod indexing;
pub mod ipc;
pub mod matcher;
pub mod matcher_laws;
pub mod message_laws;
pub mod mft;
pub mod mft_laws;
pub mod order;
pub mod order_laws;
pub mod pattern;
pub mod pattern_laws;
pub mod pipe;
pub mod query;
pub mod query_laws;
pub mod rank;
pub mod scm;
pub mod search;
pub mod service_laws;
pub mod settings;
pub mod shell_laws;
pub mod shellmenu;
pub mod size;
pub mod size_laws;
pub mod startup;
pub mod state_laws;
pub mod status;
pub mod text;
pub mod text_laws;
pub mod usn;
pub mod usn_laws;
pub mod volume_laws;
pub mod volumes;
pub mod wide;
pub mod window;
pub mod word_laws;
