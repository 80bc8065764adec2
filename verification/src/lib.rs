use vstd::prelude::*;

pub mod cli;
pub mod encoding;
pub mod error;
pub mod event;
pub mod fs_name;
pub mod generate;
pub mod info;
pub mod media;
pub mod pack;
pub mod path;
pub mod port;
pub mod probe;
pub mod rename;
pub mod scan;
pub mod text;
pub mod transfer;
pub mod unzip;
pub mod video;
