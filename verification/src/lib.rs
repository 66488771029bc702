pub mod text;
pub mod common;
pub mod errno;
pub mod ts;
pub mod ts_format;
pub mod ts_time;
pub mod ts_parse;
pub mod ts_relative;
pub mod ifdata;
pub mod vidir;
pub mod lckdo;
pub mod isutf8;
pub mod zrun;
pub mod combine;
pub mod vipe;
pub mod parallel;
pub mod chronic;
pub mod ifne;
pub mod pee;
pub mod sponge;
pub mod mispipe;
