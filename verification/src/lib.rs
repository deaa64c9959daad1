pub mod text;
pub mod instruction_parser;
pub mod utils;
pub mod aes;
pub mod bn;
pub mod sha256;
pub mod md32;
pub mod sha1;
pub mod md5;
pub mod ipred;
pub mod define;
pub mod playground;
pub mod ghash;
pub mod common;
pub mod smt;
pub mod computer;
pub mod layout;
pub mod conditions;
