pub mod control;
pub mod error;
pub mod fdw;
pub mod http;
pub mod json;
pub mod openapi;
pub mod option_map;
pub mod options;
pub mod response;
pub mod server;
pub mod sorting;
pub mod table;
pub mod text;
pub mod urls;
