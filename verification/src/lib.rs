//! The logic of a fastboot device: requests, downloads and boot images.
//!
//! Everything here computes on bytes and text. Memory, USB transfers and the
//! firmware's services belong to the program that drives the library.

pub mod abootimg;
pub mod boot;
pub mod buffer;
pub mod bytes;
pub mod download;
pub mod error;
pub mod gzip;
pub mod history;
pub mod peimage;
pub mod request;
pub mod response;
pub mod serial;
pub mod session;
pub mod text;
pub mod ucs2;
pub mod usb;
