//! Core of a small video editor: frames, items, layers, scenes, a frame
//! cache, the stream and decode bookkeeping of the media backend, and the
//! pixel layout conversions of the OpenCV backend.

pub mod frame;
pub mod interface;
pub mod item;
pub mod layer;
pub mod cache;
pub mod scene;
pub mod decode;
pub mod pixels;
pub mod io;
pub mod manager;
pub mod timeline;
