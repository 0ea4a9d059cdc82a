//! A codec for the PNG family of raster image containers, the animated
//! extension included.
//!
//! A file is the signature followed by chunks. [`wire`] says how a chunk
//! lies in the bytes and [`checksum`] what protects it; [`decoder`] reads
//! chunks and [`encoder`] writes them. [`tag`] is the registry of chunk
//! types and [`chunk`] the catalog of the records that chunks hold.
//! [`zlib`] is the bridge to the codec that packs the image data.
//!
//! [`document`] assembles the chunks of a file into a document and writes
//! a document as a file; [`laws`] holds what is proved of the two
//! together. [`step`] hands out and takes the pictures of a file frame by
//! frame, with the rows of [`frame`] and the filters of [`filter`];
//! [`step_laws`] holds what is proved of its encoder and decoder together.
//!
//! Everything works on bytes in memory: to fetch them from a source and
//! to hand them to a sink is left to the caller.

pub mod checksum;
pub mod chunk;
pub mod config;
pub mod consts;
pub mod decoder;
pub mod document;
pub mod encoder;
pub mod error;
pub mod filter;
pub mod frame;
pub mod laws;
pub mod step;
pub mod step_laws;
pub mod tag;
pub mod wire;
pub mod zlib;
