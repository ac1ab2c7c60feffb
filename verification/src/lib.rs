//! Ambient lighting signal pipeline.
//!
//! Screen regions are captured through a compositor protocol into
//! GPU-importable buffers, composited by shader programs into one pixel per
//! LED, mapped from virtual strips onto physical device buffers, and
//! flushed to LED hardware over serial or network transports — every frame,
//! with per-component recovery instead of process termination.
//!
//! This crate holds the pipeline's decisions and data: the capture-session
//! protocol state machine ([`screencopy`]), the render registry that
//! decides whether a draw may run ([`render`]), the connector that maps
//! strips into device buffers ([`connector`]), the network transport's byte
//! encodings ([`pi`]), and the configuration data model ([`config`]). The
//! embedding application drives the compositor connection, the GPU, and the
//! transports against these contracts.

pub mod config;
pub mod connector;
pub mod idmap;
pub mod pi;
pub mod render;
pub mod screencopy;
