//! Verified core of the Singing Sand music library: stored settings, path
//! rules, the sidebar directory tree, track selection and tag toggling,
//! search planning and stored-waveform framing, analysis frame accounting,
//! waveform rasterisation and its render cache, the audio engine's
//! decisions, debounced note saving, the album-art cache, and image work
//! through the `image` crate.

pub mod text;
pub mod model;
pub mod num;
pub mod settings;
pub mod paths;
pub mod order;
pub mod dirtree;
pub mod selection;
pub mod tracks;
pub mod query;
pub mod library;
pub mod raster;
pub mod rendercache;
pub mod imaging;
pub mod frames;
pub mod playback;
pub mod notes;
pub mod artcache;
