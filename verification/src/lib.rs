//! Decision logic of a live dictation tool: speech segmentation, transcript
//! cleaning, model selection, configuration defaults and text injection.
pub mod config;
pub mod frames;
pub mod injector;
pub mod paths;
pub mod segmenter;
pub mod session;
pub mod text;
pub mod transcript;
