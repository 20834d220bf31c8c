//! Provider and model identity: provider tokens, provider-aware model
//! identifiers with release dates, and the ordered map of provider settings.

pub mod text;
pub mod provider;
pub mod date;
pub mod model_id;
pub mod base_url;
pub mod config;
pub mod defaults;
pub mod collections;
