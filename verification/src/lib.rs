//! Core logic of the BlueNotify notification backend: parsing of Bluesky
//! identifiers and timestamps, the user-settings model and its watch index,
//! the decisions of the Jetstream reader, and the data mapping done by the
//! settings sync and the web API.

pub mod text;
pub mod order;
pub mod datetime;
pub mod created_at;
pub mod bluesky_utils;
pub mod user_settings;
pub mod models;
pub mod jetstream;
pub mod web_json;
pub mod settings_sync;
pub mod fcm;
pub mod nats;
