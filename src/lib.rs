//! Provider dispatch and key-lifecycle core of a local PSA cryptographic service.
pub mod requests;
pub mod key_info;
pub mod key_info_manager;
pub mod providers;
pub mod mbed_provider;
pub mod lifecycle;
pub mod key_slots;
pub mod dispatch;
