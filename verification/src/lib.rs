//! Discovery, normalisation and filtering of audio device records.
//!
//! Enumeration backends hand this library plain values describing what they
//! saw on the host; the library turns them into [`devices::AudioDeviceInfo`]
//! records, aggregates them into a [`devices::SystemAudioInfo`] snapshot and
//! applies the card, name and duplicate filters.

pub mod aggregate;
pub mod cards;
pub mod devices;
pub mod filter;
pub mod text;
