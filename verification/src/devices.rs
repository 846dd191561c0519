//! Device records and the backends that produce them.

pub mod alsa_devices;
pub mod cpal_devices;
pub mod proc_asound;
pub mod types;

pub use alsa_devices::get_alsa_devices;
pub use cpal_devices::get_cpal_devices;
pub use proc_asound::{get_proc_alsa_devices, parse_stream_channels, read_pcm_info};
pub use types::{AudioDeviceInfo, DeviceModel, SystemAudioInfo, SystemModel};
