//! Schema of the three configuration documents.
//!
//! These structs document the expected shape of the system, hardware and
//! profile documents.  The runtime query path works on the dynamic
//! [`crate::value::ConfigValue`] tree instead; the schema exists for
//! validation and for tests.  Floating-point fields are carried as IEEE 754
//! bit patterns, as the tree does.

use vstd::prelude::*;

use std::collections::HashMap;

verus! {

/// The final, merged configuration from all source documents.
#[derive(Debug)]
pub struct MergedConfig {
    pub system: SystemConfig,
    pub hardware: HardwareConfig,
    pub profile: ProfileConfig,
}

/// Shape of the system-defaults document.
#[derive(Debug)]
pub struct SystemConfig {
    pub log_level: String,
    pub threads: ThreadConfig,
}

/// Thread counts per subsystem.
#[derive(Debug)]
pub struct ThreadConfig {
    pub perception: u32,
    pub reasoning: u32,
    pub audio: u32,
}

/// Shape of the hardware-profile document.
#[derive(Debug)]
pub struct HardwareConfig {
    pub camera: CameraConfig,
    pub microphone: MicrophoneConfig,
    pub perception: PerceptionHardwareConfig,
    pub reasoning: ReasoningHardwareConfig,
}

/// Camera device selection and mode.
#[derive(Debug)]
pub struct CameraConfig {
    pub device_id: i32,
    pub resolution: Resolution,
}

/// A capture resolution in pixels.
#[derive(Debug)]
pub struct Resolution {
    pub width: u32,
    pub height: u32,
}

/// Microphone device selection and capture settings.
#[derive(Debug)]
pub struct MicrophoneConfig {
    pub device_id: i32,
    pub sample_rate: u32,
    pub noise_filter: NoiseFilterConfig,
}

/// Noise filtering over the microphone signal.
#[derive(Debug)]
pub struct NoiseFilterConfig {
    pub enabled: bool,
    pub window_size: u32,
}

/// Perception models and their detection thresholds; each threshold is the
/// IEEE 754 bit pattern of a 32-bit floating-point value.
#[derive(Debug)]
pub struct PerceptionHardwareConfig {
    pub model_paths: HashMap<String, String>,
    pub thresholds: HashMap<String, u32>,
}

/// Reasoning-side hardware settings.
#[derive(Debug)]
pub struct ReasoningHardwareConfig {
    pub llm: LlmConfig,
}

/// Language-model location and context size.
#[derive(Debug)]
pub struct LlmConfig {
    pub model_path: String,
    pub context_size: u32,
}

/// Shape of the user-profile document.
#[derive(Debug)]
pub struct ProfileConfig {
    pub user_name: String,
    pub known_faces_db_path: String,
    pub alert_preferences: AlertPreferences,
}

/// Per-user alerting preferences.
#[derive(Debug)]
pub struct AlertPreferences {
    pub dangerous_objects: Vec<String>,
    pub play_sounds: bool,
}

} // verus!
