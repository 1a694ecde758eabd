//! The query boundary: an owning handle around a merged tree, typed
//! accessors keyed by dot-separated paths, and status codes for every
//! outcome.
//!
//! Every accessor takes optional arguments so that an absent handle or an
//! absent path is answered with a status code instead of being touched.

use vstd::prelude::*;

use crate::lookup::get_value_by_key;
use crate::lookup::path_lookup;
use crate::merge::merge;
use crate::merge::merged3;
use crate::merge::lemma_merged_wf;
use crate::value::ConfigValue;
use crate::value::SpecValue;
use crate::value::wf_value;

verus! {

/// The outcome of a boundary operation.
#[derive(Clone, Copy, Debug, PartialEq, Eq, Structural)]
pub enum ViaConfigStatus {
    Success,
    FileNotFound,
    ParseError,
    KeyNotFound,
    TypeError,
    NullArgument,
    InternalError,
}

/// An owning handle around one merged configuration tree.  The tree is
/// built once, is never mutated afterwards, and is released together with
/// the handle.
pub struct ViaConfig {
    merged_value: ConfigValue,
}

impl View for ViaConfig {
    type V = SpecValue;

    closed spec fn view(&self) -> SpecValue {
        self.merged_value@
    }
}

impl ViaConfig {
    /// Builds a handle from the three parsed source trees, folding
    /// `hardware` into `system` and then `profile` into the result — the
    /// fixed precedence order of the three layers.
    pub fn from_trees(system: ConfigValue, hardware: ConfigValue, profile: ConfigValue) -> (config:
        ViaConfig)
        ensures
            config@ == merged3(system@, hardware@, profile@),
            wf_value(system@) && wf_value(hardware@) && wf_value(profile@) ==> wf_value(config@),
    {
        let ghost sys0 = system@;
        let mut tree = system;
        merge(&mut tree, &hardware);
        merge(&mut tree, &profile);
        proof {
            if wf_value(sys0) && wf_value(hardware@) && wf_value(profile@) {
                lemma_merged_wf(sys0, hardware@);
                lemma_merged_wf(crate::merge::merged(sys0, hardware@), profile@);
            }
        }
        ViaConfig { merged_value: tree }
    }
}

/// Looks a string value up.  On success the returned borrow aliases the
/// tree owned by the handle: it must be copied before the handle is
/// dropped, and Rust's borrow checker enforces exactly that.
pub fn get_string<'a>(
    config: Option<&'a ViaConfig>,
    key: Option<&str>,
    out_value: &mut Option<&'a String>,
) -> (status: ViaConfigStatus)
    ensures
        (status == ViaConfigStatus::NullArgument) <==> (config is None || key is None),
        match (config, key) {
            (Some(c), Some(k)) => match path_lookup(c@, k@) {
                Some(SpecValue::Text(t)) => status == ViaConfigStatus::Success
                    && ((*final(out_value)) matches Some(s) && s@ == t),
                Some(_) => status == ViaConfigStatus::TypeError,
                None => status == ViaConfigStatus::KeyNotFound,
            },
            _ => true,
        },
        status != ViaConfigStatus::Success ==> *final(out_value) == *old(out_value),
{
    let c = match config {
        Some(c) => c,
        None => {
            return ViaConfigStatus::NullArgument;
        },
    };
    let k = match key {
        Some(k) => k,
        None => {
            return ViaConfigStatus::NullArgument;
        },
    };
    match get_value_by_key(&c.merged_value, k) {
        Some(found) => match found {
            ConfigValue::Text(s) => {
                *out_value = Some(s);
                ViaConfigStatus::Success
            },
            _ => ViaConfigStatus::TypeError,
        },
        None => ViaConfigStatus::KeyNotFound,
    }
}

/// Looks a 64-bit signed integer value up.
pub fn get_integer(
    config: Option<&ViaConfig>,
    key: Option<&str>,
    out_value: &mut i64,
) -> (status: ViaConfigStatus)
    ensures
        (status == ViaConfigStatus::NullArgument) <==> (config is None || key is None),
        match (config, key) {
            (Some(c), Some(k)) => match path_lookup(c@, k@) {
                Some(SpecValue::Integer(i)) => status == ViaConfigStatus::Success && *final(out_value)
                    == i,
                Some(_) => status == ViaConfigStatus::TypeError,
                None => status == ViaConfigStatus::KeyNotFound,
            },
            _ => true,
        },
        status != ViaConfigStatus::Success ==> *final(out_value) == *old(out_value),
{
    let c = match config {
        Some(c) => c,
        None => {
            return ViaConfigStatus::NullArgument;
        },
    };
    let k = match key {
        Some(k) => k,
        None => {
            return ViaConfigStatus::NullArgument;
        },
    };
    match get_value_by_key(&c.merged_value, k) {
        Some(found) => match found {
            ConfigValue::Integer(i) => {
                *out_value = *i;
                ViaConfigStatus::Success
            },
            _ => ViaConfigStatus::TypeError,
        },
        None => ViaConfigStatus::KeyNotFound,
    }
}

/// Looks a 64-bit floating-point value up; the output slot receives its
/// IEEE 754 bit pattern, exactly as the tree stores it.
pub fn get_float(
    config: Option<&ViaConfig>,
    key: Option<&str>,
    out_value: &mut u64,
) -> (status: ViaConfigStatus)
    ensures
        (status == ViaConfigStatus::NullArgument) <==> (config is None || key is None),
        match (config, key) {
            (Some(c), Some(k)) => match path_lookup(c@, k@) {
                Some(SpecValue::Float(bits)) => status == ViaConfigStatus::Success && *final(out_value)
                    == bits,
                Some(_) => status == ViaConfigStatus::TypeError,
                None => status == ViaConfigStatus::KeyNotFound,
            },
            _ => true,
        },
        status != ViaConfigStatus::Success ==> *final(out_value) == *old(out_value),
{
    let c = match config {
        Some(c) => c,
        None => {
            return ViaConfigStatus::NullArgument;
        },
    };
    let k = match key {
        Some(k) => k,
        None => {
            return ViaConfigStatus::NullArgument;
        },
    };
    match get_value_by_key(&c.merged_value, k) {
        Some(found) => match found {
            ConfigValue::Float(bits) => {
                *out_value = *bits;
                ViaConfigStatus::Success
            },
            _ => ViaConfigStatus::TypeError,
        },
        None => ViaConfigStatus::KeyNotFound,
    }
}

/// Looks a boolean value up.
pub fn get_boolean(
    config: Option<&ViaConfig>,
    key: Option<&str>,
    out_value: &mut bool,
) -> (status: ViaConfigStatus)
    ensures
        (status == ViaConfigStatus::NullArgument) <==> (config is None || key is None),
        match (config, key) {
            (Some(c), Some(k)) => match path_lookup(c@, k@) {
                Some(SpecValue::Boolean(b)) => status == ViaConfigStatus::Success && *final(out_value)
                    == b,
                Some(_) => status == ViaConfigStatus::TypeError,
                None => status == ViaConfigStatus::KeyNotFound,
            },
            _ => true,
        },
        status != ViaConfigStatus::Success ==> *final(out_value) == *old(out_value),
{
    let c = match config {
        Some(c) => c,
        None => {
            return ViaConfigStatus::NullArgument;
        },
    };
    let k = match key {
        Some(k) => k,
        None => {
            return ViaConfigStatus::NullArgument;
        },
    };
    match get_value_by_key(&c.merged_value, k) {
        Some(found) => match found {
            ConfigValue::Boolean(b) => {
                *out_value = *b;
                ViaConfigStatus::Success
            },
            _ => ViaConfigStatus::TypeError,
        },
        None => ViaConfigStatus::KeyNotFound,
    }
}

/// Releases the handle and the whole tree it owns.  Every borrow obtained
/// from the handle ends before this call; only copies survive it.
pub fn free(config: ViaConfig) {
    let _ = config;
}

/// The fixed human-readable text of each status code.
pub open spec fn status_text(status: ViaConfigStatus) -> Seq<char> {
    match status {
        ViaConfigStatus::Success => "Ok"@,
        ViaConfigStatus::FileNotFound => "Error: File not found"@,
        ViaConfigStatus::ParseError => "Error: Could not parse YAML file"@,
        ViaConfigStatus::KeyNotFound => "Error: The requested key was not found"@,
        ViaConfigStatus::TypeError => "Error: Value has an unexpected type"@,
        ViaConfigStatus::NullArgument => "Error: A null argument was provided"@,
        ViaConfigStatus::InternalError => "Error: An internal error occurred in the Rust library"@,
    }
}

/// Maps a status code to its fixed, never-freed text.
pub fn status_to_string(status: ViaConfigStatus) -> (r: &'static str)
    ensures
        r@ == status_text(status),
{
    match status {
        ViaConfigStatus::Success => "Ok",
        ViaConfigStatus::FileNotFound => "Error: File not found",
        ViaConfigStatus::ParseError => "Error: Could not parse YAML file",
        ViaConfigStatus::KeyNotFound => "Error: The requested key was not found",
        ViaConfigStatus::TypeError => "Error: Value has an unexpected type",
        ViaConfigStatus::NullArgument => "Error: A null argument was provided",
        ViaConfigStatus::InternalError => "Error: An internal error occurred in the Rust library",
    }
}

} // verus!
