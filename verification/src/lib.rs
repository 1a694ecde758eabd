//! Layered configuration trees: a recursive value type, a right-folding
//! merge with fixed precedence, dot-separated path lookup, and a typed
//! query surface with explicit status codes.

pub mod boundary;
pub mod lookup;
pub mod merge;
pub mod models;
pub mod value;

pub use boundary::ViaConfig;
pub use boundary::ViaConfigStatus;
pub use boundary::free;
pub use boundary::get_boolean;
pub use boundary::get_float;
pub use boundary::get_integer;
pub use boundary::get_string;
pub use boundary::status_to_string;
pub use merge::merge;
pub use value::ConfigValue;
pub use value::SpecValue;
