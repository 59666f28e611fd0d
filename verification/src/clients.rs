//! Clients that ship with the runtime.
pub mod sampler;
pub mod signals;
pub mod smooth;

pub use sampler::Sampler;
pub use signals::{OneSignal, Signals, SignalsError, Waveform};
pub use smooth::Weight;
