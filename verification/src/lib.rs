//! The discrete core of an equatorial Kerr spacetime simulation: the modes and releases an
//! observer can be in and the rules that decide which of them applies at an event, the bounded
//! trail a worldline is recorded on, the order a cold image solve tries its candidates in, the
//! hash a run is fingerprinted with and the invariants a run's state has to satisfy.
pub mod as_seen;
pub mod local_frame;
pub mod observer;
pub mod simulation;
pub mod trail;
