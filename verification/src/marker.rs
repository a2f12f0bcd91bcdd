//! Thread-safety bounds for the seam traits: `Send` and `Sync` on a
//! native host, where scans run on worker threads.
use vstd::prelude::*;

verus! {

/// `Send`, named once so a seam trait can ask for it.
pub trait WasmNotSend: Send {}

impl<T: Send + ?Sized> WasmNotSend for T {}

/// `Sync`, named once so a seam trait can ask for it.
pub trait WasmNotSync: Sync {}

impl<T: Sync + ?Sized> WasmNotSync for T {}

/// A future carrying the same `Send` bound.
pub trait WasmNotSendFuture: core::future::Future + WasmNotSend {}

impl<F: core::future::Future + WasmNotSend + ?Sized> WasmNotSendFuture for F {}

} // verus!
