//! Device, surface and session handling for a GBM-backed DRM output.
//!
//! The library holds the decisions: which EGL entry point yields a display,
//! which outputs are registered and alive, when a buffer swap may be issued,
//! and what has to be replayed on the device after a session resumes. The
//! device requests themselves are returned as plain values for the caller to
//! issue.
pub mod device;
pub mod display;
pub mod session;

pub use device::{
    CursorImage, GbmDevice, GbmError, GbmSurface, PageFlip, SurfaceRestore, SurfaceState,
    SwapBuffersError,
};
pub use display::{DisplayCall, DisplayCapabilities, Gbm, Platform};
pub use session::{CursorCall, GbmDeviceObserver};
