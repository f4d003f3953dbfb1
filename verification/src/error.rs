//! Errors of the applet.
use vstd::prelude::*;

verus! {

/// `zbus::Error`, carried as is.
#[verifier::external_type_specification]
#[verifier::external_body]
pub struct ExDbusError(zbus::Error);

/// `std::io::Error`, carried as is.
#[verifier::external_type_specification]
#[verifier::external_body]
pub struct ExIoError(std::io::Error);

/// Errors of the applet.
#[derive(Debug)]
pub enum AppError {
    /// D-Bus error
    Dbus(zbus::Error),
    /// MPRIS error
    Mpris(String),
    /// No active media source found
    NoActiveSource,
    /// IO error
    Io(std::io::Error),
    /// Scan error
    Scan(String),
}

impl AppError {
    /// An MPRIS error with message `msg` (converted to a `String`).
    pub fn new<S: Into<String>>(msg: S) -> (e: Self)
        ensures
            e matches AppError::Mpris(m) && call_ensures(S::into, (msg,), m),
    {
        AppError::Mpris(msg.into())
    }
}

} // verus!
