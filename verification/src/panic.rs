//! Captured-panic data: an opaque payload paired with an optional user
//! `detail` that disambiguates which task faulted.

use vstd::prelude::*;

verus! {

/// An opaque, send-capable, type-erased value taken from a faulted worker
/// call. Verified code carries it through without inspecting it; the host
/// runtime that caught the panic may later re-raise it.
#[verifier::external_body]
pub struct PanicPayload {
    payload: Box<dyn core::any::Any + Send + 'static>,
}

impl PanicPayload {
    /// Relies on `Box::new`: wraps a plain message as a type-erased payload.
    #[verifier::external_body]
    pub fn of_message(message: String) -> PanicPayload {
        PanicPayload { payload: Box::new(message) }
    }

    /// Relies on `Box::downcast`: returns the wrapped message when the
    /// payload is a `String` or `&str`, as panic payloads raised from
    /// format-style panics are.
    #[verifier::external_body]
    pub fn message(&self) -> Option<&str> {
        if let Some(s) = self.payload.downcast_ref::<String>() {
            Some(s.as_str())
        } else if let Some(s) = self.payload.downcast_ref::<&str>() {
            Some(s)
        } else {
            None
        }
    }
}

/// Wraps a payload from a caught panic with an optional `detail`.
pub struct Panic<T> {
    payload: PanicPayload,
    detail: Option<T>,
}

impl<T> Panic<T> {
    /// The payload this panic carries.
    pub closed spec fn spec_payload(self) -> PanicPayload {
        self.payload
    }

    /// The optional user detail this panic carries.
    pub closed spec fn spec_detail(self) -> Option<T> {
        self.detail
    }

    /// Builds a `Panic` from a payload already captured by the host runtime
    /// and the detail of the faulted task.
    pub fn new(payload: PanicPayload, detail: Option<T>) -> (r: Panic<T>)
        ensures
            r.spec_payload() == payload,
            r.spec_detail() == detail,
    {
        Panic { payload, detail }
    }

    /// Returns the payload of the panic.
    pub fn payload(&self) -> (r: &PanicPayload)
        ensures
            *r == self.spec_payload(),
    {
        &self.payload
    }

    /// Returns the optional detail of the panic.
    pub fn detail(&self) -> (r: Option<&T>)
        ensures
            match r {
                Some(d) => self.spec_detail() == Some(*d),
                None => self.spec_detail() is None,
            },
    {
        match &self.detail {
            Some(d) => Some(d),
            None => None,
        }
    }
}

} // verus!
