//! A minimal application around a request-filter handler.
//!
//! [`DefaultApp`] wraps one handler and stands for the whole application the
//! proxy engine drives: every lifecycle phase is delegated to the contained
//! handler, nothing is added. The surrounding program owns the phase loop;
//! this type only carries the handler and builds it from configuration.

use vstd::prelude::*;

use crate::configuration::TryFromConf;
use crate::router::BuildError;

verus! {

/// A trivial application: every proxy phase is delegated to the contained
/// handler.
#[derive(Debug, Clone)]
pub struct DefaultApp<H> {
    /// The handler every phase is delegated to.
    pub handler: H,
}

impl<H> DefaultApp<H> {
    /// Creates a new app around a handler instance.
    pub fn new(handler: H) -> (r: Self)
        ensures
            r == (DefaultApp { handler }),
    {
        DefaultApp { handler }
    }

    /// Creates a new app from a handler configuration. Any error from
    /// converting the configuration into the handler is passed on unchanged.
    pub fn from_conf<C>(conf: C) -> (r: Result<Self, BuildError>) where H: TryFromConf<C> {
        match H::try_from_conf(conf) {
            Ok(handler) => Ok(DefaultApp::new(handler)),
            Err(e) => Err(e),
        }
    }
}

} // verus!
