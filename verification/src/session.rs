//! Request-scoped session state.
//!
//! [`SessionData`] models what the dispatch layer reads and writes on one
//! request: the request target (path and query), the host information the
//! request presented, and the two session-attached slots this layer keeps —
//! the original request target saved before a prefix-stripping rewrite, and
//! the fallback copy of the matched route index for phases that run without
//! the dispatch context.

use vstd::prelude::*;

verus! {

/// Colon byte, `:`, joining a host and its port.
pub const COLON: u8 = 58;

/// An optional byte string, as the specification sees it.
pub open spec fn opt_bytes_view(o: Option<Vec<u8>>) -> Option<Seq<u8>> {
    match o {
        Option::None => Option::None,
        Option::Some(v) => Option::Some(v@),
    }
}

/// An optional index, as the specification sees it.
pub open spec fn opt_index_view(o: Option<usize>) -> Option<int> {
    match o {
        Option::None => Option::None,
        Option::Some(i) => Option::Some(i as int),
    }
}

/// A session as the specification sees it.
#[verifier::ext_equal]
pub struct SessionView {
    /// Value of an explicit `Host` header, if the request carried one.
    pub host_header: Option<Seq<u8>>,
    /// Host from the request URI's authority, if the URI carried one.
    pub uri_host: Option<Seq<u8>>,
    /// Port from the request URI's authority, as its decimal digits.
    pub uri_port: Option<Seq<u8>>,
    /// The request target: path plus optional query, byte for byte.
    pub path_and_query: Seq<u8>,
    /// The original request target, saved before a prefix-stripping rewrite.
    pub original_uri: Option<Seq<u8>>,
    /// Session-attached copy of the matched route index.
    pub fallback_index: Option<int>,
}

/// The per-request session state this layer touches.
#[derive(Debug)]
pub struct SessionData {
    /// Value of an explicit `Host` header, if the request carried one.
    pub host_header: Option<Vec<u8>>,
    /// Host from the request URI's authority, if the URI carried one.
    pub uri_host: Option<Vec<u8>>,
    /// Port from the request URI's authority, as its decimal digits.
    pub uri_port: Option<Vec<u8>>,
    /// The request target: path plus optional query, byte for byte.
    pub path_and_query: Vec<u8>,
    /// The original request target, saved before a prefix-stripping rewrite;
    /// kept for diagnostics and logging.
    pub original_uri: Option<Vec<u8>>,
    /// Session-attached copy of the matched route index, readable by phases
    /// that run without the dispatch context.
    pub fallback_index: Option<usize>,
}

impl View for SessionData {
    type V = SessionView;

    open spec fn view(&self) -> SessionView {
        SessionView {
            host_header: opt_bytes_view(self.host_header),
            uri_host: opt_bytes_view(self.uri_host),
            uri_port: opt_bytes_view(self.uri_port),
            path_and_query: self.path_and_query@,
            original_uri: opt_bytes_view(self.original_uri),
            fallback_index: opt_index_view(self.fallback_index),
        }
    }
}

/// The host a session presents: an explicit `Host` header when present wins;
/// otherwise the URI's host, joined with `:` and the port when the URI names
/// one; otherwise nothing.
pub open spec fn session_host(s: SessionView) -> Option<Seq<u8>> {
    match s.host_header {
        Option::Some(h) => Option::Some(h),
        Option::None => match s.uri_host {
            Option::None => Option::None,
            Option::Some(uh) => Option::Some(
                match s.uri_port {
                    Option::Some(p) => uh + seq![COLON] + p,
                    Option::None => uh,
                },
            ),
        },
    }
}

impl SessionData {
    /// A fresh session around a request: no rewrite has happened and no
    /// route index is attached yet.
    pub fn new(
        host_header: Option<Vec<u8>>,
        uri_host: Option<Vec<u8>>,
        uri_port: Option<Vec<u8>>,
        path_and_query: Vec<u8>,
    ) -> (r: SessionData)
        ensures
            r@ == (SessionView {
                host_header: opt_bytes_view(host_header),
                uri_host: opt_bytes_view(uri_host),
                uri_port: opt_bytes_view(uri_port),
                path_and_query: path_and_query@,
                original_uri: Option::None,
                fallback_index: Option::None,
            }),
    {
        SessionData {
            host_header,
            uri_host,
            uri_port,
            path_and_query,
            original_uri: None,
            fallback_index: None,
        }
    }

    /// The request host, per [`session_host`]: the explicit `Host` header if
    /// one is present, else the URI's own authority with its port attached.
    pub fn host(&self) -> (r: Option<Vec<u8>>)
        ensures
            opt_bytes_view(r) == session_host(self@),
    {
        match &self.host_header {
            Some(h) => Some(vstd::slice::slice_to_vec(h.as_slice())),
            None => match &self.uri_host {
                None => None,
                Some(uh) => {
                    let mut v = vstd::slice::slice_to_vec(uh.as_slice());
                    match &self.uri_port {
                        Some(p) => {
                            v.push(COLON);
                            v.extend_from_slice(p.as_slice());
                            proof {
                                assert(v@ =~= uh@ + seq![COLON] + p@);
                            }
                            Some(v)
                        },
                        None => Some(v),
                    }
                },
            },
        }
    }
}

} // verus!
