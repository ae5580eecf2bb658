//! The virtual-hosts phase coordinator.
//!
//! [`VirtualHostsHandler`] resolves which virtual host owns a request — by
//! exact host first, then through the alias table, then through the default
//! host — and keeps the resulting route index recoverable across the
//! processing phases:
//!
//! - phase 1 (early filter): [`VirtualHostsHandler::early_request_filter`]
//!   matches host and path, records the route index in the dispatch context
//!   and in the session's fallback slot, and rewrites the request target when
//!   the matched mount strips its prefix;
//! - phases 2, 3 and 5 (filter, upstream selection, logging): resolve the
//!   owning handler from the dispatch context with
//!   [`VirtualHostsHandler::as_inner`]; no handler means "not handled by this
//!   layer", never an error;
//! - phase 4 (response rewrite): [`VirtualHostsHandler::response_handler`]
//!   prefers the dispatch context but can recover the index from the
//!   session's fallback slot when the context is absent.

use vstd::prelude::*;

use crate::router::{
    host_known, is_sep, lookup_spec, RouteEntryView, Router, SLASH,
};
use crate::session::{opt_bytes_view, opt_index_view, session_host, SessionData, SessionView};

verus! {

/// What a delegated request-filter phase reports back.
#[derive(Debug, Clone, Copy, PartialEq, Eq, Structural)]
pub enum RequestFilterResult {
    /// A response was already sent; processing stops here.
    ResponseSent,
    /// The request was handled; later filters are skipped.
    Handled,
    /// Not handled by this layer; an outer layer decides.
    Unhandled,
}

/// A dispatch context as the specification sees it.
#[verifier::ext_equal]
pub struct CtxView<Ctx> {
    /// The matched route index, if phase 1 found one.
    pub index: Option<int>,
    /// The nested context of the selected handler.
    pub handler: Ctx,
}

/// Per-request dispatch context: the matched route index plus whatever
/// nested context the selected handler itself needs.
#[derive(Debug)]
pub struct VirtualHostsCtx<Ctx> {
    index: Option<usize>,
    handler: Ctx,
}

impl<Ctx> View for VirtualHostsCtx<Ctx> {
    type V = CtxView<Ctx>;

    closed spec fn view(&self) -> CtxView<Ctx> {
        CtxView { index: opt_index_view(self.index), handler: self.handler }
    }
}

impl<Ctx> VirtualHostsCtx<Ctx> {
    /// A fresh context: no route matched yet.
    pub fn new(handler: Ctx) -> (r: Self)
        ensures
            r@ == (CtxView::<Ctx> { index: Option::None, handler }),
    {
        VirtualHostsCtx { index: None, handler }
    }

    /// The matched route index, if phase 1 recorded one.
    pub fn index(&self) -> (r: Option<usize>)
        ensures
            opt_index_view(r) == self@.index,
    {
        self.index
    }

    /// The nested handler context.
    pub fn handler(&self) -> (r: &Ctx)
        ensures
            *r == self@.handler,
    {
        &self.handler
    }

    /// The nested handler context, for the phases that mutate it.
    pub fn handler_mut(&mut self) -> (r: &mut Ctx)
        ensures
            *r == old(self)@.handler,
            final(self)@ == (CtxView { index: old(self)@.index, handler: *final(r) }),
    {
        &mut self.handler
    }
}

/// A virtual-hosts handler as the specification sees it.
#[verifier::ext_equal]
pub struct HandlerView<H> {
    /// The routing table's entries.
    pub routes: Seq<RouteEntryView<H>>,
    /// Alias-to-canonical-host pairs, in insertion order; a later pair for
    /// one alias overrides an earlier one.
    pub aliases: Seq<(Seq<u8>, Seq<u8>)>,
    /// The host used when neither host nor alias matches, if one is set.
    pub default_host: Option<Seq<u8>>,
}

/// The canonical host an alias maps to: the latest pair registered for it.
pub open spec fn alias_canonical(aliases: Seq<(Seq<u8>, Seq<u8>)>, host: Seq<u8>) -> Option<
    Seq<u8>,
>
    decreases aliases.len(),
{
    if aliases.len() == 0 {
        Option::None
    } else if aliases.last().0 == host {
        Option::Some(aliases.last().1)
    } else {
        alias_canonical(aliases.drop_last(), host)
    }
}

/// Host resolution precedence: an exact host match wins over an alias, and
/// an alias whose target is known wins over the default host.
pub open spec fn resolve_host_spec<H>(v: HandlerView<H>, host: Seq<u8>) -> Option<Seq<u8>> {
    if host_known(v.routes, host) {
        Option::Some(host)
    } else {
        match alias_canonical(v.aliases, host) {
            Option::Some(c) => if host_known(v.routes, c) {
                Option::Some(c)
            } else {
                v.default_host
            },
            Option::None => v.default_host,
        }
    }
}

/// What phase 1 resolves for a session: the canonical host — from the
/// session's host if it presents one, else the default host — and then the
/// router's lookup under it.
pub open spec fn phase1_lookup<H>(v: HandlerView<H>, s: SessionView) -> Option<
    (int, Option<Seq<u8>>),
> {
    let canon = match session_host(s) {
        Option::Some(h) => resolve_host_spec(v, h),
        Option::None => v.default_host,
    };
    match canon {
        Option::None => Option::None,
        Option::Some(c) => lookup_spec(v.routes, c, s.path_and_query),
    }
}

/// The route index phase 1 records, if any.
pub open spec fn phase1_index<H>(v: HandlerView<H>, s: SessionView) -> Option<int> {
    match phase1_lookup(v, s) {
        Option::None => Option::None,
        Option::Some((idx, _tail)) => Option::Some(idx),
    }
}

/// The forwarded request target after stripping a matched prefix: the rest of
/// the original target, byte for byte, rooted with a leading `/` when the
/// rest does not already begin with one (so an exact match forwards `/`).
pub open spec fn forwarded_path(tail: Seq<u8>) -> Seq<u8> {
    if tail.len() > 0 && is_sep(tail[0]) {
        tail
    } else {
        seq![SLASH] + tail
    }
}

/// The session after phase 1: on a prefix-stripping match the request target
/// is rewritten and the original saved; on any match the fallback slot holds
/// the route index; otherwise the session is untouched.
pub open spec fn phase1_session<H>(v: HandlerView<H>, s: SessionView) -> SessionView {
    match phase1_lookup(v, s) {
        Option::None => s,
        Option::Some((idx, tailopt)) => match tailopt {
            Option::None => SessionView { fallback_index: Option::Some(idx), ..s },
            Option::Some(tail) => SessionView {
                fallback_index: Option::Some(idx),
                path_and_query: forwarded_path(tail),
                original_uri: Option::Some(s.path_and_query),
                ..s
            },
        },
    }
}

/// The handler payload an index selects, if the index is set and in range.
pub open spec fn handler_for<H>(v: HandlerView<H>, idx: Option<int>) -> Option<H> {
    match idx {
        Option::None => Option::None,
        Option::Some(i) => if 0 <= i < v.routes.len() {
            Option::Some(v.routes[i].value)
        } else {
            Option::None
        },
    }
}

/// The index the response phase uses: the dispatch context's when it is
/// present and holds one, else the session's fallback slot.
pub open spec fn response_index<Ctx>(ctx: Option<CtxView<Ctx>>, s: SessionView) -> Option<int> {
    match ctx {
        Option::Some(c) => if c.index is Some {
            c.index
        } else {
            s.fallback_index
        },
        Option::None => s.fallback_index,
    }
}

/// An optional borrowed context, as the specification sees it.
pub open spec fn opt_ctx_view<Ctx>(ctx: Option<&VirtualHostsCtx<Ctx>>) -> Option<CtxView<Ctx>> {
    match ctx {
        Option::None => Option::None,
        Option::Some(c) => Option::Some(c@),
    }
}

/// Handler for the request-dispatch phases of one server: a routing table,
/// an alias table, and an optional default host. Built once, then immutable;
/// lookups never mutate it, so it can be shared read-only across requests.
#[derive(Debug)]
pub struct VirtualHostsHandler<H> {
    pub(crate) handlers: Router<H>,
    pub(crate) aliases: Vec<(Vec<u8>, Vec<u8>)>,
    pub(crate) default_host: Option<Vec<u8>>,
}

/// Alias pairs of a vector, as the specification sees them.
pub open spec fn alias_pairs_view(v: &Vec<(Vec<u8>, Vec<u8>)>) -> Seq<(Seq<u8>, Seq<u8>)> {
    Seq::new(v@.len() as nat, |i: int| (v@[i].0@, v@[i].1@))
}

impl<H> View for VirtualHostsHandler<H> {
    type V = HandlerView<H>;

    closed spec fn view(&self) -> HandlerView<H> {
        HandlerView {
            routes: self.handlers@,
            aliases: alias_pairs_view(&self.aliases),
            default_host: opt_bytes_view(self.default_host),
        }
    }
}

impl<H> VirtualHostsHandler<H> {
    /// The underlying routing table is well-formed.
    pub open spec fn wf(&self) -> bool {
        crate::router::routes_wf(self@.routes) && crate::router::routes_unique(self@.routes)
    }

    /// Puts a built routing table, alias table and default host together.
    pub(crate) fn assemble(
        handlers: Router<H>,
        aliases: Vec<(Vec<u8>, Vec<u8>)>,
        default_host: Option<Vec<u8>>,
    ) -> (r: Self)
        ensures
            r@.routes == handlers@,
            r@.aliases == alias_pairs_view(&aliases),
            r@.default_host == opt_bytes_view(default_host),
    {
        VirtualHostsHandler { handlers, aliases, default_host }
    }

    /// The canonical host an alias maps to, scanning latest-first.
    fn alias_target(&self, host: &[u8]) -> (r: Option<Vec<u8>>)
        ensures
            opt_bytes_view(r) == alias_canonical(self@.aliases, host@),
    {
        let ghost full = self@.aliases;
        let n = self.aliases.len();
        let mut i: usize = n;
        proof {
            assert(full.take(n as int) =~= full);
        }
        while i > 0
            invariant
                i <= n,
                n == self.aliases.len(),
                full == self@.aliases,
                full.len() == n,
                alias_canonical(full, host@) == alias_canonical(full.take(i as int), host@),
            decreases i,
        {
            let ghost i0: int = i as int;
            i -= 1;
            let pair = &self.aliases[i];
            proof {
                assert(full.take(i0).len() == i0);
                assert(full.take(i0).last() == full[i0 - 1]);
                assert(full[i0 - 1] == (pair.0@, pair.1@));
                assert(full.take(i0).drop_last() =~= full.take(i0 - 1));
            }
            if crate::router::eq_bytes(pair.0.as_slice(), host) {
                proof {
                    assert(alias_canonical(full.take(i0), host@) == Option::Some(pair.1@));
                }
                return Some(vstd::slice::slice_to_vec(pair.1.as_slice()));
            }
            proof {
                assert(alias_canonical(full.take(i0), host@) == alias_canonical(
                    full.take(i0 - 1),
                    host@,
                ));
            }
        }
        proof {
            assert(full.take(0) =~= Seq::<(Seq<u8>, Seq<u8>)>::empty());
        }
        None
    }

    /// Resolves a request host to the canonical host to dispatch under:
    /// the host itself when the router knows it, else its alias target when
    /// that is known, else the default host when one is set.
    pub fn resolve_host(&self, host: &[u8]) -> (r: Option<Vec<u8>>)
        ensures
            opt_bytes_view(r) == resolve_host_spec(self@, host@),
    {
        if self.handlers.has_host(host) {
            return Some(vstd::slice::slice_to_vec(host));
        }
        match self.alias_target(host) {
            Some(c) => {
                if self.handlers.has_host(c.as_slice()) {
                    Some(c)
                } else {
                    self.default_host_copy()
                }
            },
            None => self.default_host_copy(),
        }
    }

    /// A copy of the default host, if one is set.
    fn default_host_copy(&self) -> (r: Option<Vec<u8>>)
        ensures
            opt_bytes_view(r) == self@.default_host,
    {
        match &self.default_host {
            Some(d) => Some(vstd::slice::slice_to_vec(d.as_slice())),
            None => None,
        }
    }

    /// The best route for `(host, path)`, as [`Router::lookup`] finds it:
    /// the matched entry's index and, when it strips its prefix, the rest of
    /// the request target.
    pub fn best_match(&self, host: &[u8], path: &[u8]) -> (r: Option<(usize, Option<Vec<u8>>)>)
        ensures
            crate::router::match_result_view(r) == lookup_spec(self@.routes, host@, path@),
    {
        self.handlers.lookup(host, path)
    }

    /// Phase 1, before the request body: resolve the host, look the path up,
    /// and on a match record the route index in the dispatch context and in
    /// the session's fallback slot. When the matched mount strips its prefix,
    /// save the original request target in the session's diagnostic slot and
    /// rewrite the target to the stripped rest. Returns the matched index so
    /// the caller can delegate to that handler's own early hook; no match
    /// leaves session and context untouched.
    pub fn early_request_filter<Ctx>(
        &self,
        session: &mut SessionData,
        ctx: &mut VirtualHostsCtx<Ctx>,
    ) -> (r: Option<usize>)
        ensures
            final(session)@ == phase1_session(self@, old(session)@),
            final(ctx)@ == (match phase1_index(self@, old(session)@) {
                Option::None => old(ctx)@,
                Option::Some(i) => CtxView { index: Option::Some(i), handler: old(ctx)@.handler },
            }),
            opt_index_view(r) == phase1_index(self@, old(session)@),
    {
        let host = session.host();
        let canon: Option<Vec<u8>> = match &host {
            Some(h) => self.resolve_host(h.as_slice()),
            None => self.default_host_copy(),
        };
        match canon {
            None => {
                proof {
                    assert(session@ =~= phase1_session(self@, old(session)@));
                }
                None
            },
            Some(c) => {
                match self.handlers.lookup(c.as_slice(), session.path_and_query.as_slice()) {
                    None => {
                        proof {
                            assert(session@ =~= phase1_session(self@, old(session)@));
                        }
                        None
                    },
                    Some((idx, tailopt)) => {
                        ctx.index = Some(idx);
                        session.fallback_index = Some(idx);
                        match tailopt {
                            None => {
                                proof {
                                    assert(session@ =~= phase1_session(
                                        self@,
                                        old(session)@,
                                    ));
                                }
                            },
                            Some(tail) => {
                                let orig = vstd::slice::slice_to_vec(
                                    session.path_and_query.as_slice(),
                                );
                                session.original_uri = Some(orig);
                                session.path_and_query = forwarded(tail);
                                proof {
                                    assert(session@ =~= phase1_session(
                                        self@,
                                        old(session)@,
                                    ));
                                }
                            },
                        }
                        Some(idx)
                    },
                }
            },
        }
    }

    /// The handler phase 1 selected, resolved purely from the dispatch
    /// context. Phases 2 (filtering), 3 (upstream selection) and 5 (logging)
    /// use this; absence means "not handled by this layer" — pass through
    /// unfiltered, make no upstream decision, log without a handler.
    pub fn as_inner<'a, Ctx>(&'a self, ctx: &VirtualHostsCtx<Ctx>) -> (r: Option<&'a H>)
        ensures
            match r {
                Option::Some(h) => handler_for(self@, ctx@.index) == Option::Some(*h),
                Option::None => handler_for(self@, ctx@.index) is None,
            },
    {
        match ctx.index {
            None => None,
            Some(i) => match self.handlers.retrieve(i) {
                Some(entry) => Some(&entry.value),
                None => None,
            },
        }
    }

    /// Phase 4 resolution: the response-rewrite phase may run with or without
    /// the dispatch context. Prefer the context's index; otherwise recover it
    /// from the session's fallback slot; if neither yields one, rewriting is
    /// skipped.
    pub fn response_handler<'a, Ctx>(
        &'a self,
        session: &SessionData,
        ctx: Option<&VirtualHostsCtx<Ctx>>,
    ) -> (r: Option<&'a H>)
        ensures
            match r {
                Option::Some(h) => handler_for(self@, response_index(opt_ctx_view(ctx), session@))
                    == Option::Some(*h),
                Option::None => handler_for(self@, response_index(opt_ctx_view(ctx), session@))
                    is None,
            },
    {
        let idx: Option<usize> = match ctx {
            Some(c) => match c.index {
                Some(i) => Some(i),
                None => session.fallback_index,
            },
            None => session.fallback_index,
        };
        match idx {
            None => None,
            Some(i) => match self.handlers.retrieve(i) {
                Some(entry) => Some(&entry.value),
                None => None,
            },
        }
    }
}

/// Host precedence (law): a host the router knows resolves to itself.
/// An alias entry under the same name pointing elsewhere, and the default
/// host, can never redirect a known host.
pub proof fn lemma_host_precedence<H>(v: HandlerView<H>, host: Seq<u8>)
    requires
        host_known(v.routes, host),
    ensures
        resolve_host_spec(v, host) == Option::Some(host),
{
}

/// Unrouted requests pass through (law): when no route index was recorded,
/// the phases that resolve a handler from it find none — filtering reports
/// "unhandled", upstream selection "no decision", and logging runs without a
/// handler; none of them raises an error.
pub proof fn lemma_unrouted_no_handler<H>(v: HandlerView<H>, idx: Option<int>)
    requires
        idx is None,
    ensures
        handler_for(v, idx) is None,
{
}

/// Fallback recovery (law): for a session that matched in phase 1, the
/// response phase resolves the matched route even without the dispatch
/// context, through the session's fallback record.
pub proof fn lemma_response_fallback<H, Ctx>(
    v: HandlerView<H>,
    s: SessionView,
    idx: int,
    tailopt: Option<Seq<u8>>,
)
    requires
        phase1_lookup(v, s) == Option::Some((idx, tailopt)),
    ensures
        response_index::<Ctx>(Option::None, phase1_session(v, s)) == Option::Some(idx),
        handler_for(v, Option::Some(idx)) == Option::Some(v.routes[idx].value),
{
    let canon = match session_host(s) {
        Option::Some(h) => resolve_host_spec(v, h),
        Option::None => v.default_host,
    };
    let c = canon->0;
    crate::router::lemma_lookup_spec(v.routes, c, s.path_and_query);
}

/// Exact-mount strip (law): a request whose target is exactly a stripping
/// mount — nothing remains after the matched prefix — is forwarded as the
/// root path `/`, and the exact original target is stored in the diagnostic
/// slot.
pub proof fn lemma_strip_exact<H>(v: HandlerView<H>, s: SessionView, idx: int, tail: Seq<u8>)
    requires
        phase1_lookup(v, s) == Option::Some((idx, Option::Some(tail))),
        tail.len() == 0,
    ensures
        phase1_session(v, s).path_and_query == seq![SLASH],
        phase1_session(v, s).original_uri == Option::Some(s.path_and_query),
{
    assert(forwarded_path(tail) =~= seq![SLASH]);
}

/// Suffix strip (law): on a prefix-stripping match the forwarded target is
/// the rest of the original request target — a byte-level suffix with the
/// query string preserved verbatim and no normalization — and the diagnostic
/// slot holds the full original, byte for byte.
pub proof fn lemma_strip_suffix<H>(v: HandlerView<H>, s: SessionView, idx: int, tail: Seq<u8>)
    requires
        phase1_lookup(v, s) == Option::Some((idx, Option::Some(tail))),
    ensures
        tail.len() > 0 && is_sep(tail[0]) ==> phase1_session(v, s).path_and_query == tail,
        phase1_session(v, s).original_uri == Option::Some(s.path_and_query),
        exists|e: int|
            0 <= e <= s.path_and_query.len() && tail == s.path_and_query.subrange(
                e,
                s.path_and_query.len() as int,
            ),
{
    let r = s.path_and_query;
    let canon = match session_host(s) {
        Option::Some(h) => resolve_host_spec(v, h),
        Option::None => v.default_host,
    };
    let c = canon->0;
    crate::router::lemma_lookup_spec(v.routes, c, r);
    let e = crate::router::path_match(r, v.routes[idx].segments)->0;
    crate::router::lemma_next_term(r, 0);
    crate::router::lemma_match_from_bounds(
        r,
        crate::router::term_len(r),
        v.routes[idx].segments,
        0,
    );
    assert(0 <= e <= r.len() && tail == r.subrange(e, r.len() as int));
}

/// Untouched path (law): a match on a mount that does not strip its prefix
/// leaves the request target untouched and stores nothing in the diagnostic
/// slot; only the route index is recorded.
pub proof fn lemma_no_strip<H>(v: HandlerView<H>, s: SessionView, idx: int)
    requires
        phase1_lookup(v, s) == Option::Some((idx, Option::<Seq<u8>>::None)),
    ensures
        phase1_session(v, s).path_and_query == s.path_and_query,
        phase1_session(v, s).original_uri == s.original_uri,
        phase1_session(v, s).fallback_index == Option::Some(idx),
{
}

/// The forwarded request target after a prefix strip, per [`forwarded_path`].
pub fn forwarded(tail: Vec<u8>) -> (r: Vec<u8>)
    ensures
        r@ == forwarded_path(tail@),
{
    if tail.len() > 0 && tail[0] == SLASH {
        tail
    } else {
        let mut v: Vec<u8> = Vec::new();
        v.push(SLASH);
        v.extend_from_slice(tail.as_slice());
        proof {
            assert(v@ =~= seq![SLASH] + tail@);
        }
        v
    }
}

} // verus!
