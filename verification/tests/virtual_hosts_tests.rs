//! End-to-end tests of the virtual-hosts phase coordinator.

use virtual_hosts::configuration::{SubDirConf, TryFromConf, VirtualHostConf, VirtualHostsConf};
use virtual_hosts::handler::{RequestFilterResult, VirtualHostsCtx, VirtualHostsHandler};
use virtual_hosts::router::BuildError;
use virtual_hosts::session::SessionData;

#[derive(Debug)]
struct Conf {
    result: RequestFilterResult,
}

#[derive(Debug)]
struct Handler {
    result: RequestFilterResult,
}

impl TryFromConf<Conf> for Handler {
    fn try_from_conf(conf: Conf) -> Result<Handler, BuildError> {
        Ok(Handler { result: conf.result })
    }
}

fn bytes(s: &str) -> Vec<u8> {
    s.as_bytes().to_vec()
}

fn conf(result: RequestFilterResult) -> Conf {
    Conf { result }
}

fn handler(add_default: bool) -> (VirtualHostsHandler<Handler>, VirtualHostsCtx<()>) {
    let conf = VirtualHostsConf {
        vhosts: vec![
            (
                bytes("localhost:8080"),
                VirtualHostConf {
                    aliases: vec![bytes("127.0.0.1:8080"), bytes("[::1]:8080")],
                    is_default: add_default,
                    config: conf(RequestFilterResult::ResponseSent),
                    subdirs: vec![
                        SubDirConf {
                            path: bytes("/subdir/"),
                            strip_prefix: true,
                            config: conf(RequestFilterResult::Unhandled),
                        },
                        SubDirConf {
                            path: bytes("/subdir/subsub"),
                            strip_prefix: false,
                            config: conf(RequestFilterResult::Handled),
                        },
                    ],
                },
            ),
            (
                bytes("example.com"),
                VirtualHostConf {
                    aliases: vec![bytes("example.com:8080")],
                    is_default: false,
                    config: conf(RequestFilterResult::Handled),
                    subdirs: vec![],
                },
            ),
        ],
    };
    (
        VirtualHostsHandler::try_from_conf(conf).unwrap(),
        VirtualHostsCtx::new(()),
    )
}

fn make_session(uri: &str, host: Option<&str>) -> SessionData {
    let parsed: http::Uri = uri.parse().unwrap();
    let path_and_query = parsed
        .path_and_query()
        .map(|pq| pq.as_str())
        .unwrap_or("/");
    SessionData::new(
        host.map(|h| h.as_bytes().to_vec()),
        parsed.host().map(|h| h.as_bytes().to_vec()),
        parsed.port().map(|p| p.as_str().as_bytes().to_vec()),
        path_and_query.as_bytes().to_vec(),
    )
}

/// Phases 1 and 2: early filter, then the request filter's resolution; the
/// test handlers have no early hook of their own.
fn run_request_filter(
    h: &VirtualHostsHandler<Handler>,
    session: &mut SessionData,
    ctx: &mut VirtualHostsCtx<()>,
) -> RequestFilterResult {
    h.early_request_filter(session, ctx);
    match h.as_inner(ctx) {
        Some(inner) => inner.result,
        None => RequestFilterResult::Unhandled,
    }
}

#[test]
fn host_match() {
    let (handler, mut ctx) = handler(true);
    let mut session = make_session("/", Some("example.com"));
    assert_eq!(
        run_request_filter(&handler, &mut session, &mut ctx),
        RequestFilterResult::Handled
    );
}

#[test]
fn host_alias_match() {
    let (handler, mut ctx) = handler(false);
    let mut session = make_session("/", Some("[::1]:8080"));
    assert_eq!(
        run_request_filter(&handler, &mut session, &mut ctx),
        RequestFilterResult::ResponseSent
    );
}

#[test]
fn uri_match() {
    let (handler, mut ctx) = handler(false);
    let mut session = make_session("https://example.com/", None);
    assert_eq!(
        run_request_filter(&handler, &mut session, &mut ctx),
        RequestFilterResult::Handled
    );
}

#[test]
fn uri_alias_match() {
    let (handler, mut ctx) = handler(false);
    let mut session = make_session("http://[::1]:8080/", None);
    assert_eq!(
        run_request_filter(&handler, &mut session, &mut ctx),
        RequestFilterResult::ResponseSent
    );
}

#[test]
fn host_precedence() {
    let (handler, mut ctx) = handler(false);
    let mut session = make_session("https://localhost:8080/", Some("example.com"));
    assert_eq!(
        run_request_filter(&handler, &mut session, &mut ctx),
        RequestFilterResult::Handled
    );
}

#[test]
fn default_fallback() {
    let (handler, mut ctx) = handler(true);
    let mut session = make_session("/", Some("example.net"));
    assert_eq!(
        run_request_filter(&handler, &mut session, &mut ctx),
        RequestFilterResult::ResponseSent
    );
}

#[test]
fn no_default_fallback() {
    let (handler, mut ctx) = handler(false);
    let mut session = make_session("/", Some("example.net"));
    assert_eq!(
        run_request_filter(&handler, &mut session, &mut ctx),
        RequestFilterResult::Unhandled
    );
}

#[test]
fn subdir_match() {
    let (handler, mut ctx) = handler(true);
    let mut session = make_session("/subdir/", Some("localhost:8080"));
    assert_eq!(
        run_request_filter(&handler, &mut session, &mut ctx),
        RequestFilterResult::Unhandled
    );
    assert_eq!(session.path_and_query, bytes("/"));
    assert_eq!(session.original_uri, Some(bytes("/subdir/")));
}

#[test]
fn subdir_match_without_slash() {
    let (handler, mut ctx) = handler(true);
    let mut session = make_session("/subdir", Some("localhost:8080"));
    assert_eq!(
        run_request_filter(&handler, &mut session, &mut ctx),
        RequestFilterResult::Unhandled
    );
    assert_eq!(session.path_and_query, bytes("/"));
    assert_eq!(session.original_uri, Some(bytes("/subdir")));
}

#[test]
fn subdir_match_with_suffix() {
    let (handler, mut ctx) = handler(true);
    let mut session = make_session("/subdir/xyz?abc", Some("localhost:8080"));
    assert_eq!(
        run_request_filter(&handler, &mut session, &mut ctx),
        RequestFilterResult::Unhandled
    );
    assert_eq!(session.path_and_query, bytes("/xyz?abc"));
    assert_eq!(session.original_uri, Some(bytes("/subdir/xyz?abc")));
}

#[test]
fn subdir_match_extra_slashes() {
    let (handler, mut ctx) = handler(true);
    let mut session = make_session("//subdir///xyz//", Some("localhost:8080"));
    assert_eq!(
        run_request_filter(&handler, &mut session, &mut ctx),
        RequestFilterResult::Unhandled
    );
    assert_eq!(session.path_and_query, bytes("///xyz//"));
    assert_eq!(session.original_uri, Some(bytes("//subdir///xyz//")));
}

#[test]
fn subdir_no_match() {
    let (handler, mut ctx) = handler(true);
    let mut session = make_session("/subdir_xyz", Some("localhost:8080"));
    assert_eq!(
        run_request_filter(&handler, &mut session, &mut ctx),
        RequestFilterResult::ResponseSent
    );
    assert_eq!(session.path_and_query, bytes("/subdir_xyz"));
    assert_eq!(session.original_uri, None);
}

#[test]
fn subdir_longer_match() {
    let (handler, mut ctx) = handler(true);
    let mut session = make_session("/subdir/subsub/xyz", Some("localhost:8080"));
    assert_eq!(
        run_request_filter(&handler, &mut session, &mut ctx),
        RequestFilterResult::Handled
    );
    assert_eq!(session.path_and_query, bytes("/subdir/subsub/xyz"));
    assert_eq!(session.original_uri, None);
}

#[test]
fn response_fallback_without_ctx() {
    let (handler, mut ctx) = handler(true);
    let mut session = make_session("/subdir/xyz", Some("localhost:8080"));
    handler.early_request_filter(&mut session, &mut ctx);
    // No dispatch context: the fallback record attached to the session still
    // locates the handler that matched in phase 1.
    let resolved = handler.response_handler::<()>(&session, None);
    assert!(matches!(resolved, Some(h) if h.result == RequestFilterResult::Unhandled));
}

#[test]
fn response_prefers_ctx_over_fallback() {
    let (handler, mut ctx) = handler(true);
    let mut session = make_session("/subdir/xyz", Some("localhost:8080"));
    handler.early_request_filter(&mut session, &mut ctx);
    let resolved = handler.response_handler(&session, Some(&ctx));
    assert!(matches!(resolved, Some(h) if h.result == RequestFilterResult::Unhandled));
}

#[test]
fn unrouted_response_skips_rewriting() {
    let (handler, mut ctx) = handler(false);
    let mut session = make_session("/", Some("example.net"));
    handler.early_request_filter(&mut session, &mut ctx);
    assert!(handler.response_handler(&session, Some(&ctx)).is_none());
    assert!(handler.response_handler::<()>(&session, None).is_none());
}

#[test]
fn strip_with_query_only() {
    let (handler, mut ctx) = handler(true);
    let mut session = make_session("/subdir?q=1", Some("localhost:8080"));
    assert_eq!(
        run_request_filter(&handler, &mut session, &mut ctx),
        RequestFilterResult::Unhandled
    );
    assert_eq!(session.path_and_query, bytes("/?q=1"));
    assert_eq!(session.original_uri, Some(bytes("/subdir?q=1")));
}

fn api_handler() -> (VirtualHostsHandler<Handler>, VirtualHostsCtx<()>) {
    let conf = VirtualHostsConf {
        vhosts: vec![(
            bytes("localhost:8080"),
            VirtualHostConf {
                aliases: vec![bytes("127.0.0.1:8080")],
                is_default: true,
                config: conf(RequestFilterResult::ResponseSent),
                subdirs: vec![
                    SubDirConf {
                        path: bytes("/api/"),
                        strip_prefix: true,
                        config: conf(RequestFilterResult::Unhandled),
                    },
                    SubDirConf {
                        path: bytes("/api/health"),
                        strip_prefix: false,
                        config: conf(RequestFilterResult::Handled),
                    },
                ],
            },
        )],
    };
    (
        VirtualHostsHandler::try_from_conf(conf).unwrap(),
        VirtualHostsCtx::new(()),
    )
}

#[test]
fn api_health_longer_unstripped_match() {
    let (handler, mut ctx) = api_handler();
    let mut session = make_session("/api/health", Some("127.0.0.1:8080"));
    assert_eq!(
        run_request_filter(&handler, &mut session, &mut ctx),
        RequestFilterResult::Handled
    );
    assert_eq!(session.path_and_query, bytes("/api/health"));
    assert_eq!(session.original_uri, None);
}

#[test]
fn api_strip_forwards_suffix_with_query() {
    let (handler, mut ctx) = api_handler();
    let mut session = make_session("/api/widgets/42?x=1", Some("127.0.0.1:8080"));
    assert_eq!(
        run_request_filter(&handler, &mut session, &mut ctx),
        RequestFilterResult::Unhandled
    );
    assert_eq!(session.path_and_query, bytes("/widgets/42?x=1"));
    assert_eq!(session.original_uri, Some(bytes("/api/widgets/42?x=1")));
}

#[test]
fn unconfigured_host_uses_default_root() {
    let (handler, mut ctx) = api_handler();
    let mut session = make_session("/", Some("other.example"));
    assert_eq!(
        run_request_filter(&handler, &mut session, &mut ctx),
        RequestFilterResult::ResponseSent
    );
    assert_eq!(session.path_and_query, bytes("/"));
    assert_eq!(session.original_uri, None);
}

#[test]
fn resolve_host_prefers_real_host_over_alias() {
    // "b" is an alias of "a" and also a real host of its own: the real host
    // wins, the alias is never consulted.
    let conf = VirtualHostsConf {
        vhosts: vec![
            (
                bytes("a"),
                VirtualHostConf {
                    aliases: vec![bytes("b")],
                    is_default: false,
                    config: conf(RequestFilterResult::Unhandled),
                    subdirs: vec![],
                },
            ),
            (
                bytes("b"),
                VirtualHostConf {
                    aliases: vec![],
                    is_default: false,
                    config: conf(RequestFilterResult::Handled),
                    subdirs: vec![],
                },
            ),
        ],
    };
    let handler: VirtualHostsHandler<Handler> =
        VirtualHostsHandler::try_from_conf(conf).unwrap();
    assert_eq!(handler.resolve_host(b"b"), Some(bytes("b")));
    let mut ctx = VirtualHostsCtx::new(());
    let mut session = make_session("/", Some("b"));
    assert_eq!(
        run_request_filter(&handler, &mut session, &mut ctx),
        RequestFilterResult::Handled
    );
}

#[test]
fn later_alias_registration_wins() {
    let conf = VirtualHostsConf {
        vhosts: vec![
            (
                bytes("a"),
                VirtualHostConf {
                    aliases: vec![bytes("shared")],
                    is_default: false,
                    config: conf(RequestFilterResult::Unhandled),
                    subdirs: vec![],
                },
            ),
            (
                bytes("b"),
                VirtualHostConf {
                    aliases: vec![bytes("shared")],
                    is_default: false,
                    config: conf(RequestFilterResult::Handled),
                    subdirs: vec![],
                },
            ),
        ],
    };
    let handler: VirtualHostsHandler<Handler> =
        VirtualHostsHandler::try_from_conf(conf).unwrap();
    assert_eq!(handler.resolve_host(b"shared"), Some(bytes("b")));
}

#[test]
fn empty_configuration_routes_nothing() {
    let conf: VirtualHostsConf<Conf> = VirtualHostsConf { vhosts: vec![] };
    let handler: VirtualHostsHandler<Handler> =
        VirtualHostsHandler::try_from_conf(conf).unwrap();
    let mut ctx = VirtualHostsCtx::new(());
    let mut session = make_session("/", Some("example.com"));
    assert_eq!(
        run_request_filter(&handler, &mut session, &mut ctx),
        RequestFilterResult::Unhandled
    );
    assert_eq!(session.path_and_query, bytes("/"));
}

#[test]
fn early_filter_reports_matched_index() {
    // Indices follow declaration order: localhost root 0, /subdir/ 1,
    // /subdir/subsub 2, example.com root 3.
    let (handler, mut ctx) = handler(true);
    let mut session = make_session("/subdir/x", Some("localhost:8080"));
    let idx = handler.early_request_filter(&mut session, &mut ctx);
    assert_eq!(idx, Some(1));
    assert_eq!(ctx.index(), Some(1));
    assert_eq!(session.fallback_index, Some(1));
}

#[test]
fn ctx_accessors() {
    let mut ctx: VirtualHostsCtx<u32> = VirtualHostsCtx::new(5);
    assert_eq!(ctx.index(), None);
    assert_eq!(*ctx.handler(), 5);
    *ctx.handler_mut() = 6;
    assert_eq!(*ctx.handler(), 6);
}

#[test]
fn session_host_header_wins() {
    let session = make_session("https://example.com:444/", Some("other.example"));
    assert_eq!(session.host(), Some(bytes("other.example")));
}

#[test]
fn session_host_from_uri_with_port() {
    let session = make_session("https://example.com:444/x", None);
    assert_eq!(session.host(), Some(bytes("example.com:444")));
}

#[test]
fn session_without_host() {
    let session = make_session("/x", None);
    assert_eq!(session.host(), None);
}
