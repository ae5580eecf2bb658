//! Tests of configuration building, option merging and the app wrapper.

use virtual_hosts::configuration::{SubDirConf, TryFromConf, VirtualHostConf, VirtualHostsConf};
use virtual_hosts::handler::VirtualHostsHandler;
use virtual_hosts::router::BuildError;
use virtual_hosts::startup::DefaultApp;
use virtual_hosts::static_files::{CompressionAlgorithm, StaticFilesConf, StaticFilesOpt};

fn bytes(s: &str) -> Vec<u8> {
    s.as_bytes().to_vec()
}

/// A handler whose conversion fails when asked to.
#[derive(Debug)]
struct Flaky {
    tag: u32,
}

impl TryFromConf<Result<u32, String>> for Flaky {
    fn try_from_conf(conf: Result<u32, String>) -> Result<Flaky, BuildError> {
        match conf {
            Ok(tag) => Ok(Flaky { tag }),
            Err(message) => Err(BuildError::Handler { message }),
        }
    }
}

fn vhost(
    aliases: Vec<Vec<u8>>,
    is_default: bool,
    config: Result<u32, String>,
    subdirs: Vec<SubDirConf<Result<u32, String>>>,
) -> VirtualHostConf<Result<u32, String>> {
    VirtualHostConf {
        aliases,
        is_default,
        config,
        subdirs,
    }
}

#[test]
fn build_assigns_indices_in_declaration_order() {
    let conf = VirtualHostsConf {
        vhosts: vec![
            (
                bytes("a"),
                vhost(
                    vec![],
                    false,
                    Ok(0),
                    vec![SubDirConf {
                        path: bytes("/x"),
                        strip_prefix: false,
                        config: Ok(1),
                    }],
                ),
            ),
            (bytes("b"), vhost(vec![], false, Ok(2), vec![])),
        ],
    };
    let handler: VirtualHostsHandler<Flaky> = VirtualHostsHandler::try_from_conf(conf).unwrap();
    assert_eq!(handler.best_match(b"a", b"/"), Some((0, None)));
    assert_eq!(handler.best_match(b"a", b"/x/y"), Some((1, None)));
    assert_eq!(handler.best_match(b"b", b"/anything"), Some((2, None)));
}

#[test]
fn handler_error_is_passed_on() {
    let conf = VirtualHostsConf {
        vhosts: vec![(
            bytes("a"),
            vhost(vec![], false, Err("broken root".to_string()), vec![]),
        )],
    };
    let r: Result<VirtualHostsHandler<Flaky>, BuildError> =
        VirtualHostsHandler::try_from_conf(conf);
    assert!(matches!(r, Err(BuildError::Handler { message }) if message == "broken root"));
}

#[test]
fn subdir_handler_error_is_passed_on() {
    let conf = VirtualHostsConf {
        vhosts: vec![(
            bytes("a"),
            vhost(
                vec![],
                false,
                Ok(0),
                vec![SubDirConf {
                    path: bytes("/x"),
                    strip_prefix: true,
                    config: Err("broken mount".to_string()),
                }],
            ),
        )],
    };
    let r: Result<VirtualHostsHandler<Flaky>, BuildError> =
        VirtualHostsHandler::try_from_conf(conf);
    assert!(matches!(r, Err(BuildError::Handler { message }) if message == "broken mount"));
}

#[test]
fn colliding_mounts_are_refused() {
    let conf = VirtualHostsConf {
        vhosts: vec![(
            bytes("a"),
            vhost(
                vec![],
                false,
                Ok(0),
                vec![
                    SubDirConf {
                        path: bytes("/x/"),
                        strip_prefix: false,
                        config: Ok(1),
                    },
                    SubDirConf {
                        path: bytes("/x"),
                        strip_prefix: true,
                        config: Ok(2),
                    },
                ],
            ),
        )],
    };
    let r: Result<VirtualHostsHandler<Flaky>, BuildError> =
        VirtualHostsHandler::try_from_conf(conf);
    assert!(matches!(r, Err(BuildError::DuplicateRoute { host }) if host == bytes("a")));
}

#[test]
fn first_default_wins() {
    let conf = VirtualHostsConf {
        vhosts: vec![
            (bytes("a"), vhost(vec![], true, Ok(0), vec![])),
            (bytes("b"), vhost(vec![], true, Ok(1), vec![])),
        ],
    };
    let handler: VirtualHostsHandler<Flaky> = VirtualHostsHandler::try_from_conf(conf).unwrap();
    // An unknown host with no alias falls back to the first default, "a".
    assert_eq!(handler.resolve_host(b"unknown"), Some(bytes("a")));
}

#[test]
fn extra_defaults_lists_ignored_hosts() {
    let conf = VirtualHostsConf {
        vhosts: vec![
            (bytes("a"), vhost(vec![], true, Ok(0), vec![])),
            (bytes("b"), vhost(vec![], false, Ok(1), vec![])),
            (bytes("c"), vhost(vec![], true, Ok(2), vec![])),
        ],
    };
    assert_eq!(conf.extra_defaults(), vec![bytes("c")]);
}

#[test]
fn extra_defaults_empty_for_single_default() {
    let conf = VirtualHostsConf {
        vhosts: vec![(bytes("a"), vhost(vec![], true, Ok(0), vec![]))],
    };
    assert!(conf.extra_defaults().is_empty());
}

#[test]
fn default_app_wraps_handler() {
    let app = DefaultApp::new(Flaky { tag: 3 });
    assert_eq!(app.handler.tag, 3);
}

#[test]
fn default_app_from_conf() {
    let app: DefaultApp<Flaky> = DefaultApp::from_conf(Ok(9)).unwrap();
    assert_eq!(app.handler.tag, 9);
    let err: Result<DefaultApp<Flaky>, BuildError> =
        DefaultApp::from_conf(Err("nope".to_string()));
    assert!(matches!(err, Err(BuildError::Handler { message }) if message == "nope"));
}

#[test]
fn merge_with_opt_overwrites_present_options() {
    let mut conf = StaticFilesConf::default();
    conf.redirect_prefix = Some("/files".to_string());
    let opt = StaticFilesOpt {
        root: Some("/srv/www".to_string()),
        canonicalize_uri: Some(false),
        index_file: Some(vec!["start.html".to_string()]),
        page_404: Some("/404.html".to_string()),
        precompressed: Some(vec![
            CompressionAlgorithm::Gzip,
            CompressionAlgorithm::Brotli,
        ]),
    };
    conf.merge_with_opt(opt);
    assert_eq!(conf.root, Some("/srv/www".to_string()));
    assert!(!conf.canonicalize_uri);
    assert_eq!(conf.redirect_prefix, Some("/files".to_string()));
    assert_eq!(conf.index_file, vec!["start.html".to_string()]);
    assert_eq!(conf.page_404, Some("/404.html".to_string()));
    assert_eq!(
        conf.precompressed,
        vec![CompressionAlgorithm::Gzip, CompressionAlgorithm::Brotli]
    );
}

#[test]
fn merge_with_opt_keeps_settings_for_absent_options() {
    let mut conf = StaticFilesConf::default();
    conf.root = Some("/srv/www".to_string());
    conf.page_404 = Some("/404.html".to_string());
    conf.merge_with_opt(StaticFilesOpt::default());
    assert_eq!(conf.root, Some("/srv/www".to_string()));
    assert!(conf.canonicalize_uri);
    assert_eq!(conf.redirect_prefix, None);
    assert_eq!(conf.index_file, vec!["index.html".to_string()]);
    assert_eq!(conf.page_404, Some("/404.html".to_string()));
    assert!(conf.precompressed.is_empty());
}

#[test]
fn static_files_conf_default_values() {
    let conf = StaticFilesConf::default();
    assert_eq!(conf.root, None);
    assert!(conf.canonicalize_uri);
    assert_eq!(conf.redirect_prefix, None);
    assert_eq!(conf.index_file, vec!["index.html".to_string()]);
    assert_eq!(conf.page_404, None);
    assert!(conf.precompressed.is_empty());
}
