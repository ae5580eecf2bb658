//! Build-time configuration of the virtual-hosts handler.
//!
//! A [`VirtualHostsConf`] lists, per virtual host: its canonical name, its
//! aliases, whether it is the default host, its own handler configuration,
//! and its sub-path mounts. [`VirtualHostsHandler::from_conf`] turns one into
//! a live handler: every host gets a root route, every sub-mount a route of
//! its own, indices assigned in declaration order; aliases go to the alias
//! table; the first host marked default becomes the default host, later ones
//! are ignored (a caller may report them with
//! [`VirtualHostsConf::extra_defaults`]). Construction fails exactly when two
//! routes of one host collide on one normalized mount path.

use vstd::prelude::*;

use crate::handler::{alias_pairs_view, VirtualHostsHandler};
use crate::router::{
    routes_unique, split_segments, BuildError, RouteEntryView, RouterBuilder,
};
use crate::session::opt_bytes_view;

verus! {

/// A sub-path mount as the specification sees it.
#[verifier::ext_equal]
pub struct SubDirView<C> {
    /// Mount path under the host.
    pub path: Seq<u8>,
    /// Whether the matched prefix is stripped from the forwarded path.
    pub strip_prefix: bool,
    /// Handler configuration for this mount.
    pub config: C,
}

/// One virtual host as the specification sees it.
#[verifier::ext_equal]
pub struct VirtualHostView<C> {
    /// Alternate host identifiers resolving to this host.
    pub aliases: Seq<Seq<u8>>,
    /// Whether this host asks to be the default host.
    pub is_default: bool,
    /// Handler configuration for the host's root.
    pub config: C,
    /// Sub-path mounts of the host.
    pub subdirs: Seq<SubDirView<C>>,
}

/// A sub-path mount: a path under a host routed to its own handler, with the
/// prefix optionally stripped before forwarding.
#[derive(Debug)]
pub struct SubDirConf<C> {
    /// Mount path under the host.
    pub path: Vec<u8>,
    /// Whether the matched prefix is stripped from the forwarded path.
    pub strip_prefix: bool,
    /// Handler configuration for this mount.
    pub config: C,
}

impl<C> View for SubDirConf<C> {
    type V = SubDirView<C>;

    open spec fn view(&self) -> SubDirView<C> {
        SubDirView { path: self.path@, strip_prefix: self.strip_prefix, config: self.config }
    }
}

/// Configuration of one virtual host.
#[derive(Debug)]
pub struct VirtualHostConf<C> {
    /// Alternate host identifiers resolving to this host.
    pub aliases: Vec<Vec<u8>>,
    /// Whether this host asks to be the default host.
    pub is_default: bool,
    /// Handler configuration for the host's root.
    pub config: C,
    /// Sub-path mounts of the host.
    pub subdirs: Vec<SubDirConf<C>>,
}

/// One host's configuration, as the specification sees it.
pub open spec fn vhost_view<C>(h: &VirtualHostConf<C>) -> VirtualHostView<C> {
    VirtualHostView {
        aliases: h.aliases.deep_view(),
        is_default: h.is_default,
        config: h.config,
        subdirs: Seq::new(h.subdirs@.len() as nat, |i: int| h.subdirs@[i]@),
    }
}

impl<C> View for VirtualHostConf<C> {
    type V = VirtualHostView<C>;

    open spec fn view(&self) -> VirtualHostView<C> {
        vhost_view(self)
    }
}

/// The whole virtual-hosts configuration: hosts in declaration order.
#[derive(Debug)]
pub struct VirtualHostsConf<C> {
    /// Per host: its canonical name and its configuration.
    pub vhosts: Vec<(Vec<u8>, VirtualHostConf<C>)>,
}

/// A host list as the specification sees it.
pub open spec fn vhosts_view<C>(v: &Vec<(Vec<u8>, VirtualHostConf<C>)>) -> Seq<
    (Seq<u8>, VirtualHostView<C>),
> {
    Seq::new(v@.len() as nat, |i: int| (v@[i].0@, v@[i].1@))
}

impl<C> View for VirtualHostsConf<C> {
    type V = Seq<(Seq<u8>, VirtualHostView<C>)>;

    open spec fn view(&self) -> Seq<(Seq<u8>, VirtualHostView<C>)> {
        vhosts_view(&self.vhosts)
    }
}

/// Builds a handler out of its configuration. Implemented by each handler
/// kind the dispatch layer can delegate to; an error aborts startup.
pub trait TryFromConf<C>: Sized {
    /// Builds the handler, or reports why its configuration is unusable.
    fn try_from_conf(conf: C) -> Result<Self, BuildError>;
}

/// The route entries one host contributes: a root route for the host itself,
/// never stripping, then one route per sub-mount in declaration order.
pub open spec fn host_routes<C>(host: Seq<u8>, hc: VirtualHostView<C>) -> Seq<RouteEntryView<C>> {
    seq![
        RouteEntryView {
            host,
            segments: Seq::empty(),
            strip_prefix: false,
            value: hc.config,
        },
    ] + hc.subdirs.map(
        |i: int, sd: SubDirView<C>|
            RouteEntryView {
                host,
                segments: split_segments(sd.path),
                strip_prefix: sd.strip_prefix,
                value: sd.config,
            },
    )
}

/// All route entries a configuration contributes, host by host, in order.
pub open spec fn conf_routes<C>(vhosts: Seq<(Seq<u8>, VirtualHostView<C>)>) -> Seq<
    RouteEntryView<C>,
>
    decreases vhosts.len(),
{
    if vhosts.len() == 0 {
        Seq::empty()
    } else {
        conf_routes(vhosts.drop_last()) + host_routes(vhosts.last().0, vhosts.last().1)
    }
}

/// The alias pairs one host contributes.
pub open spec fn host_aliases<C>(host: Seq<u8>, hc: VirtualHostView<C>) -> Seq<
    (Seq<u8>, Seq<u8>),
> {
    hc.aliases.map(|i: int, a: Seq<u8>| (a, host))
}

/// All alias pairs a configuration contributes, in declaration order.
pub open spec fn conf_aliases<C>(vhosts: Seq<(Seq<u8>, VirtualHostView<C>)>) -> Seq<
    (Seq<u8>, Seq<u8>),
>
    decreases vhosts.len(),
{
    if vhosts.len() == 0 {
        Seq::empty()
    } else {
        conf_aliases(vhosts.drop_last()) + host_aliases(vhosts.last().0, vhosts.last().1)
    }
}

/// The first host marked default, if any: a later host marked default too is
/// ignored.
pub open spec fn first_default<C>(vhosts: Seq<(Seq<u8>, VirtualHostView<C>)>) -> Option<Seq<u8>>
    decreases vhosts.len(),
{
    if vhosts.len() == 0 {
        Option::None
    } else {
        match first_default(vhosts.drop_last()) {
            Option::Some(d) => Option::Some(d),
            Option::None => if vhosts.last().1.is_default {
                Option::Some(vhosts.last().0)
            } else {
                Option::None
            },
        }
    }
}

/// The hosts marked default beyond the first one — those whose default flag
/// the build ignores; `seen` says whether a default was already found.
pub open spec fn extra_defaults_from<C>(
    vhosts: Seq<(Seq<u8>, VirtualHostView<C>)>,
    seen: bool,
) -> Seq<Seq<u8>>
    decreases vhosts.len(),
{
    if vhosts.len() == 0 {
        Seq::empty()
    } else if vhosts.first().1.is_default {
        if seen {
            seq![vhosts.first().0] + extra_defaults_from(vhosts.drop_first(), true)
        } else {
            extra_defaults_from(vhosts.drop_first(), true)
        }
    } else {
        extra_defaults_from(vhosts.drop_first(), seen)
    }
}

impl<C> VirtualHostsConf<C> {
    /// The hosts marked default that the build will ignore because an
    /// earlier host is already the default: worth a diagnostic to the
    /// operator, but never an error.
    pub fn extra_defaults(&self) -> (r: Vec<Vec<u8>>)
        ensures
            r.deep_view() == extra_defaults_from(self@, false),
    {
        let ghost full = self@;
        let mut r: Vec<Vec<u8>> = Vec::new();
        let mut seen = false;
        let mut k: usize = 0;
        let n = self.vhosts.len();
        proof {
            assert(full.skip(0) =~= full);
            assert(r.deep_view() =~= Seq::<Seq<u8>>::empty());
        }
        while k < n
            invariant
                k <= n,
                n == self.vhosts.len(),
                full == self@,
                full.len() == n,
                extra_defaults_from(full, false) == r.deep_view() + extra_defaults_from(
                    full.skip(k as int),
                    seen,
                ),
            decreases n - k,
        {
            let ghost prev = r.deep_view();
            proof {
                assert(full.skip(k as int).first() == full[k as int]);
                assert(full.skip(k as int).drop_first() =~= full.skip(k as int + 1));
            }
            if self.vhosts[k].1.is_default {
                if seen {
                    r.push(vstd::slice::slice_to_vec(self.vhosts[k].0.as_slice()));
                    proof {
                        assert(r.deep_view() =~~= prev + seq![full[k as int].0]);
                    }
                } else {
                    seen = true;
                }
            }
            k += 1;
        }
        proof {
            assert(full.skip(n as int) =~= Seq::<(Seq<u8>, VirtualHostView<C>)>::empty());
            assert(r.deep_view() =~= r.deep_view() + extra_defaults_from(
                full.skip(n as int),
                seen,
            ));
        }
        r
    }

    /// Converts every handler configuration in place, preserving the whole
    /// structure — hosts, aliases, default flags, mount paths and strip
    /// flags — and failing with the first conversion error.
    pub fn convert<H: TryFromConf<C>>(self) -> (r: Result<VirtualHostsConf<H>, BuildError>)
        ensures
            r matches Ok(c) ==> conf_shapes(c@) == conf_shapes(self@),
    {
        let ghost full = self@;
        let mut vhosts = self.vhosts;
        let mut out: Vec<(Vec<u8>, VirtualHostConf<H>)> = Vec::new();
        proof {
            assert(vhosts_view(&vhosts) =~= full.skip(0));
            assert(conf_shapes(vhosts_view(&out)) =~= conf_shapes(full.take(0)));
        }
        while vhosts.len() > 0
            invariant
                full.len() == out@.len() + vhosts@.len(),
                vhosts_view(&vhosts) == full.skip(out@.len() as int),
                conf_shapes(vhosts_view(&out)) == conf_shapes(full.take(out@.len() as int)),
            decreases vhosts.len(),
        {
            let ghost k: int = out@.len() as int;
            let ghost prevv = vhosts@;
            let ghost prev_view = vhosts_view(&vhosts);
            let (host, hc) = vhosts.remove(0);
            proof {
                assert(prev_view == full.skip(k));
                assert(prev_view[0] == (prevv[0].0@, prevv[0].1@));
                assert((host@, hc@) == full[k]);
                assert forall|j: int| 0 <= j < vhosts@.len() implies vhosts_view(&vhosts)[j]
                    == full.skip(k + 1)[j] by {
                    assert(vhosts@[j] == prevv[j + 1]);
                    assert(prev_view[j + 1] == (prevv[j + 1].0@, prevv[j + 1].1@));
                }
                assert(vhosts_view(&vhosts) =~= full.skip(k + 1));
            }
            let ghost hcv = hc@;
            let VirtualHostConf { aliases, is_default, config, subdirs } = hc;
            let config: H = match H::try_from_conf(config) {
                Ok(h) => h,
                Err(e) => {
                    return Err(e);
                },
            };
            let mut subs = subdirs;
            let mut new_subs: Vec<SubDirConf<H>> = Vec::new();
            let ghost subsv = hcv.subdirs;
            proof {
                assert(subdirs_view(&subs) =~= subsv.skip(0));
                assert(subdir_shapes(subdirs_view(&new_subs)) =~= subdir_shapes(subsv.take(0)));
            }
            while subs.len() > 0
                invariant
                    subsv.len() == new_subs@.len() + subs@.len(),
                    subdirs_view(&subs) == subsv.skip(new_subs@.len() as int),
                    subdir_shapes(subdirs_view(&new_subs)) == subdir_shapes(
                        subsv.take(new_subs@.len() as int),
                    ),
                decreases subs.len(),
            {
                let ghost m: int = new_subs@.len() as int;
                let ghost prevs = subs@;
                let ghost prev_sview = subdirs_view(&subs);
                let sd = subs.remove(0);
                proof {
                    assert(prev_sview == subsv.skip(m));
                    assert(prev_sview[0] == prevs[0]@);
                    assert(sd@ == subsv[m]);
                    assert forall|j: int| 0 <= j < subs@.len() implies subdirs_view(&subs)[j]
                        == subsv.skip(m + 1)[j] by {
                        assert(subs@[j] == prevs[j + 1]);
                        assert(prev_sview[j + 1] == prevs[j + 1]@);
                    }
                    assert(subdirs_view(&subs) =~= subsv.skip(m + 1));
                }
                let SubDirConf { path, strip_prefix, config } = sd;
                let config: H = match H::try_from_conf(config) {
                    Ok(h) => h,
                    Err(e) => {
                        return Err(e);
                    },
                };
                let ghost prev_new = subdirs_view(&new_subs);
                new_subs.push(SubDirConf { path, strip_prefix, config });
                proof {
                    assert forall|j: int| 0 <= j < new_subs@.len() implies subdir_shapes(
                        subdirs_view(&new_subs),
                    )[j] == subdir_shapes(subsv.take(m + 1))[j] by {
                        assert(subsv.take(m + 1)[j] == subsv[j]);
                        if j < m {
                            assert(subdirs_view(&new_subs)[j] == prev_new[j]);
                            assert(subdir_shapes(prev_new)[j] == subdir_shapes(subsv.take(m))[j]);
                            assert(subsv.take(m)[j] == subsv[j]);
                        } else {
                            assert(subdirs_view(&new_subs)[m] == new_subs@[m]@);
                        }
                    }
                    assert(subdir_shapes(subdirs_view(&new_subs)) =~= subdir_shapes(
                        subsv.take(m + 1),
                    ));
                }
            }
            let new_hc = VirtualHostConf { aliases, is_default, config, subdirs: new_subs };
            proof {
                assert(subsv.take(subsv.len() as int) =~= subsv);
                assert(new_hc@.subdirs =~= subdirs_view(&new_hc.subdirs));
                assert(host_shape(new_hc@) =~= host_shape(hcv));
            }
            let ghost prev_out = vhosts_view(&out);
            let ghost new_hcv = new_hc@;
            out.push((host, new_hc));
            proof {
                assert forall|j: int| 0 <= j < out@.len() implies conf_shapes(
                    vhosts_view(&out),
                )[j] == conf_shapes(full.take(k + 1))[j] by {
                    assert(full.take(k + 1)[j] == full[j]);
                    if j < k {
                        assert(vhosts_view(&out)[j] == prev_out[j]);
                        assert(conf_shapes(prev_out)[j] == conf_shapes(full.take(k))[j]);
                        assert(full.take(k)[j] == full[j]);
                    } else {
                        assert(vhosts_view(&out)[k] == (out@[k].0@, out@[k].1@));
                        assert(out@[k].1 == new_hc);
                        assert(host_shape(new_hcv) == host_shape(hcv));
                        assert(full[k] == (out@[k].0@, hcv));
                    }
                }
                assert(conf_shapes(vhosts_view(&out)) =~= conf_shapes(full.take(k + 1)));
            }
        }
        proof {
            assert(full.take(full.len() as int) =~= full);
        }
        let r = VirtualHostsConf { vhosts: out };
        proof {
            assert(r@ == vhosts_view(&r.vhosts));
        }
        Ok(r)
    }
}

/// A sub-mount with its handler configuration dropped: what conversion must
/// preserve.
pub open spec fn subdir_shapes<C>(subs: Seq<SubDirView<C>>) -> Seq<SubDirView<()>> {
    subs.map(
        |i: int, sd: SubDirView<C>|
            SubDirView { path: sd.path, strip_prefix: sd.strip_prefix, config: () },
    )
}

/// One host's configuration with the handler configurations dropped.
pub open spec fn host_shape<C>(h: VirtualHostView<C>) -> VirtualHostView<()> {
    VirtualHostView {
        aliases: h.aliases,
        is_default: h.is_default,
        config: (),
        subdirs: subdir_shapes(h.subdirs),
    }
}

/// A whole configuration with the handler configurations dropped.
pub open spec fn conf_shapes<C>(vhosts: Seq<(Seq<u8>, VirtualHostView<C>)>) -> Seq<
    (Seq<u8>, VirtualHostView<()>),
> {
    vhosts.map(|i: int, h: (Seq<u8>, VirtualHostView<C>)| (h.0, host_shape(h.1)))
}

/// The sub-mount list of a vector of sub-mounts, as the specification sees it.
pub open spec fn subdirs_view<C>(v: &Vec<SubDirConf<C>>) -> Seq<SubDirView<C>> {
    Seq::new(v@.len() as nat, |i: int| v@[i]@)
}

/// Route entries with their payloads dropped: host, normalized mount and
/// strip flag — everything the routing decision itself depends on.
pub open spec fn route_shapes<C>(rs: Seq<RouteEntryView<C>>) -> Seq<(Seq<u8>, Seq<Seq<u8>>, bool)> {
    rs.map(|i: int, e: RouteEntryView<C>| (e.host, e.segments, e.strip_prefix))
}

/// Configurations of equal shape contribute equally shaped routes, the same
/// alias pairs, and the same default host — converting the handler payloads
/// changes none of the routing.
pub proof fn lemma_equal_shapes_equal_routes<C1, C2>(
    v1: Seq<(Seq<u8>, VirtualHostView<C1>)>,
    v2: Seq<(Seq<u8>, VirtualHostView<C2>)>,
)
    requires
        conf_shapes(v1) == conf_shapes(v2),
    ensures
        route_shapes(conf_routes(v1)) == route_shapes(conf_routes(v2)),
        conf_aliases(v1) == conf_aliases(v2),
        first_default(v1) == first_default(v2),
    decreases v1.len(),
{
    assert(conf_shapes(v1).len() == v1.len());
    assert(conf_shapes(v2).len() == v2.len());
    assert(v1.len() == v2.len());
    if v1.len() == 0 {
        assert(route_shapes(conf_routes(v1)) =~= route_shapes(conf_routes(v2)));
        assert(conf_aliases(v1) =~= conf_aliases(v2));
    } else {
        let n = v1.len() as int;
        assert(conf_shapes(v1.drop_last()) =~= conf_shapes(v2.drop_last())) by {
            assert forall|j: int| 0 <= j < n - 1 implies conf_shapes(v1.drop_last())[j]
                == conf_shapes(v2.drop_last())[j] by {
                assert(conf_shapes(v1.drop_last())[j] == (v1[j].0, host_shape(v1[j].1)));
                assert(conf_shapes(v2.drop_last())[j] == (v2[j].0, host_shape(v2[j].1)));
                assert(conf_shapes(v1)[j] == (v1[j].0, host_shape(v1[j].1)));
                assert(conf_shapes(v2)[j] == (v2[j].0, host_shape(v2[j].1)));
            }
        }
        lemma_equal_shapes_equal_routes(v1.drop_last(), v2.drop_last());
        let h1 = v1.last();
        let h2 = v2.last();
        assert(conf_shapes(v1)[n - 1] == (h1.0, host_shape(h1.1)));
        assert(conf_shapes(v2)[n - 1] == (h2.0, host_shape(h2.1)));
        assert(h1.0 == h2.0 && host_shape(h1.1) == host_shape(h2.1));
        let hr1 = host_routes(h1.0, h1.1);
        let hr2 = host_routes(h2.0, h2.1);
        assert(route_shapes(hr1) =~= route_shapes(hr2)) by {
            assert(subdir_shapes(h1.1.subdirs).len() == subdir_shapes(h2.1.subdirs).len());
            assert forall|j: int| 0 <= j < hr1.len() implies route_shapes(hr1)[j] == route_shapes(
                hr2,
            )[j] by {
                if j > 0 {
                    let sd1 = h1.1.subdirs[j - 1];
                    let sd2 = h2.1.subdirs[j - 1];
                    assert(subdir_shapes(h1.1.subdirs)[j - 1] == (SubDirView {
                        path: sd1.path,
                        strip_prefix: sd1.strip_prefix,
                        config: (),
                    }));
                    assert(subdir_shapes(h2.1.subdirs)[j - 1] == (SubDirView {
                        path: sd2.path,
                        strip_prefix: sd2.strip_prefix,
                        config: (),
                    }));
                    assert(sd1.path == sd2.path && sd1.strip_prefix == sd2.strip_prefix);
                }
            }
        }
        assert(route_shapes(conf_routes(v1)) =~= route_shapes(conf_routes(v1.drop_last()))
            + route_shapes(hr1));
        assert(route_shapes(conf_routes(v2)) =~= route_shapes(conf_routes(v2.drop_last()))
            + route_shapes(hr2));
        assert(host_aliases(h1.0, h1.1) =~= host_aliases(h2.0, h2.1)) by {
            assert(h1.1.aliases == h2.1.aliases);
            assert forall|j: int| 0 <= j < h1.1.aliases.len() implies host_aliases(h1.0, h1.1)[j]
                == host_aliases(h2.0, h2.1)[j] by {
                assert(host_aliases(h1.0, h1.1)[j] == (h1.1.aliases[j], h1.0));
                assert(host_aliases(h2.0, h2.1)[j] == (h2.1.aliases[j], h2.0));
            }
        }
        assert(h1.1.is_default == h2.1.is_default);
    }
}

/// Route uniqueness only looks at the shapes: two route lists of equal shape
/// either both collide or both do not.
pub proof fn lemma_shapes_unique<C1, C2>(a: Seq<RouteEntryView<C1>>, b: Seq<RouteEntryView<C2>>)
    requires
        route_shapes(a) == route_shapes(b),
    ensures
        routes_unique(a) <==> routes_unique(b),
{
    assert(route_shapes(a).len() == a.len());
    assert(route_shapes(b).len() == b.len());
    assert(a.len() == b.len());
    assert forall|i: int| 0 <= i < a.len() implies (#[trigger] a[i]).host == b[i].host && a[
        i
    ].segments == b[i].segments by {
        assert(route_shapes(a)[i] == (a[i].host, a[i].segments, a[i].strip_prefix));
        assert(route_shapes(b)[i] == (b[i].host, b[i].segments, b[i].strip_prefix));
    }
    assert forall|i: int| 0 <= i < b.len() implies (#[trigger] b[i]).host == a[i].host && b[
        i
    ].segments == a[i].segments by {
        assert(route_shapes(a)[i] == (a[i].host, a[i].segments, a[i].strip_prefix));
        assert(route_shapes(b)[i] == (b[i].host, b[i].segments, b[i].strip_prefix));
    }
}

impl<H> VirtualHostsHandler<H> {
    /// Builds the handler from a configuration whose handler values are
    /// already live. Each host contributes its root route and then its
    /// sub-mount routes, in declaration order; aliases keep declaration
    /// order; the first host marked default wins. Succeeds exactly when no
    /// two routes of one host share one normalized mount path.
    pub fn from_conf(conf: VirtualHostsConf<H>) -> (r: Result<Self, BuildError>)
        ensures
            routes_unique(conf_routes(conf@)) ==> (r matches Ok(h) && h@.routes == conf_routes(
                conf@,
            ) && h@.aliases == conf_aliases(conf@) && h@.default_host == first_default(conf@)
                && h.wf()),
            !routes_unique(conf_routes(conf@)) ==> (r matches Err(e) && e is DuplicateRoute),
    {
        let ghost full = conf@;
        let mut vhosts = conf.vhosts;
        let mut builder = RouterBuilder::<H>::new();
        let mut aliases: Vec<(Vec<u8>, Vec<u8>)> = Vec::new();
        let mut default_host: Option<Vec<u8>> = None;
        proof {
            assert(vhosts_view(&vhosts) =~= full.skip(0));
            assert(conf_routes(full.take(0)) =~= Seq::<RouteEntryView<H>>::empty());
            assert(conf_aliases(full.take(0)) =~= Seq::<(Seq<u8>, Seq<u8>)>::empty());
            assert(alias_pairs_view(&aliases) =~= Seq::<(Seq<u8>, Seq<u8>)>::empty());
            assert(first_default(full.take(0)) is None);
        }
        while vhosts.len() > 0
            invariant
                full.len() == (full.len() - vhosts@.len()) + vhosts@.len(),
                vhosts@.len() <= full.len(),
                vhosts_view(&vhosts) == full.skip(full.len() - vhosts@.len()),
                builder@ == conf_routes(full.take(full.len() - vhosts@.len())),
                builder.wf(),
                alias_pairs_view(&aliases) == conf_aliases(full.take(full.len() - vhosts@.len())),
                opt_bytes_view(default_host) == first_default(
                    full.take(full.len() - vhosts@.len()),
                ),
            decreases vhosts.len(),
        {
            let ghost k: int = full.len() as int - vhosts@.len() as int;
            let ghost prevv = vhosts@;
            let ghost prev_view = vhosts_view(&vhosts);
            let (host, hc) = vhosts.remove(0);
            proof {
                assert(prev_view == full.skip(k));
                assert(prev_view[0] == (prevv[0].0@, prevv[0].1@));
                assert((host@, hc@) == full[k]);
                assert forall|j: int| 0 <= j < vhosts@.len() implies vhosts_view(&vhosts)[j]
                    == full.skip(k + 1)[j] by {
                    assert(vhosts@[j] == prevv[j + 1]);
                    assert(prev_view[j + 1] == (prevv[j + 1].0@, prevv[j + 1].1@));
                }
                assert(vhosts_view(&vhosts) =~= full.skip(k + 1));
            }
            let ghost hcv = hc@;
            let VirtualHostConf { aliases: mut al, is_default, config, subdirs } = hc;
            let ghost alv = hcv.aliases;
            proof {
                assert(al.deep_view() =~= alv.skip(0));
                assert(host_aliases(host@, hcv).take(0) =~= Seq::<(Seq<u8>, Seq<u8>)>::empty());
                assert(alias_pairs_view(&aliases) + host_aliases(host@, hcv).take(0)
                    =~= alias_pairs_view(&aliases));
            }
            while al.len() > 0
                invariant
                    al@.len() <= alv.len(),
                    al.deep_view() == alv.skip(alv.len() - al@.len()),
                    alias_pairs_view(&aliases) == conf_aliases(full.take(k)) + host_aliases(
                        host@,
                        hcv,
                    ).take(alv.len() - al@.len()),
                    hcv.aliases == alv,
                decreases al.len(),
            {
                let ghost m: int = alv.len() as int - al@.len() as int;
                let ghost preva = al@;
                let ghost preva_deep = al.deep_view();
                let a = al.remove(0);
                proof {
                    assert(preva_deep[0] == preva[0]@);
                    assert(a@ == alv[m]);
                    assert forall|j: int| 0 <= j < al@.len() implies al.deep_view()[j] == alv.skip(
                        m + 1,
                    )[j] by {
                        assert(al@[j] == preva[j + 1]);
                        assert(preva_deep[j + 1] == preva[j + 1]@);
                    }
                    assert(al.deep_view() =~= alv.skip(m + 1));
                }
                let ghost prev_pairs = alias_pairs_view(&aliases);
                aliases.push((a, vstd::slice::slice_to_vec(host.as_slice())));
                proof {
                    let base = conf_aliases(full.take(k));
                    let ha = host_aliases(host@, hcv);
                    assert(ha.len() == alv.len());
                    assert(ha[m] == (alv[m], host@));
                    assert(prev_pairs.len() == base.len() + m);
                    assert(aliases@.len() == prev_pairs.len() + 1);
                    assert(aliases@.last().0 == a);
                    assert(aliases@.last().1@ == host@);
                    assert(alias_pairs_view(&aliases)[base.len() + m] == (a@, host@));
                    assert((base + ha.take(m + 1))[base.len() + m] == ha[m]);
                    assert forall|j: int| 0 <= j < aliases@.len() implies alias_pairs_view(
                        &aliases,
                    )[j] == (base + ha.take(m + 1))[j] by {
                        if j < prev_pairs.len() {
                            assert(aliases@[j] == aliases@.drop_last()[j]);
                            assert(alias_pairs_view(&aliases)[j] == prev_pairs[j]);
                            assert(prev_pairs[j] == (base + ha.take(m))[j]);
                            if j >= base.len() {
                                assert(ha.take(m)[j - base.len()] == ha[j - base.len()]);
                                assert(ha.take(m + 1)[j - base.len()] == ha[j - base.len()]);
                            }
                        }
                    }
                    assert(alias_pairs_view(&aliases) =~= base + ha.take(m + 1));
                }
            }
            proof {
                assert(host_aliases(host@, hcv).take(alv.len() as int) =~= host_aliases(
                    host@,
                    hcv,
                ));
            }
            if is_default && default_host.is_none() {
                default_host = Some(vstd::slice::slice_to_vec(host.as_slice()));
            }
            let empty_path: Vec<u8> = Vec::new();
            let ghost prev_builder = builder@;
            builder.push(host.as_slice(), empty_path.as_slice(), false, config);
            proof {
                assert(split_segments(Seq::<u8>::empty()) =~= Seq::<Seq<u8>>::empty());
                assert(builder@ =~= prev_builder + host_routes(host@, hcv).take(1));
            }
            let mut subs = subdirs;
            let ghost subsv = hcv.subdirs;
            proof {
                assert(subdirs_view(&subs) =~= subsv.skip(0));
            }
            while subs.len() > 0
                invariant
                    subs@.len() <= subsv.len(),
                    subdirs_view(&subs) == subsv.skip(subsv.len() - subs@.len()),
                    builder@ == prev_builder + host_routes(host@, hcv).take(
                        1 + subsv.len() - subs@.len(),
                    ),
                    builder.wf(),
                    hcv.subdirs == subsv,
                    host_routes(host@, hcv).len() == 1 + subsv.len(),
                decreases subs.len(),
            {
                let ghost m: int = subsv.len() as int - subs@.len() as int;
                let ghost prevs = subs@;
                let ghost prev_sview = subdirs_view(&subs);
                let sd = subs.remove(0);
                proof {
                    assert(prev_sview[0] == prevs[0]@);
                    assert(sd@ == subsv[m]);
                    assert forall|j: int| 0 <= j < subs@.len() implies subdirs_view(&subs)[j]
                        == subsv.skip(m + 1)[j] by {
                        assert(subs@[j] == prevs[j + 1]);
                        assert(prev_sview[j + 1] == prevs[j + 1]@);
                    }
                    assert(subdirs_view(&subs) =~= subsv.skip(m + 1));
                }
                let ghost prev_b = builder@;
                builder.push(host.as_slice(), sd.path.as_slice(), sd.strip_prefix, sd.config);
                proof {
                    assert(host_routes(host@, hcv)[1 + m] == RouteEntryView {
                        host: host@,
                        segments: split_segments(subsv[m].path),
                        strip_prefix: subsv[m].strip_prefix,
                        value: subsv[m].config,
                    });
                    assert(host_routes(host@, hcv).take(1 + m + 1) =~= host_routes(
                        host@,
                        hcv,
                    ).take(1 + m).push(host_routes(host@, hcv)[1 + m]));
                    assert(builder@ =~= prev_builder + host_routes(host@, hcv).take(1 + m + 1));
                }
            }
            proof {
                assert(host_routes(host@, hcv).take(host_routes(host@, hcv).len() as int)
                    =~= host_routes(host@, hcv));
                assert(full.take(k + 1).drop_last() =~= full.take(k));
                assert(full.take(k + 1).last() == (host@, hcv));
                assert(builder@ == conf_routes(full.take(k + 1)));
                assert(alias_pairs_view(&aliases) == conf_aliases(full.take(k + 1)));
                assert(opt_bytes_view(default_host) == first_default(full.take(k + 1)));
            }
        }
        proof {
            assert(full.take(full.len() as int) =~= full);
        }
        let handlers = match builder.build() {
            Ok(h) => h,
            Err(e) => {
                return Err(e);
            },
        };
        let h = VirtualHostsHandler::assemble(handlers, aliases, default_host);
        Ok(h)
    }

    /// Builds the handler from a configuration by first converting every
    /// handler configuration through [`TryFromConf`], then building as
    /// [`VirtualHostsHandler::from_conf`] does. Conversion errors are passed
    /// on unchanged; a configuration whose routes collide is refused.
    pub fn try_from_conf<C>(conf: VirtualHostsConf<C>) -> (r: Result<Self, BuildError>) where
        H: TryFromConf<C>,
        ensures
            r matches Ok(h) ==> route_shapes(h@.routes) == route_shapes(conf_routes(conf@))
                && h@.aliases == conf_aliases(conf@) && h@.default_host == first_default(conf@)
                && h.wf(),
            !routes_unique(conf_routes(conf@)) ==> r is Err,
    {
        let converted = match conf.convert::<H>() {
            Ok(c) => c,
            Err(e) => {
                return Err(e);
            },
        };
        let ghost cv = converted@;
        proof {
            lemma_equal_shapes_equal_routes(cv, conf@);
            lemma_shapes_unique(conf_routes(cv), conf_routes(conf@));
        }
        match VirtualHostsHandler::from_conf(converted) {
            Ok(h) => Ok(h),
            Err(e) => Err(e),
        }
    }
}

impl<C, H: TryFromConf<C>> TryFromConf<VirtualHostsConf<C>> for VirtualHostsHandler<H> {
    fn try_from_conf(conf: VirtualHostsConf<C>) -> Result<Self, BuildError> {
        VirtualHostsHandler::try_from_conf(conf)
    }
}

} // verus!
