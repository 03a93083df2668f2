//! The policy dialer: picks the direct dialer or the proxy dialer for each
//! destination, from a rule list and two switches.
use vstd::prelude::*;

use crate::dst::{DstAddr, DstView};
use crate::error::Error;
use crate::rules::{
    enforce, enforced, first_decisive, lemma_first_decisive_range, rule_views, Decision, Rule,
    RuleView,
};

verus! {

/// Which dialer opens the egress stream.
#[derive(Debug, Clone, Copy, PartialEq, Eq, Structural)]
pub enum Route {
    Direct,
    Proxy,
}

/// Composes a direct dialer `C` and a proxy dialer `PC` under a policy.
pub struct ProxyConnect<C, PC> {
    connect: C,
    proxy_connect: PC,
    policy: Option<Vec<Rule>>,
    force_proxy: bool,
    default_proxy: bool,
}

/// The decision taken for a destination: `Proxy` with remote name resolution when
/// the proxy is forced, else what the rules decide (`Default` without rules).
pub open spec fn decide_spec(force_proxy: bool, policy: Option<Seq<RuleView>>, d: DstView) -> Decision {
    if force_proxy {
        Decision::Proxy { remote_dns: true }
    } else {
        match policy {
            Some(rules) => enforced(rules, d),
            None => Decision::Default,
        }
    }
}

/// The dialer a decision selects; `Deny` fails with `HostUnreachable` before any
/// egress connection is attempted.
pub open spec fn route_spec(default_proxy: bool, decision: Decision) -> Result<Route, Error> {
    match decision {
        Decision::Direct => Ok(Route::Direct),
        Decision::Proxy { .. } => Ok(Route::Proxy),
        Decision::Default => if default_proxy {
            Ok(Route::Proxy)
        } else {
            Ok(Route::Direct)
        },
        Decision::Deny => Err(Error::HostUnreachable),
    }
}

impl<C, PC> ProxyConnect<C, PC> {
    /// The policy's rules, if it has any.
    pub closed spec fn policy_view(&self) -> Option<Seq<RuleView>> {
        match &self.policy {
            Some(rules) => Some(rule_views(rules@)),
            None => None,
        }
    }

    /// Whether every destination goes through the proxy.
    pub closed spec fn forces_proxy(&self) -> bool {
        self.force_proxy
    }

    /// Whether `Default` decisions go through the proxy.
    pub closed spec fn proxies_by_default(&self) -> bool {
        self.default_proxy
    }

    /// A policy dialer without rules that dials directly by default.
    pub fn new(connect: C, proxy_connect: PC) -> (r: Self)
        ensures
            r.policy_view() is None,
            !r.forces_proxy(),
            !r.proxies_by_default(),
    {
        ProxyConnect { connect, proxy_connect, policy: None, force_proxy: false, default_proxy: false }
    }

    /// Sets the rules.
    pub fn set_policy(&mut self, policy: Vec<Rule>)
        ensures
            final(self).policy_view() == Some(rule_views(policy@)),
            final(self).forces_proxy() == old(self).forces_proxy(),
            final(self).proxies_by_default() == old(self).proxies_by_default(),
    {
        self.policy = Some(policy);
    }

    /// Sends every destination through the proxy, or not.
    pub fn set_force_proxy(&mut self, force_proxy: bool)
        ensures
            final(self).forces_proxy() == force_proxy,
            final(self).policy_view() == old(self).policy_view(),
            final(self).proxies_by_default() == old(self).proxies_by_default(),
    {
        self.force_proxy = force_proxy;
    }

    /// Sends `Default` decisions through the proxy, or directly.
    pub fn set_default_proxy(&mut self, default_proxy: bool)
        ensures
            final(self).proxies_by_default() == default_proxy,
            final(self).policy_view() == old(self).policy_view(),
            final(self).forces_proxy() == old(self).forces_proxy(),
    {
        self.default_proxy = default_proxy;
    }

    /// The direct dialer.
    pub fn connector(&self) -> &C {
        &self.connect
    }

    /// The proxy dialer.
    pub fn proxy_connector(&self) -> &PC {
        &self.proxy_connect
    }

    /// The decision for a destination.
    pub fn decide(&self, target: &DstAddr) -> (r: Decision)
        ensures
            r == decide_spec(self.forces_proxy(), self.policy_view(), target@),
    {
        if self.force_proxy {
            Decision::Proxy { remote_dns: true }
        } else {
            match &self.policy {
                Some(rules) => {
                    let (d, _) = enforce(rules.as_slice(), target);
                    proof {
                        lemma_first_decisive_range(rule_views(rules@), target@);
                        if let Some(i) = first_decisive(rule_views(rules@), target@) {
                            assert(rule_views(rules@)[i] == rules@[i]@);
                        }
                    }
                    d
                },
                None => Decision::Default,
            }
        }
    }

    /// The dialer to use for a destination, or `HostUnreachable` when it is denied.
    pub fn route(&self, target: &DstAddr) -> (r: Result<Route, Error>)
        ensures
            r == route_spec(
                self.proxies_by_default(),
                decide_spec(self.forces_proxy(), self.policy_view(), target@),
            ),
    {
        match self.decide(target) {
            Decision::Direct => Ok(Route::Direct),
            Decision::Proxy { .. } => Ok(Route::Proxy),
            Decision::Default => if self.default_proxy {
                Ok(Route::Proxy)
            } else {
                Ok(Route::Direct)
            },
            Decision::Deny => Err(Error::HostUnreachable),
        }
    }
}

} // verus!
