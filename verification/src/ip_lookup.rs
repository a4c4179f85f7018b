//! Screening connecting addresses with IP-reputation providers: which
//! providers are asked, and how their answers decide that a peer is
//! suspicious.
use vstd::prelude::*;

verus! {

/// The IP-reputation services consulted, in the order they are asked.
#[derive(Clone, Copy, Debug, PartialEq, Eq, Structural)]
pub enum LookupProvider {
    IpInfo,
    IpSb,
    ApipCc,
    IpapiIs,
}

/// The providers in the order they are asked.
pub open spec fn all_providers() -> Seq<LookupProvider> {
    seq![LookupProvider::IpInfo, LookupProvider::IpSb, LookupProvider::ApipCc, LookupProvider::IpapiIs]
}

impl LookupProvider {
    /// Every provider, in the order they are asked.
    pub fn all() -> (providers: &'static [LookupProvider])
        ensures
            providers@ == all_providers(),
    {
        let providers: &'static [LookupProvider] = &[
            LookupProvider::IpInfo,
            LookupProvider::IpSb,
            LookupProvider::ApipCc,
            LookupProvider::IpapiIs,
        ];
        assert(providers@ =~= all_providers());
        providers
    }
}

/// What a provider reports about an address's connection; `None` where it
/// does not say.
#[derive(Clone, Copy, Debug, PartialEq, Eq, Structural)]
pub struct ConnectionFlags {
    pub is_crawler: Option<bool>,
    pub is_datacenter: Option<bool>,
    pub is_vpn: Option<bool>,
    pub is_proxy: Option<bool>,
    pub is_tor: Option<bool>,
}

/// A report marks the peer when any flag it states is set.
pub open spec fn flags_suspicious_spec(f: ConnectionFlags) -> bool {
    f.is_crawler == Some(true) || f.is_datacenter == Some(true) || f.is_vpn == Some(true)
        || f.is_proxy == Some(true) || f.is_tor == Some(true)
}

/// The five flags of a report: crawler, datacenter, VPN, proxy, Tor.
pub open spec fn flag_list(f: ConnectionFlags) -> Seq<Option<bool>> {
    seq![f.is_crawler, f.is_datacenter, f.is_vpn, f.is_proxy, f.is_tor]
}

/// A report marks the peer exactly when at least one of its five flags is
/// stated and set; flags it leaves unstated or clears never mark it.
pub proof fn law_any_set_flag_marks(f: ConnectionFlags)
    ensures
        flags_suspicious_spec(f) <==> flag_list(f).contains(Some(true)),
        flags_suspicious_spec(f) <==> exists|i: int| 0 <= i < 5 && #[trigger] flag_list(f)[i] == Some(true),
{
    let l = flag_list(f);
    assert(l[0] == f.is_crawler && l[1] == f.is_datacenter && l[2] == f.is_vpn && l[3] == f.is_proxy
        && l[4] == f.is_tor);
    if l.contains(Some(true)) {
        let i = choose|i: int| 0 <= i < l.len() && l[i] == Some(true);
        assert(0 <= i < 5);
    }
}

/// Whether a report marks the peer: any stated flag is set.
pub fn flags_suspicious(f: &ConnectionFlags) -> (marked: bool)
    ensures
        marked == flags_suspicious_spec(*f),
        marked == flag_list(*f).contains(Some(true)),
{
    proof {
        law_any_set_flag_marks(*f);
    }
    f.is_crawler == Some(true) || f.is_datacenter == Some(true) || f.is_vpn == Some(true)
        || f.is_proxy == Some(true) || f.is_tor == Some(true)
}

/// Screening of one address across providers: answers are taken one by one
/// until one marks the peer.
pub struct BadActorScan {
    pub is_bad_actor: bool,
}

impl BadActorScan {
    /// Nothing seen yet.
    pub fn new() -> (scan: Self)
        ensures
            !scan.is_bad_actor,
    {
        BadActorScan { is_bad_actor: false }
    }

    /// Takes one provider's answer (`None` when it gave none). Returns whether
    /// to ask the next provider: not once the peer is marked.
    pub fn observe(&mut self, answer: Option<ConnectionFlags>) -> (ask_next: bool)
        ensures
            final(self).is_bad_actor == (old(self).is_bad_actor || (answer matches Some(f)
                && flags_suspicious_spec(f))),
            ask_next == !final(self).is_bad_actor,
            answer matches Some(f) && flag_list(f).contains(Some(true)) ==> final(self).is_bad_actor && !ask_next,
            !old(self).is_bad_actor && (answer matches Some(f) && !flag_list(f).contains(Some(true)))
                ==> !final(self).is_bad_actor && ask_next,
    {
        proof {
            if let Some(f) = answer {
                law_any_set_flag_marks(f);
            }
        }
        match answer {
            Some(f) => {
                if flags_suspicious(&f) {
                    self.is_bad_actor = true;
                }
            },
            None => {},
        }
        !self.is_bad_actor
    }
}

} // verus!
