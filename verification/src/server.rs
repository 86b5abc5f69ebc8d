//! The server-side orchestrator's state.
//!
//! A `ProtocolServer` holds the server's self-description fields and the
//! names of its registered channel handlers and services. The runtime
//! around it owns the handler routines themselves; the state here is
//! what the identity handshake and the per-stream dispatch decide from.

use vstd::prelude::*;

use crate::identity::{ChannelDirection, ChannelInfo, ChannelInfoView, ChannelStatus,
    ServerIdentity};
use crate::routing::registered_contains;
use crate::strutil::str_eq;

verus! {

/// True when no two names in the list are equal.
pub open spec fn unique_strings(s: Seq<String>) -> bool {
    forall|i: int, j: int| 0 <= i < j < s.len() ==> (#[trigger] s[i])@ != (#[trigger] s[j])@
}

/// The server's registry: its identity fields, and the names of its
/// registered channel handlers and services.
pub struct ProtocolServer {
    /// The name the server introduces itself with.
    pub server_name: String,
    /// The version it reports.
    pub server_version: String,
    /// The namespace it reports.
    pub server_namespace: String,
    /// Names of the channels a handler is registered for.
    pub channel_names: Vec<String>,
    /// Names of the registered services.
    pub service_names: Vec<String>,
}

/// Finds the position of a name in a list of names.
fn find_name(names: &Vec<String>, name: &str) -> (r: Option<usize>)
    ensures
        r is Some <==> registered_contains(names@, name@),
        r is Some ==> 0 <= r->0 < names@.len() && (names@[r->0 as int])@ == name@,
{
    let n = names.len();
    let mut k: usize = 0;
    while k < n
        invariant
            n == names@.len(),
            0 <= k <= n,
            forall|i: int| 0 <= i < k ==> (#[trigger] names@[i])@ != name@,
        decreases n - k,
    {
        if str_eq(names[k].as_str(), name) {
            proof {
                assert(names@[k as int]@ == name@);
            }
            return Some(k);
        }
        k = k + 1;
    }
    proof {
        if registered_contains(names@, name@) {
            let i = choose|i: int| 0 <= i < names@.len() && names@[i]@ == name@;
            assert(names@[i]@ != name@);
        }
    }
    None
}

impl ProtocolServer {
    /// Well-formedness: each channel and service name is registered
    /// once.
    pub open spec fn wf(&self) -> bool {
        unique_strings(self.channel_names@) && unique_strings(self.service_names@)
    }

    /// A fresh server with default identity fields and no handlers.
    pub fn new() -> (r: ProtocolServer)
        ensures
            r.wf(),
            r.server_name@ == "unison"@,
            r.server_version@ == "0.1.0"@,
            r.server_namespace@ == "default"@,
            r.channel_names@.len() == 0,
            r.service_names@.len() == 0,
    {
        ProtocolServer {
            server_name: String::from_str("unison"),
            server_version: String::from_str("0.1.0"),
            server_namespace: String::from_str("default"),
            channel_names: Vec::new(),
            service_names: Vec::new(),
        }
    }

    /// A fresh server with the given identity fields.
    pub fn with_identity(name: &str, version: &str, namespace: &str) -> (r: ProtocolServer)
        ensures
            r.wf(),
            r.server_name@ == name@,
            r.server_version@ == version@,
            r.server_namespace@ == namespace@,
            r.channel_names@.len() == 0,
            r.service_names@.len() == 0,
    {
        ProtocolServer {
            server_name: name.to_owned(),
            server_version: version.to_owned(),
            server_namespace: namespace.to_owned(),
            channel_names: Vec::new(),
            service_names: Vec::new(),
        }
    }

    /// Registers a channel handler's name; registering a name again
    /// changes nothing here (the runtime replaces the handler routine).
    pub fn register_channel(&mut self, name: &str)
        requires
            old(self).wf(),
        ensures
            final(self).wf(),
            final(self).server_name == old(self).server_name,
            final(self).server_version == old(self).server_version,
            final(self).server_namespace == old(self).server_namespace,
            final(self).service_names == old(self).service_names,
            registered_contains(final(self).channel_names@, name@),
            forall|n: Seq<char>|
                n != name@ ==> (#[trigger] registered_contains(final(self).channel_names@, n)
                    <==> registered_contains(old(self).channel_names@, n)),
    {
        match find_name(&self.channel_names, name) {
            Some(_) => {
            },
            None => {
                let ghost o = self.channel_names@;
                self.channel_names.push(name.to_owned());
                proof {
                    let t = self.channel_names@;
                    assert(t[t.len() - 1]@ == name@);
                    assert(registered_contains(t, name@));
                    assert forall|i: int, j: int| 0 <= i < j < t.len() implies (#[trigger] t[i])@
                        != (#[trigger] t[j])@ by {
                        if j == t.len() - 1 {
                            if t[i]@ == name@ {
                                assert(registered_contains(o, name@));
                            }
                        }
                    }
                    assert forall|n: Seq<char>|
                        n != name@ && #[trigger] registered_contains(t, n) implies
                    registered_contains(o, n) by {
                        let i = choose|i: int| 0 <= i < t.len() && t[i]@ == n;
                        assert(i < t.len() - 1);
                        assert(o[i]@ == n);
                    }
                    assert forall|n: Seq<char>|
                        n != name@ && #[trigger] registered_contains(o, n) implies
                    registered_contains(t, n) by {
                        let i = choose|i: int| 0 <= i < o.len() && o[i]@ == n;
                        assert(t[i]@ == n);
                    }
                }
            },
        }
    }

    /// True when a handler is registered for the named channel.
    pub fn has_channel_handler(&self, name: &str) -> (r: bool)
        ensures
            r <==> registered_contains(self.channel_names@, name@),
    {
        match find_name(&self.channel_names, name) {
            Some(_) => true,
            None => false,
        }
    }

    /// Registers a service's name; registering a name again changes
    /// nothing here.
    pub fn register_service(&mut self, name: &str)
        requires
            old(self).wf(),
        ensures
            final(self).wf(),
            final(self).server_name == old(self).server_name,
            final(self).server_version == old(self).server_version,
            final(self).server_namespace == old(self).server_namespace,
            final(self).channel_names == old(self).channel_names,
            registered_contains(final(self).service_names@, name@),
            forall|n: Seq<char>|
                n != name@ ==> (#[trigger] registered_contains(final(self).service_names@, n)
                    <==> registered_contains(old(self).service_names@, n)),
    {
        match find_name(&self.service_names, name) {
            Some(_) => {
            },
            None => {
                let ghost o = self.service_names@;
                self.service_names.push(name.to_owned());
                proof {
                    let t = self.service_names@;
                    assert(t[t.len() - 1]@ == name@);
                    assert(registered_contains(t, name@));
                    assert forall|i: int, j: int| 0 <= i < j < t.len() implies (#[trigger] t[i])@
                        != (#[trigger] t[j])@ by {
                        if j == t.len() - 1 {
                            if t[i]@ == name@ {
                                assert(registered_contains(o, name@));
                            }
                        }
                    }
                    assert forall|n: Seq<char>|
                        n != name@ && #[trigger] registered_contains(t, n) implies
                    registered_contains(o, n) by {
                        let i = choose|i: int| 0 <= i < t.len() && t[i]@ == n;
                        assert(i < t.len() - 1);
                        assert(o[i]@ == n);
                    }
                    assert forall|n: Seq<char>|
                        n != name@ && #[trigger] registered_contains(o, n) implies
                    registered_contains(t, n) by {
                        let i = choose|i: int| 0 <= i < o.len() && o[i]@ == n;
                        assert(t[i]@ == n);
                    }
                }
            },
        }
    }

    /// The names of the registered services, in registration order.
    pub fn list_services(&self) -> (r: Vec<String>)
        ensures
            r@.len() == self.service_names@.len(),
            forall|i: int|
                0 <= i < r@.len() ==> (#[trigger] r@[i])@ == (self.service_names@[i])@,
    {
        let n = self.service_names.len();
        let mut r: Vec<String> = Vec::new();
        let mut k: usize = 0;
        while k < n
            invariant
                n == self.service_names@.len(),
                0 <= k <= n,
                r@.len() == k,
                forall|i: int| 0 <= i < k ==> (#[trigger] r@[i])@ == (self.service_names@[i])@,
            decreases n - k,
        {
            r.push(self.service_names[k].clone());
            k = k + 1;
        }
        r
    }

    /// Builds the identity the server introduces itself with: its name,
    /// version and namespace, and one descriptor per registered channel,
    /// each bidirectional, persistent and available.
    pub fn build_identity(&self) -> (r: ServerIdentity)
        ensures
            r@.name == self.server_name@,
            r@.version == self.server_version@,
            r@.namespace == self.server_namespace@,
            r@.metadata.len() == 0,
            r@.channels.len() == self.channel_names@.len(),
            forall|i: int|
                0 <= i < r@.channels.len() ==> #[trigger] r@.channels[i] == (ChannelInfoView {
                    name: (self.channel_names@[i])@,
                    direction: ChannelDirection::Bidirectional,
                    lifetime: "persistent"@,
                    status: ChannelStatus::Available,
                }),
    {
        let mut identity = ServerIdentity::new(
            self.server_name.as_str(),
            self.server_version.as_str(),
            self.server_namespace.as_str(),
        );
        let n = self.channel_names.len();
        let mut k: usize = 0;
        while k < n
            invariant
                n == self.channel_names@.len(),
                0 <= k <= n,
                identity@.name == self.server_name@,
                identity@.version == self.server_version@,
                identity@.namespace == self.server_namespace@,
                identity@.metadata.len() == 0,
                identity@.channels.len() == k,
                forall|i: int|
                    0 <= i < k ==> #[trigger] identity@.channels[i] == (ChannelInfoView {
                        name: (self.channel_names@[i])@,
                        direction: ChannelDirection::Bidirectional,
                        lifetime: "persistent"@,
                        status: ChannelStatus::Available,
                    }),
            decreases n - k,
        {
            let info = ChannelInfo {
                name: self.channel_names[k].clone(),
                direction: ChannelDirection::Bidirectional,
                lifetime: String::from_str("persistent"),
                status: ChannelStatus::Available,
            };
            identity.add_channel(info);
            k = k + 1;
        }
        identity
    }
}

} // verus!
