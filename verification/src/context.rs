//! Per-connection state.
//!
//! A `ConnectionContext` follows one connection: its identifier, the
//! identity the peer sent, and the registry of open channels, keyed by
//! channel name. The connection's orchestrator and each channel's
//! receive task share one context for the connection's lifetime.

use vstd::prelude::*;

use crate::identity::{ChannelDirection, ServerIdentity};
use crate::strutil::str_eq;

verus! {

/// The mathematical model of a channel registry entry.
#[verifier::ext_equal]
pub ghost struct ChannelHandleView {
    pub channel_name: Seq<char>,
    pub stream_id: u64,
    pub direction: ChannelDirection,
}

/// What the registry records of one open channel: its name, the stream
/// id used at open, and its declared direction.
#[derive(Debug, Clone)]
pub struct ChannelHandle {
    pub channel_name: String,
    pub stream_id: u64,
    pub direction: ChannelDirection,
}

impl View for ChannelHandle {
    type V = ChannelHandleView;

    open spec fn view(&self) -> ChannelHandleView {
        ChannelHandleView {
            channel_name: self.channel_name@,
            stream_id: self.stream_id,
            direction: self.direction,
        }
    }
}

impl DeepView for ChannelHandle {
    type V = ChannelHandleView;

    open spec fn deep_view(&self) -> ChannelHandleView {
        self.view()
    }
}

/// True when no two registry entries share a channel name.
pub open spec fn unique_names(s: Seq<ChannelHandleView>) -> bool {
    forall|i: int, j: int| 0 <= i < j < s.len() ==> s[i].channel_name != s[j].channel_name
}

/// True when some entry has the given channel name.
pub open spec fn has_channel(s: Seq<ChannelHandleView>, name: Seq<char>) -> bool {
    exists|i: int| 0 <= i < s.len() && s[i].channel_name == name
}

/// The index of the entry with the given channel name.
pub open spec fn channel_idx(s: Seq<ChannelHandleView>, name: Seq<char>) -> int
    recommends
        has_channel(s, name),
{
    choose|i: int| 0 <= i < s.len() && s[i].channel_name == name
}

/// The entry with the given channel name.
pub open spec fn channel_at(s: Seq<ChannelHandleView>, name: Seq<char>) -> ChannelHandleView
    recommends
        has_channel(s, name),
{
    s[channel_idx(s, name)]
}

/// Relies on `uuid::Uuid::new_v4` (then `as_u128`): a freshly generated
/// random connection identifier. Nothing is promised of the value.
#[verifier::external_body]
fn fresh_connection_id() -> u128 {
    uuid::Uuid::new_v4().as_u128()
}

/// Per-connection state: an identifier, the peer's identity once it
/// arrived, and the registry of open channels.
pub struct ConnectionContext {
    /// Identifier of this connection, drawn at random.
    pub connection_id: u128,
    /// The identity the server sent, once received.
    pub identity: Option<ServerIdentity>,
    /// Open channels, each name registered once.
    pub channels: Vec<ChannelHandle>,
}

impl ConnectionContext {
    /// Well-formedness: each channel name is registered once.
    pub open spec fn wf(&self) -> bool {
        unique_names(self.channels.deep_view())
    }

    /// A fresh context: no identity, no channels.
    pub fn new() -> (r: ConnectionContext)
        ensures
            r.wf(),
            r.identity is None,
            r.channels.deep_view() =~= Seq::<ChannelHandleView>::empty(),
    {
        ConnectionContext {
            connection_id: fresh_connection_id(),
            identity: None,
            channels: Vec::new(),
        }
    }

    /// Stores the identity the peer sent.
    pub fn set_identity(&mut self, identity: ServerIdentity)
        ensures
            final(self).wf() == old(self).wf(),
            final(self).identity is Some && final(self).identity->0@ == identity@,
            final(self).channels == old(self).channels,
            final(self).connection_id == old(self).connection_id,
    {
        self.identity = Some(identity);
    }

    /// The identity the peer sent, if any arrived yet.
    pub fn identity(&self) -> (r: Option<&ServerIdentity>)
        ensures
            r is Some <==> self.identity is Some,
            r is Some ==> r->0@ == self.identity->0@,
    {
        self.identity.as_ref()
    }

    /// Registers an open channel under its name; a channel already
    /// registered under that name is replaced.
    pub fn register_channel(&mut self, handle: ChannelHandle)
        requires
            old(self).wf(),
        ensures
            final(self).wf(),
            final(self).identity == old(self).identity,
            final(self).connection_id == old(self).connection_id,
            has_channel(final(self).channels.deep_view(), handle@.channel_name),
            channel_at(final(self).channels.deep_view(), handle@.channel_name) == handle@,
            forall|n: Seq<char>|
                n != handle@.channel_name ==> (#[trigger] has_channel(
                    final(self).channels.deep_view(),
                    n,
                ) <==> has_channel(old(self).channels.deep_view(), n)),
            forall|n: Seq<char>|
                n != handle@.channel_name && has_channel(old(self).channels.deep_view(), n)
                    ==> #[trigger] channel_at(final(self).channels.deep_view(), n) == channel_at(
                    old(self).channels.deep_view(),
                    n,
                ),
    {
        let ghost o = old(self).channels.deep_view();
        match self.find_channel(handle.channel_name.as_str()) {
            Some(k) => {
                let ghost hv = handle@;
                self.channels.remove(k);
                self.channels.insert(k, handle);
                proof {
                    let t = self.channels.deep_view();
                    assert(t =~~= o.update(k as int, hv));
                    lemma_registry_update(o, k as int, hv);
                }
            },
            None => {
                let ghost hv = handle@;
                self.channels.push(handle);
                proof {
                    let t = self.channels.deep_view();
                    assert(t =~~= o.push(hv));
                    lemma_registry_push(o, hv);
                }
            },
        }
    }

    /// Finds the position of the registry entry with the given name.
    fn find_channel(&self, name: &str) -> (r: Option<usize>)
        requires
            self.wf(),
        ensures
            r is Some <==> has_channel(self.channels.deep_view(), name@),
            r is Some ==> 0 <= r->0 < self.channels.deep_view().len()
                && self.channels.deep_view()[r->0 as int].channel_name == name@ && r->0 as int
                == channel_idx(self.channels.deep_view(), name@),
    {
        let ghost s = self.channels.deep_view();
        let n = self.channels.len();
        let mut k: usize = 0;
        while k < n
            invariant
                self.wf(),
                s == self.channels.deep_view(),
                n == s.len(),
                0 <= k <= n,
                forall|i: int| 0 <= i < k ==> (#[trigger] s[i]).channel_name != name@,
            decreases n - k,
        {
            proof {
                assert(s[k as int] == self.channels@[k as int]@);
            }
            if str_eq(self.channels[k].channel_name.as_str(), name) {
                proof {
                    let j = channel_idx(s, name@);
                    assert(0 <= j < s.len() && s[j].channel_name == name@);
                    assert(j == k as int);
                }
                return Some(k);
            }
            k = k + 1;
        }
        proof {
            if has_channel(s, name@) {
                let i = choose|i: int| 0 <= i < s.len() && s[i].channel_name == name@;
                assert(s[i].channel_name != name@);
            }
        }
        None
    }

    /// Looks an open channel up by name.
    pub fn get_channel(&self, name: &str) -> (r: Option<&ChannelHandle>)
        requires
            self.wf(),
        ensures
            r is Some <==> has_channel(self.channels.deep_view(), name@),
            r is Some ==> r->0@ == channel_at(self.channels.deep_view(), name@),
    {
        match self.find_channel(name) {
            Some(k) => Some(&self.channels[k]),
            None => None,
        }
    }

    /// Removes the channel registered under a name and hands its entry
    /// back; a name that is not registered changes nothing.
    pub fn remove_channel(&mut self, name: &str) -> (r: Option<ChannelHandle>)
        requires
            old(self).wf(),
        ensures
            final(self).wf(),
            final(self).identity == old(self).identity,
            final(self).connection_id == old(self).connection_id,
            r is Some <==> has_channel(old(self).channels.deep_view(), name@),
            r is Some ==> r->0@ == channel_at(old(self).channels.deep_view(), name@),
            !has_channel(final(self).channels.deep_view(), name@),
            forall|n: Seq<char>|
                n != name@ ==> (#[trigger] has_channel(final(self).channels.deep_view(), n)
                    <==> has_channel(old(self).channels.deep_view(), n)),
            forall|n: Seq<char>|
                n != name@ && has_channel(old(self).channels.deep_view(), n)
                    ==> #[trigger] channel_at(final(self).channels.deep_view(), n) == channel_at(
                    old(self).channels.deep_view(),
                    n,
                ),
    {
        let ghost o = old(self).channels.deep_view();
        match self.find_channel(name) {
            Some(k) => {
                let handle = self.channels.remove(k);
                proof {
                    let t = self.channels.deep_view();
                    assert(t =~~= o.remove(k as int));
                    lemma_registry_remove(o, k as int);
                }
                Some(handle)
            },
            None => {
                proof {
                    if has_channel(self.channels.deep_view(), name@) {
                        assert(false);
                    }
                }
                None
            },
        }
    }

    /// Reserves a registry entry for each named channel before it is
    /// opened: stream id zero until the open assigns one, bidirectional
    /// by default. The names handed back are the ones reserved.
    pub fn reserve_channels(&mut self, names: &Vec<String>) -> (r: Vec<String>)
        requires
            old(self).wf(),
        ensures
            final(self).wf(),
            final(self).identity == old(self).identity,
            final(self).connection_id == old(self).connection_id,
            r@.len() == names@.len(),
            forall|i: int| 0 <= i < r@.len() ==> (#[trigger] r@[i])@ == (names@[i])@,
            forall|i: int|
                0 <= i < names@.len() ==> has_channel(
                    final(self).channels.deep_view(),
                    (#[trigger] names@[i])@,
                ),
    {
        let n = names.len();
        let mut r: Vec<String> = Vec::new();
        let mut k: usize = 0;
        while k < n
            invariant
                self.wf(),
                n == names@.len(),
                0 <= k <= n,
                self.identity == old(self).identity,
                self.connection_id == old(self).connection_id,
                r@.len() == k,
                forall|i: int| 0 <= i < k ==> (#[trigger] r@[i])@ == (names@[i])@,
                forall|i: int|
                    0 <= i < k ==> has_channel(
                        self.channels.deep_view(),
                        (#[trigger] names@[i])@,
                    ),
            decreases n - k,
        {
            let handle = ChannelHandle {
                channel_name: names[k].clone(),
                stream_id: 0,
                direction: ChannelDirection::Bidirectional,
            };
            self.register_channel(handle);
            r.push(names[k].clone());
            k = k + 1;
        }
        r
    }

    /// The names of the open channels, in registration order.
    pub fn channel_names(&self) -> (r: Vec<String>)
        ensures
            r@.len() == self.channels.deep_view().len(),
            forall|i: int|
                0 <= i < r@.len() ==> (#[trigger] r@[i])@
                    == self.channels.deep_view()[i].channel_name,
    {
        let ghost s = self.channels.deep_view();
        let n = self.channels.len();
        let mut r: Vec<String> = Vec::new();
        let mut k: usize = 0;
        while k < n
            invariant
                s == self.channels.deep_view(),
                n == s.len(),
                0 <= k <= n,
                r@.len() == k,
                forall|i: int| 0 <= i < k ==> (#[trigger] r@[i])@ == s[i].channel_name,
            decreases n - k,
        {
            proof {
                assert(s[k as int] == self.channels@[k as int]@);
            }
            r.push(self.channels[k].channel_name.clone());
            k = k + 1;
        }
        r
    }
}

/// Replacing the entry at an index with one that keeps its name leaves
/// the registry's names untouched and its other entries in place.
proof fn lemma_registry_update(s: Seq<ChannelHandleView>, k: int, h: ChannelHandleView)
    requires
        unique_names(s),
        0 <= k < s.len(),
        s[k].channel_name == h.channel_name,
    ensures
        unique_names(s.update(k, h)),
        has_channel(s.update(k, h), h.channel_name),
        channel_at(s.update(k, h), h.channel_name) == h,
        forall|n: Seq<char>|
            n != h.channel_name ==> (#[trigger] has_channel(s.update(k, h), n) <==> has_channel(
                s,
                n,
            )),
        forall|n: Seq<char>|
            n != h.channel_name && has_channel(s, n) ==> #[trigger] channel_at(s.update(k, h), n)
                == channel_at(s, n),
{
    let t = s.update(k, h);
    assert forall|i: int, j: int| 0 <= i < j < t.len() implies t[i].channel_name
        != t[j].channel_name by {
        assert(s[i].channel_name != s[j].channel_name);
    }
    assert(t[k] == h);
    assert(has_channel(t, h.channel_name));
    let j = channel_idx(t, h.channel_name);
    assert(0 <= j < t.len() && t[j].channel_name == h.channel_name);
    if j != k {
        assert(t[j] == s[j]);
        assert(s[j].channel_name != s[k].channel_name);
        assert(false);
    }
    assert forall|n: Seq<char>|
        n != h.channel_name && has_channel(s, n) implies #[trigger] channel_at(t, n) == channel_at(
        s,
        n,
    ) by {
        let i = channel_idx(s, n);
        assert(0 <= i < s.len() && s[i].channel_name == n);
        assert(i != k);
        assert(t[i] == s[i]);
        assert(has_channel(t, n));
        let i2 = channel_idx(t, n);
        assert(t[i2].channel_name == n);
        if i2 != i {
            if i2 == k {
                assert(false);
            } else {
                assert(t[i2] == s[i2]);
                assert(s[i2].channel_name != s[i].channel_name || i2 == i);
                assert(false);
            }
        }
    }
    assert forall|n: Seq<char>|
        n != h.channel_name && #[trigger] has_channel(t, n) implies has_channel(s, n) by {
        let i = channel_idx(t, n);
        assert(0 <= i < t.len() && t[i].channel_name == n);
        assert(i != k);
        assert(s[i].channel_name == n);
    }
    assert forall|n: Seq<char>|
        n != h.channel_name && #[trigger] has_channel(s, n) implies has_channel(t, n) by {
        let i = channel_idx(s, n);
        assert(0 <= i < s.len() && s[i].channel_name == n);
        assert(i != k);
        assert(t[i].channel_name == n);
    }
}

/// Appending an entry under a new name keeps every other entry in place.
proof fn lemma_registry_push(s: Seq<ChannelHandleView>, h: ChannelHandleView)
    requires
        unique_names(s),
        !has_channel(s, h.channel_name),
    ensures
        unique_names(s.push(h)),
        has_channel(s.push(h), h.channel_name),
        channel_at(s.push(h), h.channel_name) == h,
        forall|n: Seq<char>|
            n != h.channel_name ==> (#[trigger] has_channel(s.push(h), n) <==> has_channel(s, n)),
        forall|n: Seq<char>|
            n != h.channel_name && has_channel(s, n) ==> #[trigger] channel_at(s.push(h), n)
                == channel_at(s, n),
{
    let t = s.push(h);
    assert forall|i: int, j: int| 0 <= i < j < t.len() implies t[i].channel_name
        != t[j].channel_name by {
        if j == t.len() - 1 {
            assert(t[i] == s[i]);
            if s[i].channel_name == h.channel_name {
                assert(has_channel(s, h.channel_name));
            }
        } else {
            assert(t[i] == s[i] && t[j] == s[j]);
        }
    }
    assert(t[t.len() - 1] == h);
    assert(has_channel(t, h.channel_name));
    let j = channel_idx(t, h.channel_name);
    assert(0 <= j < t.len() && t[j].channel_name == h.channel_name);
    if j != t.len() - 1 {
        assert(t[j] == s[j]);
        assert(has_channel(s, h.channel_name));
        assert(false);
    }
    assert forall|n: Seq<char>|
        n != h.channel_name && #[trigger] has_channel(t, n) implies has_channel(s, n) by {
        let i = channel_idx(t, n);
        assert(0 <= i < t.len() && t[i].channel_name == n);
        assert(i != t.len() - 1);
        assert(s[i].channel_name == n);
    }
    assert forall|n: Seq<char>|
        n != h.channel_name && #[trigger] has_channel(s, n) implies has_channel(t, n) by {
        let i = channel_idx(s, n);
        assert(t[i].channel_name == n);
    }
    assert forall|n: Seq<char>|
        n != h.channel_name && has_channel(s, n) implies #[trigger] channel_at(t, n) == channel_at(
        s,
        n,
    ) by {
        let i = channel_idx(s, n);
        assert(0 <= i < s.len() && s[i].channel_name == n);
        assert(t[i].channel_name == n);
        assert(has_channel(t, n));
        let i2 = channel_idx(t, n);
        assert(0 <= i2 < t.len() && t[i2].channel_name == n);
        if i2 == t.len() - 1 {
            assert(false);
        }
        assert(s[i2].channel_name == n);
        if i2 != i {
            assert(false);
        }
    }
}

/// Removing the entry at an index keeps every other entry in place.
proof fn lemma_registry_remove(s: Seq<ChannelHandleView>, k: int)
    requires
        unique_names(s),
        0 <= k < s.len(),
    ensures
        unique_names(s.remove(k)),
        !has_channel(s.remove(k), s[k].channel_name),
        forall|n: Seq<char>|
            n != s[k].channel_name ==> (#[trigger] has_channel(s.remove(k), n) <==> has_channel(
                s,
                n,
            )),
        forall|n: Seq<char>|
            n != s[k].channel_name && has_channel(s, n) ==> #[trigger] channel_at(s.remove(k), n)
                == channel_at(s, n),
{
    let t = s.remove(k);
    s.remove_ensures(k);
    assert forall|i: int, j: int| 0 <= i < j < t.len() implies t[i].channel_name
        != t[j].channel_name by {
        if j < k {
        } else if i < k {
            assert(t[i] == s[i]);
            assert(t[j] == s[j + 1]);
        } else {
            assert(t[i] == s[i + 1]);
            assert(t[j] == s[j + 1]);
        }
    }
    if has_channel(t, s[k].channel_name) {
        let i = channel_idx(t, s[k].channel_name);
        assert(0 <= i < t.len() && t[i].channel_name == s[k].channel_name);
        if i < k {
            assert(t[i] == s[i]);
        } else {
            assert(t[i] == s[i + 1]);
        }
        assert(false);
    }
    assert forall|n: Seq<char>|
        n != s[k].channel_name && #[trigger] has_channel(t, n) implies has_channel(s, n) by {
        let i = channel_idx(t, n);
        assert(0 <= i < t.len() && t[i].channel_name == n);
        if i < k {
            assert(t[i] == s[i]);
        } else {
            assert(t[i] == s[i + 1]);
        }
    }
    assert forall|n: Seq<char>|
        n != s[k].channel_name && #[trigger] has_channel(s, n) implies has_channel(t, n) by {
        let i = channel_idx(s, n);
        assert(0 <= i < s.len() && s[i].channel_name == n);
        assert(i != k);
        if i < k {
            assert(t[i] == s[i]);
        } else {
            assert(t[i - 1] == s[i]);
        }
    }
    assert forall|n: Seq<char>|
        n != s[k].channel_name && has_channel(s, n) implies #[trigger] channel_at(t, n)
        == channel_at(s, n) by {
        let i = channel_idx(s, n);
        assert(0 <= i < s.len() && s[i].channel_name == n);
        assert(i != k);
        assert(has_channel(t, n));
        let i2 = channel_idx(t, n);
        assert(0 <= i2 < t.len() && t[i2].channel_name == n);
        let orig = if i2 < k {
            i2
        } else {
            i2 + 1
        };
        if i2 < k {
            assert(t[i2] == s[i2]);
        } else {
            assert(t[i2] == s[i2 + 1]);
        }
        assert(s[orig].channel_name == n);
        assert(orig == i);
    }
}

} // verus!
