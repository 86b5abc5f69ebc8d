//! The server's self-description.
//!
//! A server sends one `ServerIdentity` right after a connection is
//! established: its name, version and namespace, the channels it offers,
//! and opaque metadata. Later channel changes may be pushed as
//! `ChannelUpdate` events. Both are carried as field-list payloads (see
//! [`crate::fields`]) inside a protocol message with the reserved method
//! name `__identity`.

use vstd::prelude::*;
use vstd::utf8::{decode_utf8, encode_utf8, valid_utf8};

use crate::error::NetworkError;
use crate::fields::{
    encode_fields, encode_fields_vec, fields_encodable, parse_fields, parse_fields_vec,
    MAX_FIELD_LEN,
};
use crate::message::{MessageType, MessageView, ProtocolMessage};
use crate::strutil::{string_from_utf8, string_to_bytes};

verus! {

/// Who may send on a channel.
#[derive(Debug, Clone, Copy, PartialEq, Eq, Structural)]
pub enum ChannelDirection {
    ServerToClient,
    ClientToServer,
    Bidirectional,
}

/// Whether a channel is ready for use.
#[derive(Debug, Clone, Copy, PartialEq, Eq, Structural)]
pub enum ChannelStatus {
    Available,
    Busy,
    Unavailable,
}

/// The wire tag of a channel direction.
pub open spec fn tag_of_direction(d: ChannelDirection) -> u8 {
    match d {
        ChannelDirection::ServerToClient => 0,
        ChannelDirection::ClientToServer => 1,
        ChannelDirection::Bidirectional => 2,
    }
}

/// The channel direction of a wire tag.
pub open spec fn direction_of_tag(tag: u8) -> ChannelDirection
    recommends
        tag <= 2,
{
    if tag == 0 {
        ChannelDirection::ServerToClient
    } else if tag == 1 {
        ChannelDirection::ClientToServer
    } else {
        ChannelDirection::Bidirectional
    }
}

/// The wire tag of a channel status.
pub open spec fn tag_of_status(s: ChannelStatus) -> u8 {
    match s {
        ChannelStatus::Available => 0,
        ChannelStatus::Busy => 1,
        ChannelStatus::Unavailable => 2,
    }
}

/// The channel status of a wire tag.
pub open spec fn status_of_tag(tag: u8) -> ChannelStatus
    recommends
        tag <= 2,
{
    if tag == 0 {
        ChannelStatus::Available
    } else if tag == 1 {
        ChannelStatus::Busy
    } else {
        ChannelStatus::Unavailable
    }
}

/// The wire tag of a channel direction, computed.
pub fn direction_tag(d: ChannelDirection) -> (r: u8)
    ensures
        r == tag_of_direction(d),
{
    match d {
        ChannelDirection::ServerToClient => 0,
        ChannelDirection::ClientToServer => 1,
        ChannelDirection::Bidirectional => 2,
    }
}

/// The channel direction of a wire tag, computed.
pub fn direction_from_tag(tag: u8) -> (r: ChannelDirection)
    requires
        tag <= 2,
    ensures
        r == direction_of_tag(tag),
{
    if tag == 0 {
        ChannelDirection::ServerToClient
    } else if tag == 1 {
        ChannelDirection::ClientToServer
    } else {
        ChannelDirection::Bidirectional
    }
}

/// The wire tag of a channel status, computed.
pub fn status_tag(s: ChannelStatus) -> (r: u8)
    ensures
        r == tag_of_status(s),
{
    match s {
        ChannelStatus::Available => 0,
        ChannelStatus::Busy => 1,
        ChannelStatus::Unavailable => 2,
    }
}

/// The channel status of a wire tag, computed.
pub fn status_from_tag(tag: u8) -> (r: ChannelStatus)
    requires
        tag <= 2,
    ensures
        r == status_of_tag(tag),
{
    if tag == 0 {
        ChannelStatus::Available
    } else if tag == 1 {
        ChannelStatus::Busy
    } else {
        ChannelStatus::Unavailable
    }
}

/// The mathematical model of one channel descriptor.
#[verifier::ext_equal]
pub ghost struct ChannelInfoView {
    pub name: Seq<char>,
    pub direction: ChannelDirection,
    pub lifetime: Seq<char>,
    pub status: ChannelStatus,
}

/// One channel descriptor in the server's self-description.
#[derive(Debug, Clone)]
pub struct ChannelInfo {
    pub name: String,
    pub direction: ChannelDirection,
    /// Informational lifetime hint (`persistent` or `transient`); it
    /// does not change wire behavior.
    pub lifetime: String,
    pub status: ChannelStatus,
}

impl View for ChannelInfo {
    type V = ChannelInfoView;

    open spec fn view(&self) -> ChannelInfoView {
        ChannelInfoView {
            name: self.name@,
            direction: self.direction,
            lifetime: self.lifetime@,
            status: self.status,
        }
    }
}

impl DeepView for ChannelInfo {
    type V = ChannelInfoView;

    open spec fn deep_view(&self) -> ChannelInfoView {
        self.view()
    }
}

/// The mathematical model of a server identity.
#[verifier::ext_equal]
pub ghost struct IdentityView {
    pub name: Seq<char>,
    pub version: Seq<char>,
    pub namespace: Seq<char>,
    pub channels: Seq<ChannelInfoView>,
    pub metadata: Seq<char>,
}

/// The server's self-description, sent once per connection.
#[derive(Debug, Clone)]
pub struct ServerIdentity {
    pub name: String,
    pub version: String,
    pub namespace: String,
    pub channels: Vec<ChannelInfo>,
    /// Opaque metadata, carried as text.
    pub metadata: String,
}

impl View for ServerIdentity {
    type V = IdentityView;

    open spec fn view(&self) -> IdentityView {
        IdentityView {
            name: self.name@,
            version: self.version@,
            namespace: self.namespace@,
            channels: self.channels.deep_view(),
            metadata: self.metadata@,
        }
    }
}

/// The field list of one channel descriptor: name, direction tag,
/// lifetime, status tag.
pub open spec fn channel_info_fields(c: ChannelInfoView) -> Seq<Seq<u8>> {
    seq![
        encode_utf8(c.name),
        seq![tag_of_direction(c.direction)],
        encode_utf8(c.lifetime),
        seq![tag_of_status(c.status)],
    ]
}

/// The block of one channel descriptor: its field list, encoded.
pub open spec fn channel_info_block(c: ChannelInfoView) -> Seq<u8> {
    encode_fields(channel_info_fields(c))
}

/// True when one channel descriptor's strings fit their field prefixes
/// and its block fits an outer field.
pub open spec fn channel_info_encodable(c: ChannelInfoView) -> bool {
    &&& encode_utf8(c.name).len() <= MAX_FIELD_LEN
    &&& encode_utf8(c.lifetime).len() <= MAX_FIELD_LEN
    &&& channel_info_block(c).len() <= MAX_FIELD_LEN
}

/// The field list of a server identity: the four strings, then one block
/// per channel.
pub open spec fn identity_fields(v: IdentityView) -> Seq<Seq<u8>> {
    seq![
        encode_utf8(v.name),
        encode_utf8(v.version),
        encode_utf8(v.namespace),
        encode_utf8(v.metadata),
    ] + v.channels.map(|i: int, c: ChannelInfoView| channel_info_block(c))
}

/// The payload bytes of a server identity.
pub open spec fn identity_payload(v: IdentityView) -> Seq<u8> {
    encode_fields(identity_fields(v))
}

/// True when an identity's strings and channel blocks fit their field
/// prefixes.
pub open spec fn identity_encodable(v: IdentityView) -> bool {
    &&& encode_utf8(v.name).len() <= MAX_FIELD_LEN
    &&& encode_utf8(v.version).len() <= MAX_FIELD_LEN
    &&& encode_utf8(v.namespace).len() <= MAX_FIELD_LEN
    &&& encode_utf8(v.metadata).len() <= MAX_FIELD_LEN
    &&& forall|i: int|
        0 <= i < v.channels.len() ==> channel_info_encodable(#[trigger] v.channels[i])
}

/// The parse of one channel descriptor block.
pub open spec fn parse_channel_info(block: Seq<u8>) -> Option<ChannelInfoView> {
    match parse_fields(block) {
        Some(fs) => {
            if fs.len() == 4 && valid_utf8(fs[0]) && fs[1].len() == 1 && fs[1][0] <= 2
                && valid_utf8(fs[2]) && fs[3].len() == 1 && fs[3][0] <= 2 {
                Some(
                    ChannelInfoView {
                        name: decode_utf8(fs[0]),
                        direction: direction_of_tag(fs[1][0]),
                        lifetime: decode_utf8(fs[2]),
                        status: status_of_tag(fs[3][0]),
                    },
                )
            } else {
                None
            }
        },
        None => None,
    }
}

/// The parse of a server identity payload.
pub open spec fn parse_identity(buf: Seq<u8>) -> Option<IdentityView> {
    match parse_fields(buf) {
        Some(fs) => {
            if fs.len() >= 4 && valid_utf8(fs[0]) && valid_utf8(fs[1]) && valid_utf8(fs[2])
                && valid_utf8(fs[3]) && (forall|i: int|
                4 <= i < fs.len() ==> parse_channel_info(#[trigger] fs[i]) is Some) {
                Some(
                    IdentityView {
                        name: decode_utf8(fs[0]),
                        version: decode_utf8(fs[1]),
                        namespace: decode_utf8(fs[2]),
                        metadata: decode_utf8(fs[3]),
                        channels: Seq::new(
                            (fs.len() - 4) as nat,
                            |i: int| parse_channel_info(fs[i + 4])->0,
                        ),
                    },
                )
            } else {
                None
            }
        },
        None => None,
    }
}

/// Parsing the block of a channel descriptor yields the descriptor back.
pub proof fn lemma_channel_info_round_trip(c: ChannelInfoView)
    requires
        channel_info_encodable(c),
    ensures
        parse_channel_info(channel_info_block(c)) == Some(c),
{
    broadcast use vstd::utf8::encode_utf8_decode_utf8;
    broadcast use vstd::utf8::encode_utf8_valid_utf8;

    let fs = channel_info_fields(c);
    assert(fields_encodable(fs)) by {
        assert(fs[0] == encode_utf8(c.name));
        assert(fs[1].len() == 1);
        assert(fs[2] == encode_utf8(c.lifetime));
        assert(fs[3].len() == 1);
    }
    crate::fields::lemma_fields_round_trip(fs);
    assert(parse_channel_info(channel_info_block(c))->0 =~= c);
}

/// Parsing the payload of a server identity yields the identity back.
pub proof fn lemma_identity_round_trip(v: IdentityView)
    requires
        identity_encodable(v),
    ensures
        parse_identity(identity_payload(v)) == Some(v),
{
    broadcast use vstd::utf8::encode_utf8_decode_utf8;
    broadcast use vstd::utf8::encode_utf8_valid_utf8;

    let blocks = v.channels.map(|i: int, c: ChannelInfoView| channel_info_block(c));
    let fs = identity_fields(v);
    assert(fields_encodable(fs)) by {
        assert forall|i: int| 0 <= i < fs.len() implies (#[trigger] fs[i]).len()
            <= MAX_FIELD_LEN by {
            if i >= 4 {
                assert(fs[i] == channel_info_block(v.channels[i - 4]));
            }
        }
    }
    crate::fields::lemma_fields_round_trip(fs);
    assert forall|i: int| 4 <= i < fs.len() implies parse_channel_info(
        #[trigger] fs[i],
    ) is Some by {
        assert(fs[i] == channel_info_block(v.channels[i - 4]));
        lemma_channel_info_round_trip(v.channels[i - 4]);
    }
    let parsed = parse_identity(identity_payload(v))->0;
    assert forall|i: int| 0 <= i < v.channels.len() implies parsed.channels[i] == v.channels[i] by {
        assert(fs[i + 4] == channel_info_block(v.channels[i]));
        lemma_channel_info_round_trip(v.channels[i]);
    }
    assert(parsed.channels =~= v.channels);
    assert(parsed =~= v);
}

/// Encodes one channel descriptor as its block.
///
/// Fails exactly when the name or the lifetime cannot fit a field.
pub fn channel_info_block_vec(c: &ChannelInfo) -> (r: Result<Vec<u8>, NetworkError>)
    ensures
        r is Ok <==> encode_utf8(c@.name).len() <= MAX_FIELD_LEN && encode_utf8(c@.lifetime).len()
            <= MAX_FIELD_LEN,
        r is Ok ==> r->Ok_0@ == channel_info_block(c@),
{
    let mut fs: Vec<Vec<u8>> = Vec::new();
    fs.push(string_to_bytes(c.name.as_str()));
    let mut d: Vec<u8> = Vec::new();
    d.push(direction_tag(c.direction));
    fs.push(d);
    fs.push(string_to_bytes(c.lifetime.as_str()));
    let mut s: Vec<u8> = Vec::new();
    s.push(status_tag(c.status));
    fs.push(s);
    proof {
        assert(fs.deep_view() =~~= channel_info_fields(c@));
        let gfs = channel_info_fields(c@);
        assert(fields_encodable(gfs) <==> (encode_utf8(c@.name).len() <= MAX_FIELD_LEN
            && encode_utf8(c@.lifetime).len() <= MAX_FIELD_LEN)) by {
            assert(gfs[0] == encode_utf8(c@.name));
            assert(gfs[1].len() == 1);
            assert(gfs[2] == encode_utf8(c@.lifetime));
            assert(gfs[3].len() == 1);
        }
    }
    encode_fields_vec(&fs)
}

/// Decodes one channel descriptor from its block.
pub fn channel_info_from_block(block: &[u8]) -> (r: Result<ChannelInfo, NetworkError>)
    ensures
        r is Ok <==> parse_channel_info(block@) is Some,
        r is Ok ==> r->Ok_0@ == parse_channel_info(block@)->0,
{
    let fs = match parse_fields_vec(block) {
        Ok(fs) => fs,
        Err(e) => {
            return Err(e);
        },
    };
    let ghost gfs = parse_fields(block@)->0;
    if fs.len() != 4 {
        return Err(NetworkError::Serialization(String::from_str("malformed channel descriptor")));
    }
    let mut name_bytes: Vec<u8> = Vec::new();
    name_bytes.extend_from_slice(fs[0].as_slice());
    proof {
        assert(name_bytes@ =~= gfs[0]);
    }
    let name = match string_from_utf8(name_bytes) {
        Some(s) => s,
        None => {
            return Err(NetworkError::Serialization(String::from_str("channel name is not utf-8")));
        },
    };
    if fs[1].len() != 1 || fs[1][0] > 2 {
        return Err(NetworkError::Serialization(String::from_str("bad channel direction")));
    }
    let direction = direction_from_tag(fs[1][0]);
    let mut lt_bytes: Vec<u8> = Vec::new();
    lt_bytes.extend_from_slice(fs[2].as_slice());
    proof {
        assert(lt_bytes@ =~= gfs[2]);
    }
    let lifetime = match string_from_utf8(lt_bytes) {
        Some(s) => s,
        None => {
            return Err(
                NetworkError::Serialization(String::from_str("channel lifetime is not utf-8")),
            );
        },
    };
    if fs[3].len() != 1 || fs[3][0] > 2 {
        return Err(NetworkError::Serialization(String::from_str("bad channel status")));
    }
    let status = status_from_tag(fs[3][0]);
    let c = ChannelInfo { name, direction, lifetime, status };
    proof {
        broadcast use vstd::utf8::encode_utf8_decode_utf8;

        assert(c@ =~= parse_channel_info(block@)->0);
    }
    Ok(c)
}

impl ServerIdentity {
    /// A fresh identity with no channels and empty metadata.
    pub fn new(name: &str, version: &str, namespace: &str) -> (r: ServerIdentity)
        ensures
            r@.name == name@,
            r@.version == version@,
            r@.namespace == namespace@,
            r@.channels.len() == 0,
            r@.metadata.len() == 0,
    {
        let r = ServerIdentity {
            name: name.to_owned(),
            version: version.to_owned(),
            namespace: namespace.to_owned(),
            channels: Vec::new(),
            metadata: String::new(),
        };
        proof {
            assert(r@.channels =~= Seq::<ChannelInfoView>::empty());
        }
        r
    }

    /// Appends one channel descriptor.
    pub fn add_channel(&mut self, channel: ChannelInfo)
        ensures
            final(self)@.channels == old(self)@.channels.push(channel@),
            final(self)@.name == old(self)@.name,
            final(self)@.version == old(self)@.version,
            final(self)@.namespace == old(self)@.namespace,
            final(self)@.metadata == old(self)@.metadata,
    {
        let ghost cv = channel@;
        self.channels.push(channel);
        proof {
            assert(self.channels.deep_view() =~= old(self).channels.deep_view().push(cv));
        }
    }

    /// Encodes the identity as a payload byte string.
    ///
    /// Fails exactly when some string or channel descriptor cannot fit
    /// its field.
    pub fn to_payload(&self) -> (r: Result<Vec<u8>, NetworkError>)
        ensures
            r is Ok <==> identity_encodable(self@),
            r is Ok ==> r->Ok_0@ == identity_payload(self@),
    {
        let ghost v = self@;
        let ghost goal = identity_fields(v);
        let mut fs: Vec<Vec<u8>> = Vec::new();
        fs.push(string_to_bytes(self.name.as_str()));
        fs.push(string_to_bytes(self.version.as_str()));
        fs.push(string_to_bytes(self.namespace.as_str()));
        fs.push(string_to_bytes(self.metadata.as_str()));
        let n = self.channels.len();
        let mut k: usize = 0;
        while k < n
            invariant
                n == self.channels@.len(),
                0 <= k <= n,
                v == self@,
                goal == identity_fields(v),
                goal.len() == 4 + n,
                fs.deep_view().len() == 4 + k,
                forall|i: int| 0 <= i < 4 + k ==> #[trigger] fs.deep_view()[i] == goal[i],
                forall|i: int|
                    0 <= i < k ==> encode_utf8((#[trigger] v.channels[i]).name).len()
                        <= MAX_FIELD_LEN && encode_utf8(v.channels[i].lifetime).len()
                        <= MAX_FIELD_LEN,
            decreases n - k,
        {
            proof {
                assert(self.channels.deep_view()[k as int] == self.channels@[k as int]@);
            }
            let block = match channel_info_block_vec(&self.channels[k]) {
                Ok(b) => b,
                Err(e) => {
                    return Err(e);
                },
            };
            let ghost prev = fs.deep_view();
            fs.push(block);
            proof {
                assert(fs.deep_view() =~~= prev.push(block@));
                assert(goal[4 + k as int] == channel_info_block(v.channels[k as int]));
            }
            k = k + 1;
        }
        proof {
            assert(fs.deep_view() =~~= goal);
        }
        let out = match encode_fields_vec(&fs) {
            Ok(o) => o,
            Err(e) => {
                proof {
                    assert(!fields_encodable(goal));
                    if identity_encodable(v) {
                        assert forall|i: int| 0 <= i < goal.len() implies (#[trigger] goal[i]).len()
                            <= MAX_FIELD_LEN by {
                            if i >= 4 {
                                assert(goal[i] == channel_info_block(v.channels[i - 4]));
                                assert(channel_info_encodable(v.channels[i - 4]));
                            }
                        }
                        assert(false);
                    }
                }
                return Err(e);
            },
        };
        proof {
            assert(fields_encodable(goal));
            assert(identity_encodable(v)) by {
                assert(goal[0] == encode_utf8(v.name));
                assert(goal[1] == encode_utf8(v.version));
                assert(goal[2] == encode_utf8(v.namespace));
                assert(goal[3] == encode_utf8(v.metadata));
                assert forall|i: int| 0 <= i < v.channels.len() implies channel_info_encodable(
                    #[trigger] v.channels[i],
                ) by {
                    assert(goal[i + 4] == channel_info_block(v.channels[i]));
                }
            }
        }
        Ok(out)
    }

    /// Decodes an identity from a payload byte string.
    pub fn from_payload(buf: &[u8]) -> (r: Result<ServerIdentity, NetworkError>)
        ensures
            r is Ok <==> parse_identity(buf@) is Some,
            r is Ok ==> r->Ok_0@ == parse_identity(buf@)->0,
    {
        let fs = match parse_fields_vec(buf) {
            Ok(fs) => fs,
            Err(e) => {
                return Err(e);
            },
        };
        let ghost gfs = parse_fields(buf@)->0;
        if fs.len() < 4 {
            return Err(NetworkError::Serialization(String::from_str("identity payload too short")));
        }
        let mut name_bytes: Vec<u8> = Vec::new();
        name_bytes.extend_from_slice(fs[0].as_slice());
        let mut version_bytes: Vec<u8> = Vec::new();
        version_bytes.extend_from_slice(fs[1].as_slice());
        let mut ns_bytes: Vec<u8> = Vec::new();
        ns_bytes.extend_from_slice(fs[2].as_slice());
        let mut meta_bytes: Vec<u8> = Vec::new();
        meta_bytes.extend_from_slice(fs[3].as_slice());
        proof {
            assert(name_bytes@ =~= gfs[0]);
            assert(version_bytes@ =~= gfs[1]);
            assert(ns_bytes@ =~= gfs[2]);
            assert(meta_bytes@ =~= gfs[3]);
        }
        let name = match string_from_utf8(name_bytes) {
            Some(s) => s,
            None => {
                return Err(NetworkError::Serialization(String::from_str("name is not utf-8")));
            },
        };
        let version = match string_from_utf8(version_bytes) {
            Some(s) => s,
            None => {
                return Err(NetworkError::Serialization(String::from_str("version is not utf-8")));
            },
        };
        let namespace = match string_from_utf8(ns_bytes) {
            Some(s) => s,
            None => {
                return Err(
                    NetworkError::Serialization(String::from_str("namespace is not utf-8")),
                );
            },
        };
        let metadata = match string_from_utf8(meta_bytes) {
            Some(s) => s,
            None => {
                return Err(NetworkError::Serialization(String::from_str("metadata is not utf-8")));
            },
        };
        let n = fs.len();
        let mut channels: Vec<ChannelInfo> = Vec::new();
        let mut k: usize = 4;
        while k < n
            invariant
                n == fs.deep_view().len(),
                gfs == fs.deep_view(),
                gfs == parse_fields(buf@)->0,
                parse_fields(buf@) is Some,
                4 <= k <= n,
                channels.deep_view().len() == k - 4,
                forall|i: int| 4 <= i < k ==> parse_channel_info(#[trigger] gfs[i]) is Some,
                forall|i: int|
                    0 <= i < k - 4 ==> #[trigger] channels.deep_view()[i] == parse_channel_info(
                        gfs[i + 4],
                    )->0,
            decreases n - k,
        {
            proof {
                assert(fs.deep_view()[k as int] == fs@[k as int]@);
            }
            let c = match channel_info_from_block(fs[k].as_slice()) {
                Ok(c) => c,
                Err(e) => {
                    proof {
                        if parse_identity(buf@) is Some {
                            assert(parse_channel_info(parse_fields(buf@)->0[k as int]) is Some);
                            assert(false);
                        }
                    }
                    return Err(e);
                },
            };
            let ghost prev = channels.deep_view();
            channels.push(c);
            proof {
                assert(channels.deep_view() =~~= prev.push(c@));
            }
            k = k + 1;
        }
        let r = ServerIdentity { name, version, namespace, channels, metadata };
        proof {
            broadcast use vstd::utf8::encode_utf8_decode_utf8;

            let parsed = parse_identity(buf@)->0;
            assert(r@.channels =~= parsed.channels);
            assert(r@ =~= parsed);
        }
        Ok(r)
    }

    /// Wraps the identity in the protocol message that carries it: the
    /// reserved method `__identity`, kind event, id zero.
    pub fn to_protocol_message(&self) -> (r: Result<ProtocolMessage, NetworkError>)
        ensures
            r is Ok <==> identity_encodable(self@),
            r is Ok ==> r->Ok_0@ == (MessageView {
                id: 0,
                method: "__identity"@,
                msg_type: MessageType::Event,
                payload: identity_payload(self@),
            }),
    {
        let payload = match self.to_payload() {
            Ok(p) => p,
            Err(e) => {
                return Err(e);
            },
        };
        let msg = ProtocolMessage {
            id: 0,
            method: String::from_str("__identity"),
            msg_type: MessageType::Event,
            payload,
        };
        proof {
            assert(msg@ =~= MessageView {
                id: 0,
                method: "__identity"@,
                msg_type: MessageType::Event,
                payload: identity_payload(self@),
            });
        }
        Ok(msg)
    }

    /// Reads an identity back out of the protocol message that carried
    /// it.
    pub fn from_protocol_message(msg: &ProtocolMessage) -> (r: Result<ServerIdentity, NetworkError>)
        ensures
            r is Ok <==> parse_identity(msg@.payload) is Some,
            r is Ok ==> r->Ok_0@ == parse_identity(msg@.payload)->0,
    {
        Self::from_payload(msg.payload.as_slice())
    }
}

/// The mathematical model of a channel change notice.
#[verifier::ext_equal]
pub ghost enum ChannelUpdateView {
    Added(ChannelInfoView),
    Removed(Seq<char>),
    StatusChanged { name: Seq<char>, status: ChannelStatus },
}

/// A live change to the channels a server offers: one was added, one was
/// removed, or one changed status.
#[derive(Debug, Clone)]
pub enum ChannelUpdate {
    Added(ChannelInfo),
    Removed(String),
    StatusChanged { name: String, status: ChannelStatus },
}

impl View for ChannelUpdate {
    type V = ChannelUpdateView;

    open spec fn view(&self) -> ChannelUpdateView {
        match self {
            ChannelUpdate::Added(c) => ChannelUpdateView::Added(c@),
            ChannelUpdate::Removed(n) => ChannelUpdateView::Removed(n@),
            ChannelUpdate::StatusChanged { name, status } => ChannelUpdateView::StatusChanged {
                name: name@,
                status: *status,
            },
        }
    }
}

/// The field list of a channel change notice: a variant tag field, then
/// the variant's data.
pub open spec fn update_fields(u: ChannelUpdateView) -> Seq<Seq<u8>> {
    match u {
        ChannelUpdateView::Added(c) => seq![seq![0u8], channel_info_block(c)],
        ChannelUpdateView::Removed(n) => seq![seq![1u8], encode_utf8(n)],
        ChannelUpdateView::StatusChanged { name, status } => seq![
            seq![2u8],
            encode_utf8(name),
            seq![tag_of_status(status)],
        ],
    }
}

/// The payload bytes of a channel change notice.
pub open spec fn update_payload(u: ChannelUpdateView) -> Seq<u8> {
    encode_fields(update_fields(u))
}

/// True when a change notice's strings fit their fields.
pub open spec fn update_encodable(u: ChannelUpdateView) -> bool {
    match u {
        ChannelUpdateView::Added(c) => channel_info_encodable(c),
        ChannelUpdateView::Removed(n) => encode_utf8(n).len() <= MAX_FIELD_LEN,
        ChannelUpdateView::StatusChanged { name, status } => encode_utf8(name).len()
            <= MAX_FIELD_LEN,
    }
}

/// The parse of a channel change notice payload.
pub open spec fn parse_update(buf: Seq<u8>) -> Option<ChannelUpdateView> {
    match parse_fields(buf) {
        Some(fs) => {
            if fs.len() >= 1 && fs[0].len() == 1 {
                let tag = fs[0][0];
                if tag == 0 && fs.len() == 2 && parse_channel_info(fs[1]) is Some {
                    Some(ChannelUpdateView::Added(parse_channel_info(fs[1])->0))
                } else if tag == 1 && fs.len() == 2 && valid_utf8(fs[1]) {
                    Some(ChannelUpdateView::Removed(decode_utf8(fs[1])))
                } else if tag == 2 && fs.len() == 3 && valid_utf8(fs[1]) && fs[2].len() == 1
                    && fs[2][0] <= 2 {
                    Some(
                        ChannelUpdateView::StatusChanged {
                            name: decode_utf8(fs[1]),
                            status: status_of_tag(fs[2][0]),
                        },
                    )
                } else {
                    None
                }
            } else {
                None
            }
        },
        None => None,
    }
}

/// Parsing the payload of a channel change notice yields the notice
/// back.
#[verifier::rlimit(60)]
pub proof fn lemma_update_round_trip(u: ChannelUpdateView)
    requires
        update_encodable(u),
    ensures
        parse_update(update_payload(u)) == Some(u),
{
    broadcast use vstd::utf8::encode_utf8_decode_utf8;
    broadcast use vstd::utf8::encode_utf8_valid_utf8;

    let fs = update_fields(u);
    assert(fields_encodable(fs)) by {
        match u {
            ChannelUpdateView::Added(c) => {
                assert(fs[0].len() == 1);
                assert(fs[1] == channel_info_block(c));
            },
            ChannelUpdateView::Removed(n) => {
                assert(fs[0].len() == 1);
                assert(fs[1] == encode_utf8(n));
            },
            ChannelUpdateView::StatusChanged { name, status } => {
                assert(fs[0].len() == 1);
                assert(fs[1] == encode_utf8(name));
                assert(fs[2].len() == 1);
            },
        }
    }
    crate::fields::lemma_fields_round_trip(fs);
    match u {
        ChannelUpdateView::Added(c) => {
            lemma_channel_info_round_trip(c);
            assert(parse_update(update_payload(u))->0 =~= u);
        },
        ChannelUpdateView::Removed(n) => {
            assert(parse_update(update_payload(u))->0 =~= u);
        },
        ChannelUpdateView::StatusChanged { name, status } => {
            assert(parse_update(update_payload(u))->0 =~= u);
        },
    }
}

impl ChannelUpdate {
    /// Encodes the change notice as a payload byte string.
    pub fn to_payload(&self) -> (r: Result<Vec<u8>, NetworkError>)
        ensures
            r is Ok <==> update_encodable(self@),
            r is Ok ==> r->Ok_0@ == update_payload(self@),
    {
        let mut fs: Vec<Vec<u8>> = Vec::new();
        match self {
            ChannelUpdate::Added(c) => {
                let block = match channel_info_block_vec(c) {
                    Ok(b) => b,
                    Err(e) => {
                        return Err(e);
                    },
                };
                let mut tag: Vec<u8> = Vec::new();
                tag.push(0);
                fs.push(tag);
                fs.push(block);
            },
            ChannelUpdate::Removed(n) => {
                let mut tag: Vec<u8> = Vec::new();
                tag.push(1);
                fs.push(tag);
                fs.push(string_to_bytes(n.as_str()));
            },
            ChannelUpdate::StatusChanged { name, status } => {
                let mut tag: Vec<u8> = Vec::new();
                tag.push(2);
                fs.push(tag);
                fs.push(string_to_bytes(name.as_str()));
                let mut st: Vec<u8> = Vec::new();
                st.push(status_tag(*status));
                fs.push(st);
            },
        }
        proof {
            assert(fs.deep_view() =~~= update_fields(self@));
            if update_encodable(self@) {
                assert(fields_encodable(update_fields(self@))) by {
                    let gfs = update_fields(self@);
                    match self@ {
                        ChannelUpdateView::Added(c) => {
                            assert(gfs[0].len() == 1);
                            assert(gfs[1] == channel_info_block(c));
                        },
                        ChannelUpdateView::Removed(n) => {
                            assert(gfs[0].len() == 1);
                            assert(gfs[1] == encode_utf8(n));
                        },
                        ChannelUpdateView::StatusChanged { name, status } => {
                            assert(gfs[0].len() == 1);
                            assert(gfs[1] == encode_utf8(name));
                            assert(gfs[2].len() == 1);
                        },
                    }
                }
            } else {
                match self@ {
                    ChannelUpdateView::Added(c) => {
                        assert(!(channel_info_block(c).len() <= MAX_FIELD_LEN));
                        assert(update_fields(self@)[1] == channel_info_block(c));
                    },
                    ChannelUpdateView::Removed(n) => {
                        assert(update_fields(self@)[1] == encode_utf8(n));
                    },
                    ChannelUpdateView::StatusChanged { name, status } => {
                        assert(update_fields(self@)[1] == encode_utf8(name));
                    },
                }
            }
        }
        encode_fields_vec(&fs)
    }

    /// Decodes a change notice from a payload byte string.
    pub fn from_payload(buf: &[u8]) -> (r: Result<ChannelUpdate, NetworkError>)
        ensures
            r is Ok <==> parse_update(buf@) is Some,
            r is Ok ==> r->Ok_0@ == parse_update(buf@)->0,
    {
        let fs = match parse_fields_vec(buf) {
            Ok(fs) => fs,
            Err(e) => {
                return Err(e);
            },
        };
        let ghost gfs = parse_fields(buf@)->0;
        if fs.len() < 1 || fs[0].len() != 1 {
            return Err(NetworkError::Serialization(String::from_str("malformed channel update")));
        }
        let tag = fs[0][0];
        if tag == 0 && fs.len() == 2 {
            proof {
                assert(fs.deep_view()[1] == fs@[1]@);
            }
            let c = match channel_info_from_block(fs[1].as_slice()) {
                Ok(c) => c,
                Err(e) => {
                    return Err(e);
                },
            };
            let r = ChannelUpdate::Added(c);
            proof {
                assert(r@ =~= parse_update(buf@)->0);
            }
            Ok(r)
        } else if tag == 1 && fs.len() == 2 {
            let mut name_bytes: Vec<u8> = Vec::new();
            name_bytes.extend_from_slice(fs[1].as_slice());
            proof {
                assert(name_bytes@ =~= gfs[1]);
            }
            let name = match string_from_utf8(name_bytes) {
                Some(s) => s,
                None => {
                    return Err(
                        NetworkError::Serialization(String::from_str("channel name is not utf-8")),
                    );
                },
            };
            let r = ChannelUpdate::Removed(name);
            proof {
                broadcast use vstd::utf8::encode_utf8_decode_utf8;

                assert(r@ =~= parse_update(buf@)->0);
            }
            Ok(r)
        } else if tag == 2 && fs.len() == 3 {
            let mut name_bytes: Vec<u8> = Vec::new();
            name_bytes.extend_from_slice(fs[1].as_slice());
            proof {
                assert(name_bytes@ =~= gfs[1]);
            }
            let name = match string_from_utf8(name_bytes) {
                Some(s) => s,
                None => {
                    return Err(
                        NetworkError::Serialization(String::from_str("channel name is not utf-8")),
                    );
                },
            };
            if fs[2].len() != 1 || fs[2][0] > 2 {
                return Err(NetworkError::Serialization(String::from_str("bad channel status")));
            }
            let status = status_from_tag(fs[2][0]);
            let r = ChannelUpdate::StatusChanged { name, status };
            proof {
                broadcast use vstd::utf8::encode_utf8_decode_utf8;

                assert(r@ =~= parse_update(buf@)->0);
            }
            Ok(r)
        } else {
            Err(NetworkError::Serialization(String::from_str("unknown channel update tag")))
        }
    }
}

} // verus!
