//! Broadcast rendezvous between a sender and its receivers: the request and
//! reply wire forms, the sender's client set, and the receiver's wait for
//! the first well-formed reply.

use vstd::prelude::*;
use vstd::seq_lib::*;
use vstd::string::StringExecFns;

use crate::wire::{
    all_digits, dec_digits, dec_value, is_ascii_space, lemma_dec_digits_value, parse_dec_u16,
    push_dec, trim_ascii, trimmed,
};
use crate::AudioStreamerError;

verus! {

broadcast use vstd::set::group_set_axioms;

/// Well-known UDP port the discovery protocol runs on.
pub const DISCOVERY_PORT: u16 = 50000;

/// Default UDP port of the audio stream itself.
pub const DEFAULT_STREAM_PORT: u16 = 50001;

/// Milliseconds between two proactive presence broadcasts of a sender.
pub const DISCOVERY_INTERVAL_MS: u64 = 1000;

/// Milliseconds a receiver waits for a reply before discovery fails.
pub const DISCOVERY_TIMEOUT_MS: u64 = 5000;

/// A stream listener: an IPv4 address (as its 32-bit big-endian value)
/// and a UDP port.
#[derive(Clone, Copy, PartialEq, Eq, Structural, Debug)]
pub struct Endpoint {
    pub ip: u32,
    pub port: u16,
}

/// The ASCII bytes of the literal request `DISCOVER`.
pub open spec fn discover_request() -> Seq<u8> {
    seq![0x44u8, 0x49u8, 0x53u8, 0x43u8, 0x4fu8, 0x56u8, 0x45u8, 0x52u8]
}

/// The ASCII bytes of the reply prefix `SERVER:`.
pub open spec fn server_prefix() -> Seq<u8> {
    seq![0x53u8, 0x45u8, 0x52u8, 0x56u8, 0x45u8, 0x52u8, 0x3au8]
}

/// The full reply `SERVER:<port>`, the port in decimal ASCII.
pub open spec fn server_message_spec(port: u16) -> Seq<u8> {
    server_prefix() + dec_digits(port as nat)
}

/// Builds the request datagram `DISCOVER`.
pub fn discover_request_bytes() -> (out: Vec<u8>)
    ensures
        out@ =~= discover_request(),
{
    let mut out: Vec<u8> = Vec::new();
    out.push(0x44);
    out.push(0x49);
    out.push(0x53);
    out.push(0x43);
    out.push(0x4f);
    out.push(0x56);
    out.push(0x45);
    out.push(0x52);
    out
}

/// Builds the reply datagram `SERVER:<port>`.
pub fn server_message(port: u16) -> (out: Vec<u8>)
    ensures
        out@ =~= server_message_spec(port),
{
    let mut out: Vec<u8> = Vec::new();
    out.push(0x53);
    out.push(0x45);
    out.push(0x52);
    out.push(0x56);
    out.push(0x45);
    out.push(0x52);
    out.push(0x3a);
    assert(out@ =~= server_prefix());
    push_dec(&mut out, port);
    out
}

/// Tests a datagram for the literal request `DISCOVER`.
#[verifier::loop_isolation(false)]
pub fn is_discover(data: &Vec<u8>) -> (r: bool)
    ensures
        r == (data@ == discover_request()),
{
    let expected = discover_request_bytes();
    if data.len() != expected.len() {
        assert(data@ != discover_request());
        return false;
    }
    let mut i: usize = 0;
    while i < data.len()
        invariant
            0 <= i <= data@.len(),
            data@.len() == discover_request().len(),
            forall|j: int| 0 <= j < i ==> data@[j] == discover_request()[j],
        decreases data@.len() - i,
    {
        if data[i] != expected[i] {
            assert(data@[i as int] != discover_request()[i as int]);
            return false;
        }
        i = i + 1;
    }
    proof {
        assert(data@ =~= discover_request());
    }
    true
}

/// The port announced by a reply, when the reply is well formed: the
/// prefix `SERVER:` followed (up to ASCII whitespace) by decimal digits
/// whose value fits a port number.
pub open spec fn reply_port(data: Seq<u8>) -> Option<u16> {
    if data.len() >= 7 && data.subrange(0, 7) == server_prefix() {
        let digits = trimmed(data.skip(7));
        if digits.len() > 0 && all_digits(digits) && dec_value(digits) <= 65535 {
            Some(dec_value(digits) as u16)
        } else {
            None
        }
    } else {
        None
    }
}

/// Parses a reply datagram `SERVER:<port>`. Anything else yields nothing.
#[verifier::loop_isolation(false)]
pub fn parse_server_reply(data: &Vec<u8>) -> (r: Option<u16>)
    ensures
        r == reply_port(data@),
{
    if data.len() < 7 {
        return None;
    }
    let mut i: usize = 0;
    while i < 7
        invariant
            0 <= i <= 7,
            data@.len() >= 7,
            forall|j: int| 0 <= j < i ==> data@[j] == server_prefix()[j],
        decreases 7 - i,
    {
        let expect: u8 = if i == 0 {
            0x53
        } else if i == 1 {
            0x45
        } else if i == 2 {
            0x52
        } else if i == 3 {
            0x56
        } else if i == 4 {
            0x45
        } else if i == 5 {
            0x52
        } else {
            0x3a
        };
        if data[i] != expect {
            assert(data@.subrange(0, 7)[i as int] != server_prefix()[i as int]);
            return None;
        }
        i = i + 1;
    }
    assert(data@.subrange(0, 7) =~= server_prefix());
    let mut rest: Vec<u8> = Vec::new();
    let mut k: usize = 7;
    while k < data.len()
        invariant
            7 <= k <= data@.len(),
            rest@ =~= data@.subrange(7, k as int),
        decreases data@.len() - k,
    {
        rest.push(data[k]);
        assert(rest@ =~= data@.subrange(7, k as int + 1));
        k = k + 1;
    }
    assert(rest@ =~= data@.skip(7));
    let digits = trim_ascii(&rest);
    parse_dec_u16(&digits)
}

/// Every announcement parses back to the port it was built from.
pub proof fn lemma_server_message_round_trip(port: u16)
    ensures
        reply_port(server_message_spec(port)) == Some(port),
{
    let msg = server_message_spec(port);
    lemma_dec_digits_value(port as nat);
    let digits = dec_digits(port as nat);
    assert(msg.subrange(0, 7) =~= server_prefix());
    assert(msg.skip(7) =~= digits);
    lemma_trim_digits(digits);
}

/// A non-empty all-digit string has no surrounding whitespace to trim.
proof fn lemma_trim_digits(s: Seq<u8>)
    requires
        s.len() > 0,
        all_digits(s),
    ensures
        trimmed(s) =~= s,
{
    assert(!is_ascii_space(s[0]));
    assert(!is_ascii_space(s.last()));
    assert(crate::wire::first_non_space(s, 0) == 0);
    assert(crate::wire::last_non_space(s) == s.len());
    assert(s.subrange(0, s.len() as int) =~= s);
}

/// The sender's record of listening endpoints. Membership only ever grows:
/// an endpoint is added on its first discovery request and never removed.
pub struct ClientSet {
    members: Vec<Endpoint>,
}

impl View for ClientSet {
    type V = Set<Endpoint>;

    closed spec fn view(&self) -> Set<Endpoint> {
        self.members@.to_set()
    }
}

impl ClientSet {
    /// The members vector holds each endpoint once.
    pub closed spec fn wf(self) -> bool {
        self.members@.no_duplicates()
    }

    /// An empty client set.
    pub fn new() -> (s: Self)
        ensures
            s.wf(),
            s@ == Set::<Endpoint>::empty(),
            s@.len() == 0,
    {
        let s = ClientSet { members: Vec::new() };
        proof {
            assert(s.members@.to_set() =~= Set::<Endpoint>::empty());
        }
        s
    }

    /// Membership test.
    #[verifier::loop_isolation(false)]
    pub fn contains(&self, e: Endpoint) -> (r: bool)
        ensures
            r == self@.contains(e),
    {
        let mut i: usize = 0;
        while i < self.members.len()
            invariant
                0 <= i <= self.members@.len(),
                forall|j: int| 0 <= j < i ==> self.members@[j] != e,
            decreases self.members@.len() - i,
        {
            if self.members[i] == e {
                assert(self.members@.to_set().contains(e)) by {
                    assert(self.members@.contains(e));
                }
                return true;
            }
            i = i + 1;
        }
        assert(!self.members@.contains(e));
        false
    }

    /// Number of distinct members.
    pub fn len(&self) -> (n: usize)
        requires
            self.wf(),
        ensures
            n == self@.len(),
    {
        proof {
            self.members@.unique_seq_to_set();
        }
        self.members.len()
    }

    /// Adds an endpoint. The set gains the endpoint; its size grows by one
    /// exactly when the endpoint was new, and stays unchanged otherwise.
    pub fn insert(&mut self, e: Endpoint)
        requires
            old(self).wf(),
        ensures
            final(self).wf(),
            final(self)@ == old(self)@.insert(e),
            final(self)@.len() == old(self)@.len() + (if old(self)@.contains(e) {
                0int
            } else {
                1int
            }),
    {
        proof {
            self.members@.unique_seq_to_set();
        }
        if !self.contains(e) {
            let ghost before = self.members@;
            self.members.push(e);
            proof {
                broadcast use vstd::seq_lib::group_seq_properties;

                assert(self.members@ =~= before.push(e));
                assert(self.members@.to_set() =~= before.to_set().insert(e));
                lemma_no_dup_push(before, e);
                self.members@.unique_seq_to_set();
            }
        } else {
            proof {
                assert(self.members@.to_set() =~= self.members@.to_set().insert(e));
            }
        }
    }

    /// A point-in-time copy of the membership, for fan-out while new
    /// clients may subscribe concurrently.
    #[verifier::loop_isolation(false)]
    pub fn snapshot(&self) -> (v: Vec<Endpoint>)
        requires
            self.wf(),
        ensures
            v@.to_set() == self@,
            v@.no_duplicates(),
            v@.len() == self@.len(),
    {
        proof {
            self.members@.unique_seq_to_set();
        }
        let mut v: Vec<Endpoint> = Vec::new();
        let mut i: usize = 0;
        while i < self.members.len()
            invariant
                0 <= i <= self.members@.len(),
                v@ =~= self.members@.subrange(0, i as int),
            decreases self.members@.len() - i,
        {
            v.push(self.members[i]);
            assert(v@ =~= self.members@.subrange(0, i as int + 1));
            i = i + 1;
        }
        assert(v@ =~= self.members@);
        v
    }
}

/// Pushing an element a sequence does not contain keeps it duplicate-free.
proof fn lemma_no_dup_push(s: Seq<Endpoint>, e: Endpoint)
    requires
        s.no_duplicates(),
        !s.contains(e),
    ensures
        s.push(e).no_duplicates(),
{
    let t = s.push(e);
    assert forall|i: int, j: int| 0 <= i < j < t.len() implies t[i] != t[j] by {
        if j < t.len() - 1 {
            assert(t[i] == s[i] && t[j] == s[j]);
        } else {
            assert(t[j] == e);
            assert(t[i] == s[i]);
            assert(s.contains(s[i]));
        }
    }
}

/// One step of the sender's discovery responder. On the literal request
/// `DISCOVER` it subscribes `(requester's address, stream port)` and
/// returns the reply to send back; any other datagram is ignored.
pub fn handle_discovery_request(
    clients: &mut ClientSet,
    data: &Vec<u8>,
    requester_ip: u32,
    stream_port: u16,
) -> (reply: Option<Vec<u8>>)
    requires
        old(clients).wf(),
    ensures
        final(clients).wf(),
        data@ == discover_request() ==> {
            &&& final(clients)@ == old(clients)@.insert(
                Endpoint { ip: requester_ip, port: stream_port },
            )
            &&& reply matches Some(m) && m@ == server_message_spec(stream_port)
        },
        data@ != discover_request() ==> final(clients)@ == old(clients)@ && reply is None,
{
    if is_discover(data) {
        clients.insert(Endpoint { ip: requester_ip, port: stream_port });
        Some(server_message(stream_port))
    } else {
        None
    }
}

/// What a waiting receiver can observe: a datagram from some address, or
/// the timeout deadline elapsing.
pub enum DiscoveryEvent {
    /// A datagram arrived from the given IPv4 address before the deadline.
    Packet { data: Vec<u8>, from_ip: u32 },
    /// The deadline elapsed.
    TimedOut,
}

/// The endpoint recorded by a receiver that observes `events` in order:
/// the first well-formed reply wins; stray packets are ignored and the
/// wait continues; the timeout ends the wait with nothing.
pub open spec fn first_outcome(events: Seq<DiscoveryEvent>) -> Option<Endpoint>
    decreases events.len(),
{
    if events.len() == 0 {
        None
    } else {
        match events[0] {
            DiscoveryEvent::TimedOut => None,
            DiscoveryEvent::Packet { data, from_ip } => match reply_port(data@) {
                Some(p) => Some(Endpoint { ip: from_ip, port: p }),
                None => first_outcome(events.drop_first()),
            },
        }
    }
}

/// The receiver's wait, as a decision over the observed events. Succeeds
/// with the first well-formed reply's endpoint; fails once the timeout is
/// observed (or the events end) with no server found.
#[verifier::loop_isolation(false)]
pub fn run_discovery(events: &Vec<DiscoveryEvent>) -> (r: Result<Endpoint, AudioStreamerError>)
    ensures
        match r {
            Ok(ep) => first_outcome(events@) == Some(ep),
            Err(e) => first_outcome(events@) is None && e matches AudioStreamerError::NetworkError(
                _,
            ),
        },
{
    let mut i: usize = 0;
    assert(events@.skip(0) =~= events@);
    while i < events.len()
        invariant
            0 <= i <= events@.len(),
            first_outcome(events@) == first_outcome(events@.skip(i as int)),
        decreases events@.len() - i,
    {
        let ghost rest = events@.skip(i as int);
        assert(rest[0] == events@[i as int]);
        match &events[i] {
            DiscoveryEvent::TimedOut => {
                return Err(
                    AudioStreamerError::NetworkError(String::from_str("Server discovery timeout")),
                );
            },
            DiscoveryEvent::Packet { data, from_ip } => {
                match parse_server_reply(data) {
                    Some(p) => {
                        return Ok(Endpoint { ip: *from_ip, port: p });
                    },
                    None => {
                        assert(rest.drop_first() =~= events@.skip(i as int + 1));
                    },
                }
            },
        }
        i = i + 1;
    }
    assert(events@.skip(i as int) =~= Seq::<DiscoveryEvent>::empty());
    Err(AudioStreamerError::NetworkError(String::from_str("No server found")))
}

/// Turns the receiver's recorded server handle into a result: the handle
/// when discovery has succeeded, a network error when it has not.
pub fn server_endpoint(handle: &Option<Endpoint>) -> (r: Result<Endpoint, AudioStreamerError>)
    ensures
        match handle {
            Some(ep) => r == Ok::<Endpoint, AudioStreamerError>(*ep),
            None => r matches Err(e) && e matches AudioStreamerError::NetworkError(_),
        },
{
    match handle {
        Some(ep) => Ok(*ep),
        None => Err(AudioStreamerError::NetworkError(String::from_str("No server found"))),
    }
}

/// An event that decides nothing: a datagram that is not a well-formed
/// reply. The receiver ignores such packets and keeps waiting.
pub open spec fn is_stray(ev: DiscoveryEvent) -> bool {
    ev matches DiscoveryEvent::Packet { data, .. } && reply_port(data@) is None
}

/// All events of a sequence are stray packets.
pub open spec fn all_stray(events: Seq<DiscoveryEvent>) -> bool {
    forall|i: int| 0 <= i < events.len() ==> is_stray(#[trigger] events[i])
}

/// After any number of stray packets, the first well-formed reply wins:
/// the receiver records the replying address and the announced port,
/// whatever arrives afterwards.
pub proof fn lemma_discovery_first_reply_wins(
    noise: Seq<DiscoveryEvent>,
    data: Vec<u8>,
    from_ip: u32,
    port: u16,
    rest: Seq<DiscoveryEvent>,
)
    requires
        all_stray(noise),
        reply_port(data@) == Some(port),
    ensures
        first_outcome(noise + seq![DiscoveryEvent::Packet { data, from_ip }] + rest) == Some(
            Endpoint { ip: from_ip, port },
        ),
    decreases noise.len(),
{
    let whole = noise + seq![DiscoveryEvent::Packet { data, from_ip }] + rest;
    if noise.len() == 0 {
        assert(whole[0] == DiscoveryEvent::Packet { data, from_ip });
    } else {
        assert(whole[0] == noise[0]);
        assert(is_stray(noise[0]));
        lemma_discovery_first_reply_wins(noise.drop_first(), data, from_ip, port, rest);
        assert(whole.drop_first() =~= noise.drop_first() + seq![
            DiscoveryEvent::Packet { data, from_ip },
        ] + rest);
    }
}

/// If only stray packets arrive before the timeout, discovery finds no
/// server, whatever arrives afterwards.
pub proof fn lemma_discovery_timeout(noise: Seq<DiscoveryEvent>, rest: Seq<DiscoveryEvent>)
    requires
        all_stray(noise),
    ensures
        first_outcome(noise + seq![DiscoveryEvent::TimedOut] + rest) is None,
    decreases noise.len(),
{
    let whole = noise + seq![DiscoveryEvent::TimedOut] + rest;
    if noise.len() == 0 {
        assert(whole[0] == DiscoveryEvent::TimedOut);
    } else {
        assert(whole[0] == noise[0]);
        assert(is_stray(noise[0]));
        lemma_discovery_timeout(noise.drop_first(), rest);
        assert(whole.drop_first() =~= noise.drop_first() + seq![DiscoveryEvent::TimedOut] + rest);
    }
}

/// The client set produced by a sequence of discovery requests, one per
/// requesting address, all subscribed at the same stream port.
pub open spec fn clients_after(ips: Seq<u32>, port: u16) -> Set<Endpoint>
    decreases ips.len(),
{
    if ips.len() == 0 {
        Set::empty()
    } else {
        clients_after(ips.drop_last(), port).insert(Endpoint { ip: ips.last(), port })
    }
}

/// The set after a request sequence holds exactly the endpoints of the
/// requesting addresses.
pub proof fn lemma_clients_after_contains(ips: Seq<u32>, port: u16, ep: Endpoint)
    ensures
        clients_after(ips, port).contains(ep) <==> (ep.port == port && ips.contains(ep.ip)),
    decreases ips.len(),
{
    if ips.len() > 0 {
        lemma_clients_after_contains(ips.drop_last(), port, ep);
        if ips.drop_last().contains(ep.ip) {
            let i = choose|i: int| 0 <= i < ips.drop_last().len() && ips.drop_last()[i] == ep.ip;
            assert(ips[i] == ep.ip);
        }
        if ips.contains(ep.ip) && ep.ip != ips.last() {
            let i = choose|i: int| 0 <= i < ips.len() && ips[i] == ep.ip;
            assert(ips.drop_last()[i] == ep.ip);
        }
    }
}

/// The set after a request sequence is finite.
pub proof fn lemma_clients_after_finite(ips: Seq<u32>, port: u16)
    ensures
        clients_after(ips, port).finite(),
    decreases ips.len(),
{
    if ips.len() > 0 {
        lemma_clients_after_finite(ips.drop_last(), port);
    }
}

/// Client-set growth: requests from a sequence of addresses produce a set
/// with exactly one endpoint per distinct address. In particular, distinct
/// addresses each grow the set by one, and a repeated address never grows
/// it beyond the distinct members.
pub proof fn lemma_client_set_growth(ips: Seq<u32>, port: u16)
    ensures
        clients_after(ips, port).len() == ips.to_set().len(),
        ips.no_duplicates() ==> clients_after(ips, port).len() == ips.len(),
    decreases ips.len(),
{
    broadcast use vstd::seq_lib::group_seq_properties;

    if ips.len() == 0 {
        assert(ips.to_set() =~= Set::<u32>::empty());
    } else {
        let pre = ips.drop_last();
        let x = ips.last();
        lemma_client_set_growth(pre, port);
        lemma_clients_after_finite(pre, port);
        lemma_clients_after_contains(pre, port, Endpoint { ip: x, port });
        assert(ips.to_set() =~= pre.to_set().insert(x)) by {
            assert forall|a: u32| ips.contains(a) implies pre.contains(a) || a == x by {
                let i = choose|i: int| 0 <= i < ips.len() && ips[i] == a;
                if i < ips.len() - 1 {
                    assert(pre[i] == a);
                }
            }
            assert forall|a: u32| pre.contains(a) implies ips.contains(a) by {
                let i = choose|i: int| 0 <= i < pre.len() && pre[i] == a;
                assert(ips[i] == a);
            }
            assert(ips.contains(x));
        }
        if pre.contains(x) {
            assert(pre.to_set().insert(x) =~= pre.to_set());
            assert(clients_after(pre, port).insert(Endpoint { ip: x, port }) =~= clients_after(
                pre,
                port,
            ));
        }
    }
    if ips.no_duplicates() {
        ips.unique_seq_to_set();
    }
}

/// A repeated request from an address already subscribed leaves the client
/// set exactly as it was.
pub proof fn lemma_repeat_request_no_growth(ips: Seq<u32>, port: u16, ip: u32)
    requires
        ips.contains(ip),
    ensures
        clients_after(ips.push(ip), port) == clients_after(ips, port),
{
    assert(ips.push(ip).drop_last() =~= ips);
    assert(ips.push(ip).last() == ip);
    lemma_clients_after_contains(ips, port, Endpoint { ip, port });
    assert(clients_after(ips, port).insert(Endpoint { ip, port }) =~= clients_after(ips, port));
}

} // verus!
