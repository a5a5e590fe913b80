//! The decisions of the sensor client: which network step comes next after
//! each outcome, when to pause, and which packets are forwarded.
use vstd::prelude::*;
use crate::text::str_eq;
use crate::sensor::checksum::{checksum_ok, verify_checksum};
use crate::sensor::packet::{parse_port_5123, parse_port_5124, report_5123, report_5124};

verus! {

/// The step the client performs next.
#[derive(PartialEq, Eq, Structural, Clone, Copy, Debug)]
pub enum ClientAction {
    /// Open the connection to the sensor.
    Connect,
    /// Write the authentication key.
    SendAuth,
    /// Wait before reading the greeting.
    AwaitGreeting,
    /// Read the greeting of the sensor.
    ReadGreeting,
    /// Write the data request.
    SendRequest,
    /// Read one data packet.
    ReadPacket,
    /// Forward the report line of the packet just read.
    Publish,
    /// Wait between two requests.
    PauseBetweenRequests,
    /// Wait after a failed connection to a remote host.
    BackOff,
    /// Leave the client loop.
    Stop,
}

/// How the last step ended.
pub enum ClientEvent {
    /// The step completed.
    Succeeded,
    /// The step failed (I/O error, closed connection, refused connection).
    Failed,
    /// A data packet was read completely.
    PacketReceived(Vec<u8>),
}

/// Reconnect while the client is running, otherwise stop.
pub open spec fn restart(running: bool) -> ClientAction {
    if running {
        ClientAction::Connect
    } else {
        ClientAction::Stop
    }
}

/// Ask for the next packet while the client is running, otherwise stop.
pub open spec fn next_request(running: bool) -> ClientAction {
    if running {
        ClientAction::SendRequest
    } else {
        ClientAction::Stop
    }
}

/// The step after `done` ended with `event`; `running` is the current value
/// of the shared run flag and `loopback` tells whether the host is 127.0.0.1.
pub open spec fn client_next(done: ClientAction, event: ClientEvent, running: bool, loopback: bool) -> ClientAction {
    let succeeded = event is Succeeded;
    match done {
        ClientAction::Connect => if succeeded {
            ClientAction::SendAuth
        } else if loopback {
            restart(running)
        } else {
            ClientAction::BackOff
        },
        ClientAction::BackOff => restart(running),
        ClientAction::SendAuth => if succeeded {
            ClientAction::AwaitGreeting
        } else {
            restart(running)
        },
        ClientAction::AwaitGreeting => ClientAction::ReadGreeting,
        ClientAction::ReadGreeting => if succeeded {
            next_request(running)
        } else {
            restart(running)
        },
        ClientAction::SendRequest => if succeeded {
            ClientAction::ReadPacket
        } else {
            restart(running)
        },
        ClientAction::ReadPacket => match event {
            ClientEvent::PacketReceived(p) => if checksum_ok(p@) {
                ClientAction::Publish
            } else {
                ClientAction::PauseBetweenRequests
            },
            _ => restart(running),
        },
        ClientAction::Publish => if succeeded {
            ClientAction::PauseBetweenRequests
        } else {
            restart(running)
        },
        ClientAction::PauseBetweenRequests => next_request(running),
        ClientAction::Stop => ClientAction::Stop,
    }
}

/// The first step of the client.
pub fn client_start(running: bool) -> (action: ClientAction)
    ensures
        action == restart(running),
{
    if running {
        ClientAction::Connect
    } else {
        ClientAction::Stop
    }
}

fn restart_exec(running: bool) -> (action: ClientAction)
    ensures
        action == restart(running),
{
    if running {
        ClientAction::Connect
    } else {
        ClientAction::Stop
    }
}

fn next_request_exec(running: bool) -> (action: ClientAction)
    ensures
        action == next_request(running),
{
    if running {
        ClientAction::SendRequest
    } else {
        ClientAction::Stop
    }
}

/// Decides the step that follows `done`, which ended with `event`.
pub fn client_step(done: ClientAction, event: &ClientEvent, running: bool, loopback: bool) -> (next: ClientAction)
    ensures
        next == client_next(done, *event, running, loopback),
{
    let succeeded = match event {
        ClientEvent::Succeeded => true,
        _ => false,
    };
    match done {
        ClientAction::Connect => if succeeded {
            ClientAction::SendAuth
        } else if loopback {
            restart_exec(running)
        } else {
            ClientAction::BackOff
        },
        ClientAction::BackOff => restart_exec(running),
        ClientAction::SendAuth => if succeeded {
            ClientAction::AwaitGreeting
        } else {
            restart_exec(running)
        },
        ClientAction::AwaitGreeting => ClientAction::ReadGreeting,
        ClientAction::ReadGreeting => if succeeded {
            next_request_exec(running)
        } else {
            restart_exec(running)
        },
        ClientAction::SendRequest => if succeeded {
            ClientAction::ReadPacket
        } else {
            restart_exec(running)
        },
        ClientAction::ReadPacket => match event {
            ClientEvent::PacketReceived(p) => if verify_checksum(p.as_slice()) {
                ClientAction::Publish
            } else {
                ClientAction::PauseBetweenRequests
            },
            _ => restart_exec(running),
        },
        ClientAction::Publish => if succeeded {
            ClientAction::PauseBetweenRequests
        } else {
            restart_exec(running)
        },
        ClientAction::PauseBetweenRequests => next_request_exec(running),
        ClientAction::Stop => ClientAction::Stop,
    }
}

/// How long the client sleeps in a step, in milliseconds.
pub open spec fn pause_of(action: ClientAction) -> u64 {
    match action {
        ClientAction::AwaitGreeting => 500,
        ClientAction::PauseBetweenRequests => 25,
        ClientAction::BackOff => 2000,
        _ => 0,
    }
}

/// How long the client sleeps in a step, in milliseconds (0 for steps that do not sleep).
pub fn pause_millis(action: ClientAction) -> (ms: u64)
    ensures
        ms == pause_of(action),
{
    match action {
        ClientAction::AwaitGreeting => 500,
        ClientAction::PauseBetweenRequests => 25,
        ClientAction::BackOff => 2000,
        _ => 0,
    }
}

/// Whether the host is the loopback address, to which a refused connection is
/// retried without pause.
pub fn is_loopback(host: &str) -> (r: bool)
    ensures
        r == (host@ == "127.0.0.1"@),
{
    str_eq(host, "127.0.0.1")
}

/// The report line of a packet read from `port`: port 5123 packets carry a
/// temperature, which the caller renders, all others the 5124 layout.
pub fn packet_line(port: u16, packet: &[u8], temp_text: &str) -> (line: String)
    requires
        port == 5123 ==> packet.len() >= 14,
        port != 5123 ==> packet.len() >= 20,
    ensures
        port == 5123 ==> line@ == report_5123(packet@, temp_text@),
        port != 5123 ==> line@ == report_5124(packet@),
{
    if port == 5123 {
        parse_port_5123(packet, temp_text)
    } else {
        parse_port_5124(packet)
    }
}

/// The number of bytes of the sensor's greeting.
pub const GREETING_LEN: usize = 7;

/// What a step writes to the connection: the authentication key, the data
/// request, or nothing.
pub open spec fn wire_text(action: ClientAction) -> Seq<char> {
    match action {
        ClientAction::SendAuth => "isu_pt"@,
        ClientAction::SendRequest => "get"@,
        _ => Seq::empty(),
    }
}

/// What a step writes to the connection.
pub fn wire_message(action: ClientAction) -> (m: String)
    ensures
        m@ == wire_text(action),
{
    match action {
        ClientAction::SendAuth => String::from_str("isu_pt"),
        ClientAction::SendRequest => String::from_str("get"),
        _ => String::new(),
    }
}

/// Feeds the outcomes `events` to the client from step `a` while the run flag
/// stays up: the step reached, the packets published on the way (in order)
/// and the text written to the connection.
pub open spec fn run_events(a: ClientAction, events: Seq<ClientEvent>, loopback: bool) -> (
    ClientAction,
    Seq<Seq<u8>>,
    Seq<char>,
)
    decreases events.len(),
{
    if events.len() == 0 {
        (a, Seq::empty(), Seq::empty())
    } else {
        let e = events[0];
        let n = client_next(a, e, true, loopback);
        let published = match e {
            ClientEvent::PacketReceived(p) => if n == ClientAction::Publish {
                seq![p@]
            } else {
                Seq::empty()
            },
            _ => Seq::empty(),
        };
        let rest = run_events(n, events.subrange(1, events.len() as int), loopback);
        (rest.0, published + rest.1, wire_text(a) + rest.2)
    }
}

/// The outcomes of a handshake that goes through: connected, key sent,
/// pause done, greeting read.
pub open spec fn handshake_events() -> Seq<ClientEvent> {
    seq![ClientEvent::Succeeded, ClientEvent::Succeeded, ClientEvent::Succeeded, ClientEvent::Succeeded]
}

/// The outcomes of one request round that reads `packet`: request sent,
/// packet read, line forwarded (when its checksum holds), pause done.
pub open spec fn round_events(packet: Vec<u8>) -> Seq<ClientEvent> {
    if checksum_ok(packet@) {
        seq![
            ClientEvent::Succeeded,
            ClientEvent::PacketReceived(packet),
            ClientEvent::Succeeded,
            ClientEvent::Succeeded,
        ]
    } else {
        seq![ClientEvent::Succeeded, ClientEvent::PacketReceived(packet), ClientEvent::Succeeded]
    }
}

/// The outcomes of request rounds reading `packets` one after the other.
pub open spec fn session_events(packets: Seq<Vec<u8>>) -> Seq<ClientEvent>
    decreases packets.len(),
{
    if packets.len() == 0 {
        Seq::empty()
    } else {
        round_events(packets[0]) + session_events(packets.subrange(1, packets.len() as int))
    }
}

/// The packets among `packets` whose checksum holds, in order.
pub open spec fn valid_packets(packets: Seq<Vec<u8>>) -> Seq<Seq<u8>>
    decreases packets.len(),
{
    if packets.len() == 0 {
        Seq::empty()
    } else {
        (if checksum_ok(packets[0]@) {
            seq![packets[0]@]
        } else {
            Seq::empty()
        }) + valid_packets(packets.subrange(1, packets.len() as int))
    }
}

/// The request text written `n` times.
pub open spec fn requests_text(n: nat) -> Seq<char>
    decreases n,
{
    if n == 0 {
        Seq::empty()
    } else {
        "get"@ + requests_text((n - 1) as nat)
    }
}

proof fn lemma_run_events_append(a: ClientAction, x: Seq<ClientEvent>, y: Seq<ClientEvent>, loopback: bool)
    ensures
        ({
            let rx = run_events(a, x, loopback);
            let ry = run_events(rx.0, y, loopback);
            run_events(a, x + y, loopback) == (ry.0, rx.1 + ry.1, rx.2 + ry.2)
        }),
    decreases x.len(),
{
    if x.len() == 0 {
        assert(x + y =~= y);
        let ry = run_events(a, y, loopback);
        assert(Seq::<Seq<u8>>::empty() + ry.1 =~= ry.1);
        assert(Seq::<char>::empty() + ry.2 =~= ry.2);
    } else {
        let n = client_next(a, x[0], true, loopback);
        let xs = x.subrange(1, x.len() as int);
        assert((x + y)[0] == x[0]);
        assert((x + y).subrange(1, (x + y).len() as int) =~= xs + y);
        lemma_run_events_append(n, xs, y, loopback);
        let rxs = run_events(n, xs, loopback);
        let ry = run_events(rxs.0, y, loopback);
        let published = match x[0] {
            ClientEvent::PacketReceived(p) => if n == ClientAction::Publish {
                seq![p@]
            } else {
                Seq::empty()
            },
            _ => Seq::empty(),
        };
        assert(published + (rxs.1 + ry.1) =~= (published + rxs.1) + ry.1);
        assert(wire_text(a) + (rxs.2 + ry.2) =~= (wire_text(a) + rxs.2) + ry.2);
    }
}

proof fn lemma_round(packet: Vec<u8>, loopback: bool)
    ensures
        run_events(ClientAction::SendRequest, round_events(packet), loopback) == (
            ClientAction::SendRequest,
            if checksum_ok(packet@) {
                seq![packet@]
            } else {
                Seq::<Seq<u8>>::empty()
            },
            "get"@,
        ),
{
    let ev = round_events(packet);
    reveal_with_fuel(run_events, 5);
    if checksum_ok(packet@) {
        assert(ev.subrange(1, 4) =~= seq![ClientEvent::PacketReceived(packet), ClientEvent::Succeeded, ClientEvent::Succeeded]);
        assert(ev.subrange(1, 4).subrange(1, 3) =~= seq![ClientEvent::Succeeded, ClientEvent::Succeeded]);
        assert(ev.subrange(1, 4).subrange(1, 3).subrange(1, 2) =~= seq![ClientEvent::Succeeded]);
        assert(ev.subrange(1, 4).subrange(1, 3).subrange(1, 2).subrange(1, 1) =~= Seq::<ClientEvent>::empty());
        assert(seq![packet@] + (Seq::<Seq<u8>>::empty() + (Seq::<Seq<u8>>::empty() + Seq::<Seq<u8>>::empty())) =~= seq![packet@]);
    } else {
        assert(ev.subrange(1, 3) =~= seq![ClientEvent::PacketReceived(packet), ClientEvent::Succeeded]);
        assert(ev.subrange(1, 3).subrange(1, 2) =~= seq![ClientEvent::Succeeded]);
        assert(ev.subrange(1, 3).subrange(1, 2).subrange(1, 1) =~= Seq::<ClientEvent>::empty());
    }
    reveal_strlit("get");
    assert(Seq::<Seq<u8>>::empty() + (Seq::<Seq<u8>>::empty() + (Seq::<Seq<u8>>::empty() + Seq::<Seq<u8>>::empty())) =~= Seq::<Seq<u8>>::empty());
}

proof fn lemma_session(packets: Seq<Vec<u8>>, loopback: bool)
    ensures
        run_events(ClientAction::SendRequest, session_events(packets), loopback) == (
            ClientAction::SendRequest,
            valid_packets(packets),
            requests_text(packets.len()),
        ),
    decreases packets.len(),
{
    if packets.len() == 0 {
        assert(session_events(packets) =~= Seq::<ClientEvent>::empty());
    } else {
        let rest = packets.subrange(1, packets.len() as int);
        lemma_round(packets[0], loopback);
        lemma_session(rest, loopback);
        lemma_run_events_append(ClientAction::SendRequest, round_events(packets[0]), session_events(rest), loopback);
        assert(requests_text(packets.len()) == "get"@ + requests_text(rest.len()));
    }
}

/// A connection that goes through: the client writes the key once, then the
/// request once per packet, publishes exactly the packets whose checksum
/// holds, in the order they arrived, and after each round asks again.
pub proof fn lemma_connection_session(packets: Seq<Vec<u8>>, loopback: bool)
    ensures
        run_events(ClientAction::Connect, handshake_events() + session_events(packets), loopback) == (
            ClientAction::SendRequest,
            valid_packets(packets),
            "isu_pt"@ + requests_text(packets.len()),
        ),
{
    let h = handshake_events();
    reveal_with_fuel(run_events, 5);
    assert(h.subrange(1, 4) =~= seq![ClientEvent::Succeeded, ClientEvent::Succeeded, ClientEvent::Succeeded]);
    assert(h.subrange(1, 4).subrange(1, 3) =~= seq![ClientEvent::Succeeded, ClientEvent::Succeeded]);
    assert(h.subrange(1, 4).subrange(1, 3).subrange(1, 2) =~= seq![ClientEvent::Succeeded]);
    assert(h.subrange(1, 4).subrange(1, 3).subrange(1, 2).subrange(1, 1) =~= Seq::<ClientEvent>::empty());
    let rh = run_events(ClientAction::Connect, h, loopback);
    assert(rh.0 == ClientAction::SendRequest);
    assert(rh.1 =~= Seq::<Seq<u8>>::empty());
    assert(rh.2 =~= "isu_pt"@);
    lemma_run_events_append(ClientAction::Connect, h, session_events(packets), loopback);
    lemma_session(packets, loopback);
    assert(Seq::<Seq<u8>>::empty() + valid_packets(packets) =~= valid_packets(packets));
}

/// Once stopped, the client stays stopped whatever is reported.
pub proof fn lemma_stop_is_final(event: ClientEvent, running: bool, loopback: bool)
    ensures
        client_next(ClientAction::Stop, event, running, loopback) == ClientAction::Stop,
{
}

/// A packet whose checksum fails is never published.
pub proof fn lemma_bad_packet_not_published(packet: Vec<u8>, running: bool, loopback: bool)
    requires
        !checksum_ok(packet@),
    ensures
        client_next(ClientAction::ReadPacket, ClientEvent::PacketReceived(packet), running, loopback)
            != ClientAction::Publish,
{
}

/// When the run flag is down, every failure ends the client instead of reconnecting.
pub proof fn lemma_failure_when_stopped_ends(done: ClientAction, loopback: bool)
    requires
        done != ClientAction::Connect || loopback,
        done != ClientAction::AwaitGreeting,
    ensures
        client_next(done, ClientEvent::Failed, false, loopback) == ClientAction::Stop,
{
}

} // verus!
