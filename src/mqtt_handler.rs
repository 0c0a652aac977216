use vstd::prelude::*;
use vstd::string::*;

use crate::address::{address_of, parse_broker_address, AddressError};
use crate::codec::{decode, encode, frame_bytes, frame_of, WireFrame};
use crate::measurement::PublishableMessage;

verus! {

/// Capacity of the hand-off queue from the sampler to the processor, a tunable.
/// When the queue is full, the sampler waits on that tick's send rather than
/// dropping it or buffering without bound.
pub const OUTBOUND_QUEUE_CAPACITY: usize = 1000;

/// Keep-alive interval of the broker connection, in seconds.
pub const KEEP_ALIVE_SECS: u64 = 20;

/// How long to wait for the broker to accept a connection, in seconds.
pub const CONNECT_TIMEOUT_SECS: u64 = 3;

/// Largest topic alias the broker may assign.
pub const TOPIC_ALIAS_MAX: u16 = 600;

/// Transport-level settings of the broker connection.
#[derive(Debug, PartialEq)]
pub struct ConnectionSettings {
    pub client_id: String,
    pub host: String,
    pub port: u16,
    pub keep_alive_secs: u64,
    /// Always false: the session persists across reconnects.
    pub clean_start: bool,
    pub connect_timeout_secs: u64,
    pub topic_alias_max: u16,
}

/// Settings fixed for the processor's lifetime.
pub struct MqttProcessorOptions {
    /// The broker's address, `host:port`.
    pub mqtt_path: String,
    /// The topic whose frames feed the shared signal cell, if any.
    pub mqtt_recv: Option<String>,
}

/// The decimal digits of `n`.
pub open spec fn decimal(n: nat) -> Seq<char>
    decreases n,
{
    if n < 10 {
        seq![(n + '0' as nat) as char]
    } else {
        decimal(n / 10) + seq![((n % 10) + '0' as nat) as char]
    }
}

/// The client identifier for a process started at `boot_ms` milliseconds
/// after the Unix epoch.
pub open spec fn client_id_of(boot_ms: u64) -> Seq<char> {
    "Ody-"@ + decimal(boot_ms as nat)
}

/// The one-character text of the decimal digit `d`.
fn digit_text(d: u64) -> (r: &'static str)
    requires
        d < 10,
    ensures
        r@ == seq![(d + '0' as nat) as char],
{
    proof {
        reveal_strlit("0");
        reveal_strlit("1");
        reveal_strlit("2");
        reveal_strlit("3");
        reveal_strlit("4");
        reveal_strlit("5");
        reveal_strlit("6");
        reveal_strlit("7");
        reveal_strlit("8");
        reveal_strlit("9");
    }
    match d {
        0 => "0",
        1 => "1",
        2 => "2",
        3 => "3",
        4 => "4",
        5 => "5",
        6 => "6",
        7 => "7",
        8 => "8",
        _ => "9",
    }
}

/// Appends the decimal digits of `n`.
fn append_decimal(s: &mut String, n: u64)
    ensures
        final(s)@ == old(s)@ + decimal(n as nat),
    decreases n,
{
    if n >= 10 {
        append_decimal(s, n / 10);
    }
    s.append(digit_text(n % 10));
    assert(final(s)@ =~= old(s)@ + decimal(n as nat));
}

/// The client identifier for a process started at `boot_ms`.
fn client_id_for(boot_ms: u64) -> (r: String)
    ensures
        r@ == client_id_of(boot_ms),
{
    let mut id = String::from_str("Ody-");
    append_decimal(&mut id, boot_ms);
    id
}

/// What the processor has been told to do next.
pub enum Event {
    /// The shared cancellation signal fired.
    Cancelled,
    /// A publish frame arrived from the broker, with its payload.
    InboundPublish(Vec<u8>),
    /// Any other packet from the broker: acknowledgements, pings, connection changes.
    InboundOther,
    /// Polling the transport failed; it reconnects by itself.
    TransportError,
    /// A measurement left the outbound queue; the time is now, in microseconds since the epoch.
    Outbound(PublishableMessage, u64),
    /// The outbound queue is closed and drained.
    QueueClosed,
}

/// What the surrounding loop does in answer to an event.
#[derive(Debug, PartialEq)]
pub enum Action {
    /// Nothing; wait for the next event.
    Idle,
    /// Write this reading (the bits of a 32-bit float) into the shared signal cell.
    Store(u32),
    /// Publish these bytes on this topic, exactly once, not retained.
    Publish(String, Vec<u8>),
    /// Leave the loop.
    Stop,
}

/// The reading that an inbound payload carries: the first value of the frame,
/// or `0.0` when it has none; `None` where the payload is not a frame.
pub open spec fn inbound_reading(payload: Seq<u8>) -> Option<u32> {
    match frame_of(payload) {
        None => None,
        Some((u, v, t)) => Some(
            if v.len() > 0 {
                v[0]
            } else {
                0u32
            },
        ),
    }
}

/// The cell's value after an inbound payload, with the cell holding `value` before.
pub open spec fn cell_after(value: u32, payload: Seq<u8>) -> u32 {
    match inbound_reading(payload) {
        Some(v) => v,
        None => value,
    }
}

/// The cell's value after inbound payloads in arrival order.
pub open spec fn cell_after_all(value: u32, payloads: Seq<Seq<u8>>) -> u32
    decreases payloads.len(),
{
    if payloads.len() == 0 {
        value
    } else {
        cell_after(cell_after_all(value, payloads.drop_last()), payloads.last())
    }
}

/// The processor of broker traffic: it decides, for each event, what the loop does.
pub struct MqttProcessor {
    running: bool,
    outbound_open: bool,
    subscription: Option<String>,
}

impl MqttProcessor {
    pub closed spec fn is_running(&self) -> bool {
        self.running
    }

    pub closed spec fn is_outbound_open(&self) -> bool {
        self.outbound_open
    }

    pub closed spec fn subscribed_topic(&self) -> Option<Seq<char>> {
        match self.subscription {
            Some(t) => Some(t@),
            None => None,
        }
    }

    /// Splits the options into connection settings and a running processor.
    /// Fails, before anything starts, where the broker address is malformed.
    pub fn new(opts: MqttProcessorOptions, boot_ms: u64) -> (r: Result<
        (MqttProcessor, ConnectionSettings),
        AddressError,
    >)
        ensures
            match address_of(opts.mqtt_path@) {
                Ok((h, p)) => r matches Ok((proc, settings)) && settings.host@ == h
                    && settings.port == p && settings.client_id@ == client_id_of(boot_ms)
                    && settings.keep_alive_secs == KEEP_ALIVE_SECS && !settings.clean_start
                    && settings.connect_timeout_secs == CONNECT_TIMEOUT_SECS
                    && settings.topic_alias_max == TOPIC_ALIAS_MAX && proc.is_running()
                    && proc.is_outbound_open() && proc.subscribed_topic() == match opts.mqtt_recv {
                    Some(t) => Some(t@),
                    None => None::<Seq<char>>,
                },
                Err(e) => r matches Err(re) && re == e,
            },
    {
        let (host, port) = match parse_broker_address(opts.mqtt_path.as_str()) {
            Ok(x) => x,
            Err(e) => return Err(e),
        };
        let settings = ConnectionSettings {
            client_id: client_id_for(boot_ms),
            host,
            port,
            keep_alive_secs: KEEP_ALIVE_SECS,
            clean_start: false,
            connect_timeout_secs: CONNECT_TIMEOUT_SECS,
            topic_alias_max: TOPIC_ALIAS_MAX,
        };
        let processor = MqttProcessor {
            running: true,
            outbound_open: true,
            subscription: opts.mqtt_recv,
        };
        Ok((processor, settings))
    }

    /// The topic to subscribe to, at the highest delivery assurance, before the loop.
    pub fn subscription(&self) -> (r: Option<&String>)
        ensures
            match self.subscribed_topic() {
                Some(t) => r matches Some(s) && s@ == t,
                None => r is None,
            },
    {
        self.subscription.as_ref()
    }

    /// Whether the loop is still running.
    pub fn running(&self) -> (r: bool)
        ensures
            r == self.is_running(),
    {
        self.running
    }

    /// Whether the outbound queue may still deliver measurements.
    pub fn outbound_open(&self) -> (r: bool)
        ensures
            r == self.is_outbound_open(),
    {
        self.outbound_open
    }

    /// Decides what to do about one event.
    pub fn handle(&mut self, event: Event) -> (r: Action)
        ensures
            final(self).subscribed_topic() == old(self).subscribed_topic(),
            !old(self).is_running() ==> r is Stop && !final(self).is_running()
                && final(self).is_outbound_open() == old(self).is_outbound_open(),
            old(self).is_running() ==> match event {
                Event::Cancelled => r is Stop && !final(self).is_running()
                    && final(self).is_outbound_open() == old(self).is_outbound_open(),
                Event::InboundPublish(p) => final(self).is_running()
                    && final(self).is_outbound_open() == old(self).is_outbound_open() && match (
                    old(self).subscribed_topic(),
                    inbound_reading(p@),
                ) {
                    (Some(_), Some(v)) => r == Action::Store(v),
                    _ => r is Idle,
                },
                Event::InboundOther | Event::TransportError => r is Idle && final(self).is_running()
                    && final(self).is_outbound_open() == old(self).is_outbound_open(),
                Event::Outbound(m, now_us) => final(self).is_running()
                    && final(self).is_outbound_open() == old(self).is_outbound_open() && if 4
                    * m.data@.len() <= u64::MAX {
                    r matches Action::Publish(topic, payload) && topic@ == m.topic@ && payload@
                        == frame_bytes(m.unit@, m.data@, now_us)
                } else {
                    r is Idle
                },
                Event::QueueClosed => r is Idle && final(self).is_running()
                    && !final(self).is_outbound_open(),
            },
    {
        if !self.running {
            return Action::Stop;
        }
        match event {
            Event::Cancelled => {
                self.running = false;
                Action::Stop
            },
            Event::InboundPublish(payload) => {
                if self.subscription.is_none() {
                    return Action::Idle;
                }
                match decode(payload.as_slice()) {
                    None => Action::Idle,
                    Some(frame) => {
                        if frame.values.len() > 0 {
                            Action::Store(frame.values[0])
                        } else {
                            Action::Store(0)
                        }
                    },
                }
            },
            Event::InboundOther | Event::TransportError => Action::Idle,
            Event::Outbound(m, now_us) => {
                if m.data.len() as u64 > u64::MAX / 4 {
                    return Action::Idle;
                }
                let frame = WireFrame { unit: m.unit, values: m.data, time_us: now_us };
                let payload = encode(&frame);
                Action::Publish(m.topic, payload)
            },
            Event::QueueClosed => {
                self.outbound_open = false;
                Action::Idle
            },
        }
    }
}

/// Inbound frames overwrite the cell in arrival order: after three frames that
/// carry readings, the cell holds the third one's reading, whatever it held before.
pub proof fn law_last_write_wins(start: u32, f1: Seq<u8>, f2: Seq<u8>, f3: Seq<u8>)
    requires
        inbound_reading(f1) is Some,
        inbound_reading(f2) is Some,
        inbound_reading(f3) is Some,
    ensures
        cell_after_all(start, seq![f1, f2, f3]) == inbound_reading(f3)->Some_0,
{
    let s = seq![f1, f2, f3];
    assert(s.drop_last() =~= seq![f1, f2]);
    assert(seq![f1, f2].drop_last() =~= seq![f1]);
    assert(seq![f1].drop_last() =~= Seq::<Seq<u8>>::empty());
}

/// A payload that is not a frame leaves the cell as it was.
pub proof fn law_skip_malformed(value: u32, payload: Seq<u8>)
    requires
        frame_of(payload) is None,
    ensures
        cell_after(value, payload) == value,
        inbound_reading(payload) is None,
{
}

} // verus!
