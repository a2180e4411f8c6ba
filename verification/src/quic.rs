//! Settings of the transport over QUIC.

use crate::text::string_of_str;
use crate::wire::copy_range;
use vstd::prelude::*;

verus! {

/// The name by which the protocol is told apart in the TLS handshake: `smb`.
pub const SMB_QUIC_ALPN: [u8; 3] = [0x73, 0x6d, 0x62];

/// Seconds after which an idle connection ends.
pub const DEFAULT_QUIC_MAX_IDLE_TIMEOUT: u64 = 180;

/// Seconds between signs of life.
pub const DEFAULT_QUIC_KEEP_ALIVE_INTERVAL: u64 = 15;

pub const DEFAULT_QUIC_STREAM_RECEIVE_WINDOW: u64 = 0x400_0000;

pub const DEFAULT_QUIC_CONNECTION_RECEIVE_WINDOW: u64 = 0x1000_0000;

/// A span of time.
#[derive(Debug, Clone, Copy, PartialEq, Eq)]
pub struct Span {
    pub secs: u64,
    pub nanos: u32,
}

/// The whole milliseconds of a span of time.
pub open spec fn millis(t: Span) -> int {
    t.secs * 1000 + (t.nanos / 1_000_000) as int
}

impl Span {
    /// Whether the nanoseconds are less than a second.
    pub open spec fn wf(&self) -> bool {
        self.nanos < 1_000_000_000
    }

    /// A span of whole seconds.
    pub fn from_secs(secs: u64) -> (r: Self)
        ensures
            r == (Span { secs, nanos: 0 }),
            r.wf(),
    {
        Span { secs, nanos: 0 }
    }

    /// The whole milliseconds.
    pub fn as_millis(&self) -> (r: u128)
        ensures
            r == millis(*self),
    {
        self.secs as u128 * 1000 + (self.nanos / 1_000_000) as u128
    }
}

/// Settings of the transport over QUIC.
#[derive(Debug, Clone, Copy, PartialEq, Eq)]
pub struct SmbQuicConfig {
    pub max_idle_timeout: Span,
    pub keep_alive_interval: Span,
    pub stream_receive_window: u64,
    pub connection_receive_window: u64,
}

impl Default for SmbQuicConfig {
    fn default() -> (r: Self)
        ensures
            r == (SmbQuicConfig {
                max_idle_timeout: Span { secs: DEFAULT_QUIC_MAX_IDLE_TIMEOUT, nanos: 0 },
                keep_alive_interval: Span { secs: DEFAULT_QUIC_KEEP_ALIVE_INTERVAL, nanos: 0 },
                stream_receive_window: DEFAULT_QUIC_STREAM_RECEIVE_WINDOW,
                connection_receive_window: DEFAULT_QUIC_CONNECTION_RECEIVE_WINDOW,
            }),
    {
        SmbQuicConfig {
            max_idle_timeout: Span::from_secs(DEFAULT_QUIC_MAX_IDLE_TIMEOUT),
            keep_alive_interval: Span::from_secs(DEFAULT_QUIC_KEEP_ALIVE_INTERVAL),
            stream_receive_window: DEFAULT_QUIC_STREAM_RECEIVE_WINDOW,
            connection_receive_window: DEFAULT_QUIC_CONNECTION_RECEIVE_WINDOW,
        }
    }
}

/// What is wrong with the settings.
#[derive(Debug, Clone, Copy, PartialEq, Eq)]
pub enum SmbQuicConfigError {
    ZeroStreamReceiveWindow,
    ZeroConnectionReceiveWindow,
    /// A setting is too large for the integers of the protocol.
    VarIntBounds { field: QuicField },
}

/// A setting, by its name.
#[derive(Debug, Clone, Copy, PartialEq, Eq)]
pub enum QuicField {
    MaxIdleTimeout,
    StreamReceiveWindow,
    ConnectionReceiveWindow,
}

impl SmbQuicConfigError {
    /// What the error says.
    pub open spec fn words(self) -> Seq<char> {
        match self {
            SmbQuicConfigError::ZeroStreamReceiveWindow => {
                "QUIC stream receive window must be positive"@
            },
            SmbQuicConfigError::ZeroConnectionReceiveWindow => {
                "QUIC connection receive window must be positive"@
            },
            SmbQuicConfigError::VarIntBounds { field: QuicField::MaxIdleTimeout } => {
                "QUIC max_idle_timeout is outside the protocol varint range"@
            },
            SmbQuicConfigError::VarIntBounds { field: QuicField::StreamReceiveWindow } => {
                "QUIC stream_receive_window is outside the protocol varint range"@
            },
            SmbQuicConfigError::VarIntBounds { field: QuicField::ConnectionReceiveWindow } => {
                "QUIC connection_receive_window is outside the protocol varint range"@
            },
        }
    }

    /// What the error says.
    pub fn message(self) -> (r: String)
        ensures
            r@ == self.words(),
    {
        match self {
            SmbQuicConfigError::ZeroStreamReceiveWindow => string_of_str(
                "QUIC stream receive window must be positive",
            ),
            SmbQuicConfigError::ZeroConnectionReceiveWindow => string_of_str(
                "QUIC connection receive window must be positive",
            ),
            SmbQuicConfigError::VarIntBounds { field: QuicField::MaxIdleTimeout } => string_of_str(
                "QUIC max_idle_timeout is outside the protocol varint range",
            ),
            SmbQuicConfigError::VarIntBounds {
                field: QuicField::StreamReceiveWindow,
            } => string_of_str("QUIC stream_receive_window is outside the protocol varint range"),
            SmbQuicConfigError::VarIntBounds {
                field: QuicField::ConnectionReceiveWindow,
            } => string_of_str(
                "QUIC connection_receive_window is outside the protocol varint range",
            ),
        }
    }
}

// ---------------------------------------------------------------------------
// The transport
// ---------------------------------------------------------------------------

/// Whether a number is an integer of the protocol: less than 2^62.
pub open spec fn is_varint(x: int) -> bool {
    0 <= x < 0x4000_0000_0000_0000
}

/// What is wrong with the settings, if anything; the windows come first.
pub open spec fn config_error(c: SmbQuicConfig) -> Option<SmbQuicConfigError> {
    if c.stream_receive_window == 0 {
        Some(SmbQuicConfigError::ZeroStreamReceiveWindow)
    } else if c.connection_receive_window == 0 {
        Some(SmbQuicConfigError::ZeroConnectionReceiveWindow)
    } else if !is_varint(millis(c.max_idle_timeout)) {
        Some(SmbQuicConfigError::VarIntBounds { field: QuicField::MaxIdleTimeout })
    } else if !is_varint(c.stream_receive_window as int) {
        Some(SmbQuicConfigError::VarIntBounds { field: QuicField::StreamReceiveWindow })
    } else if !is_varint(c.connection_receive_window as int) {
        Some(SmbQuicConfigError::VarIntBounds { field: QuicField::ConnectionReceiveWindow })
    } else {
        None
    }
}

/// The settings of a QUIC transport, as `quinn` keeps them.
#[verifier::external_type_specification]
#[verifier::external_body]
pub struct ExTransportConfig(quinn::TransportConfig);

/// The settings that `quinn` makes of its defaults and these values.
pub uninterp spec fn transport_settings(
    bidi_streams: u32,
    uni_streams: u32,
    idle_millis: u64,
    keep_alive_secs: u64,
    keep_alive_nanos: u32,
    stream_window: u64,
    connection_window: u64,
) -> quinn::TransportConfig;

/// `quinn::VarInt::from_u64` takes the numbers below 2^62 as they are, and no others.
#[verifier::external_body]
fn varint(x: u64) -> (r: Option<u64>)
    ensures
        r == if is_varint(x as int) {
            Some(x)
        } else {
            None
        },
{
    quinn::VarInt::from_u64(x).ok().map(|v| v.into_inner())
}

/// `quinn::TransportConfig`, its defaults with six settings; the result is a function of
/// their values.
#[verifier::external_body]
fn transport_with(
    bidi_streams: u32,
    uni_streams: u32,
    idle_millis: u64,
    keep_alive: Span,
    stream_window: u64,
    connection_window: u64,
) -> (r: quinn::TransportConfig)
    requires
        is_varint(idle_millis as int),
        is_varint(stream_window as int),
        is_varint(connection_window as int),
        keep_alive.wf(),
    ensures
        r == transport_settings(
            bidi_streams,
            uni_streams,
            idle_millis,
            keep_alive.secs,
            keep_alive.nanos,
            stream_window,
            connection_window,
        ),
{
    let of = |x: u64| quinn::VarInt::from_u64(x).expect("less than 2^62");
    let pause = std::time::Duration::new(keep_alive.secs, keep_alive.nanos);
    let mut t = quinn::TransportConfig::default();
    t.max_concurrent_bidi_streams(bidi_streams.into());
    t.max_concurrent_uni_streams(uni_streams.into());
    t.max_idle_timeout(Some(of(idle_millis).into()));
    t.keep_alive_interval(Some(pause));
    t.stream_receive_window(of(stream_window));
    t.receive_window(of(connection_window));
    t
}

/// The settings of a transport that carries one stream in both directions.
pub fn smb_quic_transport_config(config: SmbQuicConfig) -> (r: Result<
    quinn::TransportConfig,
    SmbQuicConfigError,
>)
    requires
        config.keep_alive_interval.wf(),
    ensures
        match r {
            Err(e) => config_error(config) == Some(e),
            Ok(t) => config_error(config) is None && t == transport_settings(
                1,
                0,
                millis(config.max_idle_timeout) as u64,
                config.keep_alive_interval.secs,
                config.keep_alive_interval.nanos,
                config.stream_receive_window,
                config.connection_receive_window,
            ),
        },
{
    check_windows(config)?;
    let idle: u128 = config.max_idle_timeout.as_millis();
    let idle_millis: Option<u64> = if idle > u64::MAX as u128 {
        None
    } else {
        varint(idle as u64)
    };
    match (
        idle_millis,
        varint(config.stream_receive_window),
        varint(config.connection_receive_window),
    ) {
        (None, _, _) => Err(
            SmbQuicConfigError::VarIntBounds { field: QuicField::MaxIdleTimeout },
        ),
        (_, None, _) => Err(
            SmbQuicConfigError::VarIntBounds { field: QuicField::StreamReceiveWindow },
        ),
        (_, _, None) => Err(
            SmbQuicConfigError::VarIntBounds { field: QuicField::ConnectionReceiveWindow },
        ),
        (Some(idle_millis), Some(stream_window), Some(connection_window)) => Ok(
            transport_with(
                1,
                0,
                idle_millis,
                config.keep_alive_interval,
                stream_window,
                connection_window,
            ),
        ),
    }
}

/// Whether the windows of the settings are positive.
pub fn check_windows(config: SmbQuicConfig) -> (r: Result<(), SmbQuicConfigError>)
    ensures
        r == if config.stream_receive_window == 0 {
            Err(SmbQuicConfigError::ZeroStreamReceiveWindow)
        } else if config.connection_receive_window == 0 {
            Err(SmbQuicConfigError::ZeroConnectionReceiveWindow)
        } else {
            Ok(())
        },
{
    if config.stream_receive_window == 0 {
        return Err(SmbQuicConfigError::ZeroStreamReceiveWindow);
    }
    if config.connection_receive_window == 0 {
        return Err(SmbQuicConfigError::ZeroConnectionReceiveWindow);
    }
    Ok(())
}

// ---------------------------------------------------------------------------
// Protocol names
// ---------------------------------------------------------------------------

/// What some names hold.
pub open spec fn names(s: Seq<Vec<u8>>) -> Seq<Seq<u8>> {
    s.map_values(|v: Vec<u8>| v@)
}

/// The names other than that of the protocol, in their order.
pub open spec fn other_names(s: Seq<Seq<u8>>) -> Seq<Seq<u8>>
    decreases s.len(),
{
    if s.len() == 0 {
        Seq::empty()
    } else if s.last() == SMB_QUIC_ALPN@ {
        other_names(s.drop_last())
    } else {
        other_names(s.drop_last()).push(s.last())
    }
}

fn is_alpn(v: &Vec<u8>) -> (r: bool)
    ensures
        r == (v@ == SMB_QUIC_ALPN@),
{
    if v.len() != 3 {
        return false;
    }
    let r: bool = v[0] == 0x73 && v[1] == 0x6d && v[2] == 0x62;
    assert(r ==> v@ =~= SMB_QUIC_ALPN@);
    r
}

/// The names to offer: that of the protocol first, and only there.
pub fn smb_quic_next_protos(existing: &[Vec<u8>]) -> (r: Vec<Vec<u8>>)
    ensures
        names(r@) == seq![SMB_QUIC_ALPN@] + other_names(names(existing@)),
{
    let first: Vec<u8> = vec![0x73, 0x6d, 0x62];
    assert(first@ =~= SMB_QUIC_ALPN@);
    let mut r: Vec<Vec<u8>> = vec![first];
    let ghost all = names(existing@);
    let mut i: usize = 0;
    assert(all.take(0) =~= Seq::empty());
    assert(names(r@) =~= seq![SMB_QUIC_ALPN@] + other_names(all.take(0)));
    while i < existing.len()
        invariant
            i <= existing@.len(),
            all == names(existing@),
            names(r@) == seq![SMB_QUIC_ALPN@] + other_names(all.take(i as int)),
        decreases existing@.len() - i,
    {
        let ghost before = names(r@);
        proof {
            assert(all.take(i + 1).drop_last() =~= all.take(i as int));
            assert(all.take(i + 1).last() == existing@[i as int]@);
        }
        if !is_alpn(&existing[i]) {
            let name: Vec<u8> = copy_range(existing[i].as_slice(), 0, existing[i].len());
            assert(name@ =~= existing@[i as int]@);
            r.push(name);
            assert(names(r@) =~= before.push(existing@[i as int]@));
        }
        i += 1;
        assert(names(r@) =~= seq![SMB_QUIC_ALPN@] + other_names(all.take(i as int)));
    }
    assert(all.take(i as int) =~= all);
    r
}

/// The name of the protocol is offered first, and just once.
pub proof fn protocol_name_is_offered_once(existing: Seq<Seq<u8>>)
    ensures
        !other_names(existing).contains(SMB_QUIC_ALPN@),
    decreases existing.len(),
{
    if existing.len() > 0 {
        protocol_name_is_offered_once(existing.drop_last());
        let before = other_names(existing.drop_last());
        let after = other_names(existing);
        if after.contains(SMB_QUIC_ALPN@) {
            let i = choose|i: int| 0 <= i < after.len() && after[i] == SMB_QUIC_ALPN@;
            if i < before.len() {
                assert(before[i] == SMB_QUIC_ALPN@);
            }
        }
    }
}

/// Settings are right exactly where both windows are positive, and they and the whole
/// milliseconds of the idle timeout are below 2^62.
pub proof fn settings_are_right_in_bounds(c: SmbQuicConfig)
    ensures
        config_error(c) is None <==> {
            &&& 0 < c.stream_receive_window < 0x4000_0000_0000_0000
            &&& 0 < c.connection_receive_window < 0x4000_0000_0000_0000
            &&& c.max_idle_timeout.secs * 1000 + c.max_idle_timeout.nanos as int / 1_000_000
                < 0x4000_0000_0000_0000
        },
        c.stream_receive_window == 0 <==> config_error(c) == Some(
            SmbQuicConfigError::ZeroStreamReceiveWindow,
        ),
        c.connection_receive_window == 0 && c.stream_receive_window != 0 <==> config_error(c)
            == Some(SmbQuicConfigError::ZeroConnectionReceiveWindow),
{
}

} // verus!
