//! The choices of the command line, as functions of what was typed: which
//! ports to scan, how fast, how patiently, and from which port.
use vstd::prelude::*;
use vstd::utf8::encode_utf8;
use rand::Rng;
use crate::config::port::{total_ports, PortIterator};

verus! {

/// The most segments to send in a second when nothing else is asked for.
pub const DEFAULT_RATE_LIMIT: usize = 10_000;

/// How often a probe is sent again when nothing else is asked for.
pub const DEFAULT_PORT_RETRY: u8 = 2;

/// How long a probe waits for a reply when nothing else is asked for, in
/// milliseconds.
pub const DEFAULT_TIMEOUT_IN_MS: u64 = 1_000;

/// The lowest listening port that is picked when none is asked for.
pub const LISTENING_PORT_LOW: u16 = 50_000;

/// The first port above those that are picked when none is asked for.
pub const LISTENING_PORT_HIGH: u16 = 60_000;

/// Why a list of ports could not be read.
#[derive(Clone, Copy, Debug, PartialEq, Eq, Structural)]
pub enum PortSpecError {
    /// The text is neither a number nor two numbers with a dash between.
    Malformed,
    /// A number is above 65535.
    TooLarge,
    /// A range ends below its start.
    Reversed,
    /// The ports are more than can be counted.
    TooMany,
}

/// The byte is an ASCII digit.
pub open spec fn is_digit(byte: u8) -> bool {
    0x30 <= byte <= 0x39
}

/// The text is one ASCII digit or more, and nothing else.
pub open spec fn all_digits(text: Seq<u8>) -> bool {
    text.len() > 0 && forall|i: int| 0 <= i < text.len() ==> is_digit(#[trigger] text[i])
}

/// The number that the digits of `text` spell in base ten.
pub open spec fn decimal_value(text: Seq<u8>) -> nat
    decreases text.len(),
{
    if text.len() == 0 {
        0
    } else {
        decimal_value(text.drop_last()) * 10 + (text.last() - 0x30) as nat
    }
}

/// The port that `text` spells: a decimal number up to 65535.
pub open spec fn spec_parse_port(text: Seq<u8>) -> Result<u16, PortSpecError> {
    if !all_digits(text) {
        Err(PortSpecError::Malformed)
    } else if decimal_value(text) > 65535 {
        Err(PortSpecError::TooLarge)
    } else {
        Ok(decimal_value(text) as u16)
    }
}

/// The index of the first dash in `text`, or its length if it has none.
pub open spec fn first_dash(text: Seq<u8>) -> int
    decreases text.len(),
{
    if text.len() == 0 || text[0] == 0x2D {
        0
    } else {
        1 + first_dash(text.skip(1))
    }
}

/// The ports that `text` names: the one port `N`, or the inclusive range
/// `N-M`.
pub open spec fn spec_parse_port_range(text: Seq<u8>) -> Result<(u16, u16), PortSpecError> {
    let dash = first_dash(text);
    if dash >= text.len() {
        match spec_parse_port(text) {
            Ok(port) => Ok((port, port)),
            Err(error) => Err(error),
        }
    } else {
        match spec_parse_port(text.take(dash)) {
            Ok(start) => match spec_parse_port(text.skip(dash + 1)) {
                Ok(end) => if start <= end {
                    Ok((start, end))
                } else {
                    Err(PortSpecError::Reversed)
                },
                Err(error) => Err(error),
            },
            Err(error) => Err(error),
        }
    }
}

/// The ranges that a list of texts names, in order, or the error of the
/// first text that names none.
pub open spec fn spec_port_ranges(texts: Seq<Seq<u8>>) -> Result<Seq<(u16, u16)>, PortSpecError>
    decreases texts.len(),
{
    if texts.len() == 0 {
        Ok(Seq::empty())
    } else {
        match spec_port_ranges(texts.drop_last()) {
            Ok(ranges) => match spec_parse_port_range(texts.last()) {
                Ok(range) => if total_ports(ranges.push(range)) > u64::MAX {
                    Err(PortSpecError::TooMany)
                } else {
                    Ok(ranges.push(range))
                },
                Err(error) => Err(error),
            },
            Err(error) => Err(error),
        }
    }
}

/// A number grows with every digit appended.
proof fn lemma_decimal_value_grows(text: Seq<u8>, upto: int)
    requires
        0 <= upto <= text.len(),
        forall|i: int| 0 <= i < text.len() ==> is_digit(#[trigger] text[i]),
    ensures
        decimal_value(text.take(upto)) <= decimal_value(text),
    decreases text.len() - upto,
{
    if upto < text.len() {
        assert(text.take(upto + 1).drop_last() =~= text.take(upto));
        assert(is_digit(text[upto]));
        lemma_decimal_value_grows(text, upto + 1);
    } else {
        assert(text.take(upto) =~= text);
    }
}

/// The first dash is within the text or at its end, and no dash is before it.
proof fn lemma_first_dash(text: Seq<u8>)
    ensures
        0 <= first_dash(text) <= text.len(),
        first_dash(text) < text.len() ==> text[first_dash(text)] == 0x2D,
        forall|i: int| 0 <= i < first_dash(text) ==> #[trigger] text[i] != 0x2D,
    decreases text.len(),
{
    if !(text.len() == 0 || text[0] == 0x2D) {
        lemma_first_dash(text.skip(1));
        assert forall|i: int| 0 <= i < first_dash(text) implies #[trigger] text[i] != 0x2D by {
            if i > 0 {
                assert(text.skip(1)[i - 1] == text[i]);
            }
        }
    }
}

/// A dash with no dash before it is the first dash.
proof fn lemma_first_dash_is(text: Seq<u8>, at: int)
    requires
        0 <= at <= text.len(),
        at < text.len() ==> text[at] == 0x2D,
        forall|i: int| 0 <= i < at ==> #[trigger] text[i] != 0x2D,
    ensures
        first_dash(text) == at,
{
    lemma_first_dash(text);
    let found = first_dash(text);
    if found < at {
        assert(text[found] != 0x2D);
    }
    if at < found {
        assert(text[at] != 0x2D);
    }
}

/// Reads a port: a decimal number up to 65535, in ASCII digits.
pub fn parse_port(text: &[u8]) -> (port: Result<u16, PortSpecError>)
    ensures
        port == spec_parse_port(text@),
{
    if text.len() == 0 {
        return Err(PortSpecError::Malformed);
    }
    let mut value: u32 = 0;
    let mut i: usize = 0;
    while i < text.len()
        invariant
            0 <= i <= text.len(),
            forall|j: int| 0 <= j < i ==> is_digit(#[trigger] text@[j]),
            value <= 65536,
            value <= 65535 ==> value == decimal_value(text@.take(i as int)),
            value == 65536 ==> decimal_value(text@.take(i as int)) > 65535,
        decreases text.len() - i,
    {
        let byte = text[i];
        if byte < 0x30 || byte > 0x39 {
            return Err(PortSpecError::Malformed);
        }
        proof {
            assert(text@.take(i + 1).drop_last() =~= text@.take(i as int));
        }
        if value <= 65535 {
            value = value * 10 + (byte - 0x30) as u32;
            if value > 65535 {
                value = 65536;
            }
        }
        i = i + 1;
    }
    proof {
        assert(text@.take(i as int) =~= text@);
    }
    if value > 65535 {
        Err(PortSpecError::TooLarge)
    } else {
        Ok(value as u16)
    }
}

/// Reads a port or a range of ports: `N`, or `N-M` with `N` not above `M`.
pub fn parse_port_range(text: &[u8]) -> (range: Result<(u16, u16), PortSpecError>)
    ensures
        range == spec_parse_port_range(text@),
{
    let mut dash: usize = 0;
    while dash < text.len() && text[dash] != 0x2D
        invariant
            0 <= dash <= text.len(),
            forall|i: int| 0 <= i < dash ==> #[trigger] text@[i] != 0x2D,
        decreases text.len() - dash,
    {
        dash = dash + 1;
    }
    proof {
        lemma_first_dash_is(text@, dash as int);
    }
    if dash >= text.len() {
        return match parse_port(text) {
            Ok(port) => Ok((port, port)),
            Err(error) => Err(error),
        };
    }
    let start = match parse_port(vstd::slice::slice_subrange(text, 0, dash)) {
        Ok(start) => start,
        Err(error) => {
            return Err(error);
        },
    };
    let end = match parse_port(vstd::slice::slice_subrange(text, dash + 1, text.len())) {
        Ok(end) => end,
        Err(error) => {
            return Err(error);
        },
    };
    if start <= end {
        Ok((start, end))
    } else {
        Err(PortSpecError::Reversed)
    }
}

/// The UTF-8 bytes of each text of a list.
pub open spec fn bytes_of(texts: Seq<String>) -> Seq<Seq<u8>> {
    texts.map_values(|text: String| encode_utf8(text@))
}

/// The port sequence that a list of texts names: for each text `N` the port
/// `N`, and for each text `N-M` the ports from `N` to `M`, in the order of
/// the list. The first text that names no ports decides the error.
pub fn get_ports(port_strings: &Vec<String>) -> (ports: Result<PortIterator, PortSpecError>)
    ensures
        match spec_port_ranges(bytes_of(port_strings@)) {
            Ok(ranges) => ports matches Ok(sequence) && sequence.wf() && sequence.ranges() == ranges
                && sequence.position() == 0,
            Err(error) => ports == Err::<PortIterator, PortSpecError>(error),
        },
{
    let mut ports = PortIterator::new();
    let mut total: u64 = 0;
    let mut i: usize = 0;
    while i < port_strings.len()
        invariant
            0 <= i <= port_strings.len(),
            ports.wf(),
            ports.position() == 0,
            total == ports.spec_size(),
            spec_port_ranges(bytes_of(port_strings@).take(i as int)) == Ok::<
                Seq<(u16, u16)>,
                PortSpecError,
            >(ports.ranges()),
        decreases port_strings.len() - i,
    {
        let ghost texts = bytes_of(port_strings@);
        proof {
            assert(texts.take(i + 1).drop_last() =~= texts.take(i as int));
            assert(texts.take(i + 1).last() == texts[i as int]);
            lemma_port_ranges_error(texts, i + 1);
        }
        let (start, end) = match parse_port_range(port_strings[i].as_str().as_bytes()) {
            Ok(range) => range,
            Err(error) => {
                return Err(error);
            },
        };
        let count: u64 = (end - start) as u64 + 1;
        proof {
            assert(ports.ranges().push((start, end)).drop_last() =~= ports.ranges());
            assert(total_ports(ports.ranges().push((start, end))) == total + count);
        }
        if total > u64::MAX - count {
            return Err(PortSpecError::TooMany);
        }
        ports = ports.add_range(start, end);
        total = total + count;
        i = i + 1;
    }
    proof {
        assert(bytes_of(port_strings@).take(i as int) =~= bytes_of(port_strings@));
    }
    Ok(ports)
}

/// An error among the first texts of a list is the error of the whole list.
proof fn lemma_port_ranges_error(texts: Seq<Seq<u8>>, upto: int)
    requires
        0 <= upto <= texts.len(),
    ensures
        spec_port_ranges(texts.take(upto)) matches Err(error) ==> spec_port_ranges(texts) == Err::<
            Seq<(u16, u16)>,
            PortSpecError,
        >(error),
    decreases texts.len() - upto,
{
    if upto < texts.len() {
        assert(texts.take(upto + 1).drop_last() =~= texts.take(upto));
        lemma_port_ranges_error(texts, upto + 1);
    } else {
        assert(texts.take(upto) =~= texts);
    }
}

/// The rate limit of a scan: none in the fastest mode or when 0 is asked
/// for, the default when nothing is asked for, and else what is asked for.
pub fn get_rate_limit(rate_limit: Option<usize>, sanic: bool) -> (limit: Option<usize>)
    ensures
        limit == if sanic {
            None
        } else {
            match rate_limit {
                Some(rate) => if rate == 0 {
                    None
                } else {
                    Some(rate)
                },
                None => Some(DEFAULT_RATE_LIMIT),
            }
        },
{
    if sanic {
        return None;
    }
    match rate_limit {
        Some(rate) => if rate == 0 {
            None
        } else {
            Some(rate)
        },
        None => Some(DEFAULT_RATE_LIMIT),
    }
}

/// The retries of a scan: what is asked for, else none in the fastest mode,
/// else the default.
pub fn get_retries(retries: Option<u8>, sanic: bool) -> (count: u8)
    ensures
        count == match retries {
            Some(asked) => asked,
            None => if sanic {
                0
            } else {
                DEFAULT_PORT_RETRY
            },
        },
{
    match retries {
        Some(asked) => asked,
        None => if sanic {
            0
        } else {
            DEFAULT_PORT_RETRY
        },
    }
}

/// The timeout of a probe in milliseconds: what is asked for, else the
/// default.
pub fn get_timeout(timeout: Option<u64>) -> (millis: u64)
    ensures
        millis == match timeout {
            Some(asked) => asked,
            None => DEFAULT_TIMEOUT_IN_MS,
        },
{
    match timeout {
        Some(asked) => asked,
        None => DEFAULT_TIMEOUT_IN_MS,
    }
}

/// Whether results may be streamed to the standard output as they come:
/// only in quiet mode, or when the output is not a terminal.
pub fn streaming_allowed(quiet_mode: bool, stdout_is_terminal: bool) -> (allowed: bool)
    ensures
        allowed == (quiet_mode || !stdout_is_terminal),
{
    quiet_mode || !stdout_is_terminal
}

/// `Rng::gen_range` of `rand`'s thread-local generator over `low..high`: a
/// number that is at least `low` and below `high`. The range must not be
/// empty.
#[verifier::external_body]
fn random_port(low: u16, high: u16) -> (port: u16)
    requires
        low < high,
    ensures
        low <= port < high,
{
    rand::thread_rng().gen_range(low..high)
}

/// The port to listen on: what is asked for, else any port from 50000 up to
/// 59999.
pub fn get_listening_port(listening_port: Option<u16>) -> (port: u16)
    ensures
        match listening_port {
            Some(asked) => port == asked,
            None => LISTENING_PORT_LOW <= port < LISTENING_PORT_HIGH,
        },
{
    match listening_port {
        Some(asked) => asked,
        None => random_port(LISTENING_PORT_LOW, LISTENING_PORT_HIGH),
    }
}

} // verus!
