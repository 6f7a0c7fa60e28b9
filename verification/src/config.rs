//! The configuration values the bridge core consumes: the endpoint
//! grammar of a cross-connect (`tcp:ADDRESS:PORT` or
//! `serial:PORT_ID:CHANNEL`) and the spellings accepted for booleans and
//! serial-line parameters. Reading the configuration file itself is left
//! to the caller; these functions work on the resolved values.

use vstd::prelude::*;
use vstd::string::StrSliceExecFns;

verus! {

/// ASCII lower-casing of one character; anything but A to Z is unchanged.
pub open spec fn spec_lower_char(c: char) -> char {
    if 65 <= c as u32 <= 90 {
        (((c as u32) + 32) as u8) as char
    } else {
        c
    }
}

/// ASCII lower-casing of a whole string.
pub open spec fn spec_lower(s: Seq<char>) -> Seq<char> {
    s.map_values(|c: char| spec_lower_char(c))
}

/// Lower-cases one character.
fn lower_char(c: char) -> (r: char)
    ensures
        r == spec_lower_char(c),
{
    let u = c as u32;
    if 65 <= u && u <= 90 {
        ((u + 32) as u8) as char
    } else {
        c
    }
}

/// Whether `s`, lower-cased, spells exactly `w`.
fn matches_ci(s: &str, w: &str) -> (r: bool)
    ensures
        r == (spec_lower(s@) == w@),
{
    let n = s.unicode_len();
    if n != w.unicode_len() {
        proof {
            assert(spec_lower(s@).len() == s@.len());
        }
        return false;
    }
    let mut i: usize = 0;
    while i < n
        invariant
            i <= n,
            n == s@.len(),
            n == w@.len(),
            forall|k: int| 0 <= k < i ==> spec_lower_char(s@[k]) == w@[k],
        decreases n - i,
    {
        let c = lower_char(s.get_char(i));
        if c != w.get_char(i) {
            proof {
                assert(spec_lower(s@)[i as int] == spec_lower_char(s@[i as int]));
            }
            return false;
        }
        i += 1;
    }
    proof {
        assert(spec_lower(s@) =~= w@);
    }
    true
}

/// Whether `s` spells exactly `w`, case included.
fn matches_exact(s: &str, w: &str) -> (r: bool)
    ensures
        r == (s@ == w@),
{
    let n = s.unicode_len();
    if n != w.unicode_len() {
        return false;
    }
    let mut i: usize = 0;
    while i < n
        invariant
            i <= n,
            n == s@.len(),
            n == w@.len(),
            forall|k: int| 0 <= k < i ==> s@[k] == w@[k],
        decreases n - i,
    {
        if s.get_char(i) != w.get_char(i) {
            return false;
        }
        i += 1;
    }
    proof {
        assert(s@ =~= w@);
    }
    true
}

/// The flow control of a serial line.
#[derive(Clone, Copy, Debug, PartialEq, Eq, Structural)]
pub enum FlowControl {
    Off,
    Software,
    Hardware,
    DtrDsr,
}

/// The stop bits of a serial line.
#[derive(Clone, Copy, Debug, PartialEq, Eq, Structural)]
pub enum StopBits {
    One,
    Two,
}

/// The parity of a serial line.
#[derive(Clone, Copy, Debug, PartialEq, Eq, Structural)]
pub enum Parity {
    Off,
    Odd,
    Even,
}

/// The spellings accepted for a boolean option, case-insensitively.
pub open spec fn spec_parse_bool(s: Seq<char>) -> Option<bool> {
    let l = spec_lower(s);
    if l == "1"@ || l == "true"@ || l == "yes"@ || l == "on"@ {
        Some(true)
    } else if l == "0"@ || l == "false"@ || l == "no"@ || l == "off"@ {
        Some(false)
    } else {
        None
    }
}

/// The spellings accepted for a flow-control option, case-insensitively.
pub open spec fn spec_parse_flow_control(s: Seq<char>) -> Option<FlowControl> {
    let l = spec_lower(s);
    if l == "software"@ || l == "xon"@ || l == "xonxoff"@ || l == "xon-xoff"@ {
        Some(FlowControl::Software)
    } else if l == "hardware"@ || l == "rtscts"@ || l == "rts-cts"@ || l == "rts/cts"@ {
        Some(FlowControl::Hardware)
    } else if l == "dtrdsr"@ || l == "dtr-dsr"@ || l == "dtr/dsr"@ {
        Some(FlowControl::DtrDsr)
    } else if l == "none"@ || l == "off"@ || l == "no"@ {
        Some(FlowControl::Off)
    } else {
        None
    }
}

/// The spellings accepted for a stop-bits option, case included.
pub open spec fn spec_parse_stop_bits(s: Seq<char>) -> Option<StopBits> {
    if s == "1"@ || s == "one"@ {
        Some(StopBits::One)
    } else if s == "2"@ || s == "two"@ {
        Some(StopBits::Two)
    } else {
        None
    }
}

/// The spellings accepted for a parity option, case-insensitively.
pub open spec fn spec_parse_parity(s: Seq<char>) -> Option<Parity> {
    let l = spec_lower(s);
    if l == "none"@ || l == "n"@ || l == "no"@ {
        Some(Parity::Off)
    } else if l == "odd"@ || l == "o"@ {
        Some(Parity::Odd)
    } else if l == "even"@ || l == "e"@ {
        Some(Parity::Even)
    } else {
        None
    }
}

/// Reads a boolean option.
pub fn parse_bool(s: &str) -> (r: Option<bool>)
    ensures
        r == spec_parse_bool(s@),
{
    if matches_ci(s, "1") || matches_ci(s, "true") || matches_ci(s, "yes") || matches_ci(s, "on") {
        Some(true)
    } else if matches_ci(s, "0") || matches_ci(s, "false") || matches_ci(s, "no")
        || matches_ci(s, "off") {
        Some(false)
    } else {
        None
    }
}

/// Reads a flow-control option.
pub fn parse_flow_control(s: &str) -> (r: Option<FlowControl>)
    ensures
        r == spec_parse_flow_control(s@),
{
    if matches_ci(s, "software") || matches_ci(s, "xon") || matches_ci(s, "xonxoff")
        || matches_ci(s, "xon-xoff") {
        Some(FlowControl::Software)
    } else if matches_ci(s, "hardware") || matches_ci(s, "rtscts") || matches_ci(s, "rts-cts")
        || matches_ci(s, "rts/cts") {
        Some(FlowControl::Hardware)
    } else if matches_ci(s, "dtrdsr") || matches_ci(s, "dtr-dsr") || matches_ci(s, "dtr/dsr") {
        Some(FlowControl::DtrDsr)
    } else if matches_ci(s, "none") || matches_ci(s, "off") || matches_ci(s, "no") {
        Some(FlowControl::Off)
    } else {
        None
    }
}

/// Reads a stop-bits option.
pub fn parse_stop_bits(s: &str) -> (r: Option<StopBits>)
    ensures
        r == spec_parse_stop_bits(s@),
{
    if matches_exact(s, "1") || matches_exact(s, "one") {
        Some(StopBits::One)
    } else if matches_exact(s, "2") || matches_exact(s, "two") {
        Some(StopBits::Two)
    } else {
        None
    }
}

/// Reads a parity option.
pub fn parse_parity(s: &str) -> (r: Option<Parity>)
    ensures
        r == spec_parse_parity(s@),
{
    if matches_ci(s, "none") || matches_ci(s, "n") || matches_ci(s, "no") {
        Some(Parity::Off)
    } else if matches_ci(s, "odd") || matches_ci(s, "o") {
        Some(Parity::Odd)
    } else if matches_ci(s, "even") || matches_ci(s, "e") {
        Some(Parity::Even)
    } else {
        None
    }
}

/// The serial line settings a device is actually opened with: while any
/// bridge on the device frames KISS (is not in raw copy), the line is
/// forced to one stop bit and no parity, whatever the configuration
/// asks; a pure raw-copy device keeps its configured values.
pub fn effective_line_settings(stop_bits: StopBits, parity: Parity, kiss_mode: bool) -> (r: (
    StopBits,
    Parity,
))
    ensures
        r == if kiss_mode {
            (StopBits::One, Parity::Off)
        } else {
            (stop_bits, parity)
        },
{
    if kiss_mode {
        (StopBits::One, Parity::Off)
    } else {
        (stop_bits, parity)
    }
}

/// The index of the first occurrence of `c`, or -1 when there is none.
pub open spec fn spec_find_char(s: Seq<char>, c: char) -> int
    decreases s.len(),
{
    if s.len() == 0 {
        -1
    } else if s[0] == c {
        0
    } else {
        let r = spec_find_char(s.skip(1), c);
        if r == -1 {
            -1
        } else {
            r + 1
        }
    }
}

/// What the first-occurrence index means.
proof fn lemma_find_char(s: Seq<char>, c: char)
    ensures
        spec_find_char(s, c) == -1 ==> forall|k: int| 0 <= k < s.len() ==> s[k] != c,
        spec_find_char(s, c) != -1 ==> {
            let f = spec_find_char(s, c);
            &&& 0 <= f < s.len()
            &&& s[f] == c
            &&& forall|k: int| 0 <= k < f ==> s[k] != c
        },
    decreases s.len(),
{
    if s.len() > 0 && s[0] != c {
        lemma_find_char(s.skip(1), c);
        let r = spec_find_char(s.skip(1), c);
        if r == -1 {
            assert forall|k: int| 0 <= k < s.len() implies s[k] != c by {
                if k > 0 {
                    assert(s.skip(1)[k - 1] == s[k]);
                }
            }
        } else {
            assert(s.skip(1)[r] == s[r + 1]);
            assert forall|k: int| 0 <= k < r + 1 implies s[k] != c by {
                if k > 0 {
                    assert(s.skip(1)[k - 1] == s[k]);
                }
            }
        }
    }
}

/// A prefix without the character does not change where it is first
/// found.
proof fn lemma_find_char_skip(s: Seq<char>, c: char, i: int)
    requires
        0 <= i <= s.len(),
        forall|k: int| 0 <= k < i ==> s[k] != c,
    ensures
        spec_find_char(s, c) == if spec_find_char(s.skip(i), c) == -1 {
            -1int
        } else {
            spec_find_char(s.skip(i), c) + i
        },
    decreases i,
{
    if i > 0 {
        assert(s[0] != c);
        assert(forall|k: int| 0 <= k < i - 1 ==> s.skip(1)[k] == s[k + 1]);
        lemma_find_char_skip(s.skip(1), c, i - 1);
        assert(s.skip(1).skip(i - 1) =~= s.skip(i));
        lemma_find_char(s.skip(i), c);
        assert(spec_find_char(s, c) == if spec_find_char(s.skip(1), c) == -1 {
            -1int
        } else {
            spec_find_char(s.skip(1), c) + 1
        });
    } else {
        assert(s.skip(0) =~= s);
    }
}

/// Finds the first occurrence of a character, as the grammar splits on
/// colons.
fn find_char(s: &str, c: char) -> (r: Option<usize>)
    ensures
        r is Some ==> r->0 == spec_find_char(s@, c) && r->0 < s@.len(),
        r is None ==> spec_find_char(s@, c) == -1,
{
    let n = s.unicode_len();
    let mut i: usize = 0;
    while i < n
        invariant
            i <= n,
            n == s@.len(),
            forall|k: int| 0 <= k < i ==> s@[k] != c,
        decreases n - i,
    {
        if s.get_char(i) == c {
            proof {
                lemma_find_char_skip(s@, c, i as int);
                assert(s@.skip(i as int)[0] == s@[i as int]);
            }
            return Some(i);
        }
        i += 1;
    }
    proof {
        lemma_find_char_skip(s@, c, n as int);
        assert(s@.skip(n as int).len() == 0);
    }
    None
}

/// Whether a character is a decimal digit.
pub open spec fn spec_is_digit(c: char) -> bool {
    48 <= c as u32 <= 57
}

/// Whether a string is one or more decimal digits.
pub open spec fn spec_all_digits(s: Seq<char>) -> bool {
    s.len() > 0 && forall|k: int| 0 <= k < s.len() ==> spec_is_digit(#[trigger] s[k])
}

/// The value of a digit string, most significant digit first.
pub open spec fn spec_digits_value(s: Seq<char>) -> int
    decreases s.len(),
{
    if s.len() == 0 {
        0
    } else {
        spec_digits_value(s.take(s.len() - 1)) * 10 + (s[s.len() - 1] as u32 - 48)
    }
}

/// The decimal reading of a string: its value when it is all digits and
/// the value is within the bound, nothing otherwise.
pub open spec fn spec_parse_decimal(s: Seq<char>, bound: int) -> Option<int> {
    if spec_all_digits(s) && spec_digits_value(s) <= bound {
        Some(spec_digits_value(s))
    } else {
        None
    }
}

/// A digit string's value only grows as digits are appended.
proof fn lemma_digits_value_monotone(s: Seq<char>, i: int)
    requires
        0 <= i <= s.len(),
        forall|k: int| 0 <= k < s.len() ==> spec_is_digit(#[trigger] s[k]),
    ensures
        0 <= spec_digits_value(s.take(i)) <= spec_digits_value(s),
    decreases s.len() - i,
{
    if i == s.len() {
        assert(s.take(i) =~= s);
        lemma_digits_value_nonneg(s);
    } else {
        lemma_digits_value_monotone(s, i + 1);
        let t = s.take(i + 1);
        assert(t.take(t.len() - 1) =~= s.take(i));
        assert(t[t.len() - 1] == s[i]);
        lemma_digits_value_nonneg(s.take(i));
        assert(spec_digits_value(s.take(i)) <= spec_digits_value(s.take(i)) * 10 + (s[i] as u32
            - 48));
    }
}

/// A digit string's value is never negative.
proof fn lemma_digits_value_nonneg(s: Seq<char>)
    requires
        forall|k: int| 0 <= k < s.len() ==> spec_is_digit(#[trigger] s[k]),
    ensures
        spec_digits_value(s) >= 0,
    decreases s.len(),
{
    if s.len() > 0 {
        assert(forall|k: int| 0 <= k < s.len() - 1 ==> s.take(s.len() - 1)[k] == s[k]);
        lemma_digits_value_nonneg(s.take(s.len() - 1));
    }
}

/// Reads a bounded decimal number: the value when `s` is all digits and
/// no more than `bound`, nothing otherwise.
fn parse_decimal(s: &str, bound: u32) -> (r: Option<u32>)
    requires
        9 <= bound,
    ensures
        r is Some ==> spec_parse_decimal(s@, bound as int) == Some(r->0 as int),
        r is None ==> spec_parse_decimal(s@, bound as int) is None,
{
    let n = s.unicode_len();
    if n == 0 {
        return None;
    }
    let mut value: u32 = 0;
    let mut i: usize = 0;
    proof {
        assert(s@.take(0) =~= Seq::<char>::empty());
    }
    while i < n
        invariant
            i <= n,
            n == s@.len(),
            value as int == spec_digits_value(s@.take(i as int)),
            value <= bound,
            9 <= bound,
            forall|k: int| 0 <= k < i ==> spec_is_digit(#[trigger] s@[k]),
        decreases n - i,
    {
        let c = s.get_char(i);
        let u = c as u32;
        if u < 48 || u > 57 {
            return None;
        }
        let d = u - 48;
        proof {
            let t = s@.take(i as int + 1);
            assert(t.take(t.len() - 1) =~= s@.take(i as int));
            assert(t[t.len() - 1] == s@[i as int]);
        }
        if value > bound / 10 || 10 * value > bound - d {
            proof {
                if spec_all_digits(s@) && spec_digits_value(s@) <= bound {
                    lemma_digits_value_monotone(s@, i as int + 1);
                }
            }
            return None;
        }
        value = 10 * value + d;
        i += 1;
    }
    proof {
        assert(s@.take(n as int) =~= s@);
    }
    Some(value)
}

/// One endpoint of a cross-connect.
#[derive(Clone, Debug)]
pub enum CrossConnectEndpoint {
    /// A TCP listener or peer at an address and port.
    TcpSocket { address: String, port: u16 },
    /// A KISS channel of a declared serial port.
    SerialPort { port_id: String, kiss_port: u8 },
}

/// An endpoint as the contracts see it.
pub ghost enum EndpointModel {
    Tcp { address: Seq<char>, port: u16 },
    Serial { port_id: Seq<char>, kiss_port: u8 },
}

/// Why an endpoint was refused.
#[derive(Clone, Copy, Debug, PartialEq, Eq, Structural)]
pub enum EndpointError {
    /// Not `tcp` and not `serial` before the first colon.
    InvalidEndpointType,
    /// A `tcp` endpoint without exactly three colon-separated fields.
    InvalidTcpFormat,
    /// A TCP port that is not a number up to 65535.
    InvalidTcpPort,
    /// A `serial` endpoint without exactly three colon-separated fields.
    InvalidSerialFormat,
    /// A KISS channel that is not a number up to 255.
    InvalidKissPort,
    /// A KISS channel above 15.
    KissPortOutOfRange,
    /// A serial port id that no declared serial port carries.
    UnknownSerialPortId,
}

/// Whether an id stands among the declared serial port ids.
pub open spec fn spec_known_id(ids: Seq<Seq<char>>, id: Seq<char>) -> bool {
    exists|k: int| 0 <= k < ids.len() && ids[k] == id
}

/// The endpoint grammar: `tcp:ADDRESS:PORT` or `serial:PORT_ID:CHANNEL`,
/// with exactly three fields, the port a number up to 65535, the channel
/// a number up to 15, and the serial port id one of the declared ids.
pub open spec fn spec_parse_endpoint(s: Seq<char>, ids: Seq<Seq<char>>) -> Result<
    EndpointModel,
    EndpointError,
> {
    let f1 = spec_find_char(s, ':');
    let head = if f1 == -1 {
        s
    } else {
        s.take(f1)
    };
    if head == "tcp"@ {
        if f1 == -1 {
            Err(EndpointError::InvalidTcpFormat)
        } else {
            let rest = s.skip(f1 + 1);
            let f2 = spec_find_char(rest, ':');
            if f2 == -1 || spec_find_char(rest.skip(f2 + 1), ':') != -1 {
                Err(EndpointError::InvalidTcpFormat)
            } else {
                match spec_parse_decimal(rest.skip(f2 + 1), 65535) {
                    Some(p) => Ok(EndpointModel::Tcp { address: rest.take(f2), port: p as u16 }),
                    None => Err(EndpointError::InvalidTcpPort),
                }
            }
        }
    } else if head == "serial"@ {
        if f1 == -1 {
            Err(EndpointError::InvalidSerialFormat)
        } else {
            let rest = s.skip(f1 + 1);
            let f2 = spec_find_char(rest, ':');
            if f2 == -1 || spec_find_char(rest.skip(f2 + 1), ':') != -1 {
                Err(EndpointError::InvalidSerialFormat)
            } else {
                match spec_parse_decimal(rest.skip(f2 + 1), 255) {
                    Some(p) => if p > 15 {
                        Err(EndpointError::KissPortOutOfRange)
                    } else if !spec_known_id(ids, rest.take(f2)) {
                        Err(EndpointError::UnknownSerialPortId)
                    } else {
                        Ok(EndpointModel::Serial { port_id: rest.take(f2), kiss_port: p as u8 })
                    },
                    None => Err(EndpointError::InvalidKissPort),
                }
            }
        }
    } else {
        Err(EndpointError::InvalidEndpointType)
    }
}

/// Reads one endpoint of a cross-connect against the declared serial
/// port ids.
pub fn parse_endpoint(s: &str, serial_port_ids: &Vec<String>) -> (r: Result<
    CrossConnectEndpoint,
    EndpointError,
>)
    ensures
        match spec_parse_endpoint(s@, serial_port_ids.deep_view()) {
            Ok(m) => r is Ok && match (r->Ok_0, m) {
                (CrossConnectEndpoint::TcpSocket { address, port },
                    EndpointModel::Tcp { address: ma, port: mp },
                ) => address@ == ma && port == mp,
                (CrossConnectEndpoint::SerialPort { port_id, kiss_port },
                    EndpointModel::Serial { port_id: mi, kiss_port: mk },
                ) => port_id@ == mi && kiss_port == mk,
                _ => false,
            },
            Err(e) => r == Result::<CrossConnectEndpoint, EndpointError>::Err(e),
        },
{
    let n = s.unicode_len();
    let f1 = find_char(s, ':');
    let head: &str = match f1 {
        Some(p) => s.substring_char(0, p),
        None => s,
    };
    proof {
        if f1 is Some {
            assert(s@.subrange(0, f1->0 as int) =~= s@.take(f1->0 as int));
        }
    }
    let is_tcp = matches_exact(head, "tcp");
    let is_serial = matches_exact(head, "serial");
    if !is_tcp && !is_serial {
        return Err(EndpointError::InvalidEndpointType);
    }
    let p1 = match f1 {
        Some(p) => p,
        None => {
            return Err(
                if is_tcp {
                    EndpointError::InvalidTcpFormat
                } else {
                    EndpointError::InvalidSerialFormat
                },
            );
        },
    };
    let rest: &str = s.substring_char(p1 + 1, n);
    proof {
        assert(s@.subrange(p1 as int + 1, n as int) =~= s@.skip(p1 as int + 1));
    }
    let f2 = find_char(rest, ':');
    let p2 = match f2 {
        Some(p) => p,
        None => {
            return Err(
                if is_tcp {
                    EndpointError::InvalidTcpFormat
                } else {
                    EndpointError::InvalidSerialFormat
                },
            );
        },
    };
    let rest_len = rest.unicode_len();
    let tail: &str = rest.substring_char(p2 + 1, rest_len);
    proof {
        assert(rest@.subrange(p2 as int + 1, rest_len as int) =~= rest@.skip(p2 as int + 1));
    }
    if find_char(tail, ':').is_some() {
        return Err(
            if is_tcp {
                EndpointError::InvalidTcpFormat
            } else {
                EndpointError::InvalidSerialFormat
            },
        );
    }
    let middle: &str = rest.substring_char(0, p2);
    proof {
        assert(rest@.subrange(0, p2 as int) =~= rest@.take(p2 as int));
    }
    if is_tcp {
        let port = match parse_decimal(tail, 65535) {
            Some(p) => p,
            None => {
                return Err(EndpointError::InvalidTcpPort);
            },
        };
        Ok(CrossConnectEndpoint::TcpSocket { address: middle.to_owned(), port: port as u16 })
    } else {
        let chan = match parse_decimal(tail, 255) {
            Some(p) => p,
            None => {
                return Err(EndpointError::InvalidKissPort);
            },
        };
        if chan > 15 {
            return Err(EndpointError::KissPortOutOfRange);
        }
        let mut known = false;
        let mut i: usize = 0;
        let ghost ids = serial_port_ids.deep_view();
        while i < serial_port_ids.len()
            invariant
                i <= serial_port_ids.len(),
                ids == serial_port_ids.deep_view(),
                ids.len() == serial_port_ids.len(),
                middle@ == rest@.take(p2 as int),
                !known ==> forall|k: int| 0 <= k < i ==> ids[k] != middle@,
                known ==> spec_known_id(ids, middle@),
            decreases serial_port_ids.len() - i,
        {
            proof {
                assert(ids[i as int] == serial_port_ids[i as int]@);
            }
            if matches_exact(serial_port_ids[i].as_str(), middle) {
                known = true;
            }
            i += 1;
        }
        if !known {
            return Err(EndpointError::UnknownSerialPortId);
        }
        Ok(CrossConnectEndpoint::SerialPort { port_id: middle.to_owned(), kiss_port: chan as u8 })
    }
}

} // verus!
