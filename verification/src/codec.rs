//! Wire codec: the bidirectional mapping between raw byte buffers and the
//! two closed vocabularies of the hardware protocol. Inbound packets carry
//! one opcode byte followed by an ASCII-decimal argument; outbound packets
//! are fixed command tokens, a two-letter tag optionally followed by the
//! decimal argument.

use vstd::prelude::*;

verus! {

/// Inbound wire event (hardware to controller): one opcode byte plus one
/// numeric floor or key argument.
#[derive(Clone, Copy, Debug, PartialEq, Eq, Structural)]
pub enum Event {
    ElevatorUp(u8),
    ElevatorDown(u8),
    PanelButtonPressed(u8),
    ElevatorApproaching(u8),
    ElevatorStopped(u8),
    DoorOpened(u8),
    DoorClosed(u8),
    KeySwitched(u8),
}

/// Outbound wire command (controller to hardware).
#[derive(Clone, Copy, Debug, PartialEq, Eq, Structural)]
pub enum Command {
    MU,
    MD,
    S,
    DO,
    DC,
    CP(u8),
    CU(u8),
    CD(u8),
    IU(u8),
    ID(u8),
    CI(u8),
    R,
}

/// Why an inbound byte buffer was rejected. Decode failures are non-fatal:
/// the pipeline drops the packet and continues.
#[derive(Clone, Copy, Debug, PartialEq, Eq, Structural)]
pub enum DecodeError {
    /// Fewer than two bytes: no room for an opcode and an argument.
    TooShort,
    /// The argument bytes are not a decimal number that fits in `u8`.
    BadArgument,
    /// The opcode byte is not part of the event vocabulary.
    UnknownOpcode,
}

pub open spec fn is_ascii_digit(b: u8) -> bool {
    48 <= b <= 57
}

/// A non-empty run of ASCII decimal digits.
pub open spec fn digits_wf(s: Seq<u8>) -> bool {
    s.len() > 0 && forall|k: int| 0 <= k < s.len() ==> is_ascii_digit(s[k])
}

/// Numeric value of a run of ASCII decimal digits, most significant first.
pub open spec fn digits_value(s: Seq<u8>) -> int
    decreases s.len(),
{
    if s.len() == 0 {
        0
    } else {
        digits_value(s.drop_last()) * 10 + (s.last() - 48)
    }
}

/// The argument field decodes exactly when it is a non-empty digit run
/// whose value fits in `u8`.
pub open spec fn spec_parse_arg(s: Seq<u8>) -> Option<u8> {
    if digits_wf(s) && digits_value(s) <= 255 {
        Some(digits_value(s) as u8)
    } else {
        None
    }
}

proof fn lemma_digits_value_nonneg(s: Seq<u8>)
    requires
        forall|k: int| 0 <= k < s.len() ==> is_ascii_digit(s[k]),
    ensures
        digits_value(s) >= 0,
    decreases s.len(),
{
    if s.len() > 0 {
        assert(forall|k: int|
            0 <= k < s.drop_last().len() ==> is_ascii_digit(s.drop_last()[k]));
        lemma_digits_value_nonneg(s.drop_last());
    }
}

/// A digit run is worth at least any of its prefixes.
proof fn lemma_digits_value_prefix_le(s: Seq<u8>, j: int)
    requires
        forall|k: int| 0 <= k < s.len() ==> is_ascii_digit(s[k]),
        0 <= j <= s.len(),
    ensures
        digits_value(s.take(j)) <= digits_value(s),
    decreases s.len() - j,
{
    if j == s.len() {
        assert(s.take(j) =~= s);
    } else {
        assert(s.take(j + 1).drop_last() =~= s.take(j));
        assert(s.take(j + 1).last() == s[j]);
        assert(forall|k: int| 0 <= k < s.take(j).len() ==> is_ascii_digit(s.take(j)[k]));
        lemma_digits_value_nonneg(s.take(j));
        assert(digits_value(s.take(j + 1)) == digits_value(s.take(j)) * 10 + (s[j] - 48));
        lemma_digits_value_prefix_le(s, j + 1);
    }
}

/// Parses the bytes of `raw` from `start` on as an ASCII-decimal `u8`.
fn parse_arg(raw: &[u8], start: usize) -> (r: Option<u8>)
    requires
        start <= raw@.len(),
    ensures
        r == spec_parse_arg(raw@.skip(start as int)),
{
    let ghost s = raw@.skip(start as int);
    let len = raw.len();
    if start == len {
        assert(!digits_wf(s));
        return None;
    }
    let mut acc: u16 = 0;
    let mut i = start;
    while i < len
        invariant
            start <= i <= len,
            len == raw@.len(),
            s == raw@.skip(start as int),
            acc <= 255,
            acc as int == digits_value(s.take(i - start)),
            forall|k: int| 0 <= k < i - start ==> is_ascii_digit(s[k]),
        decreases len - i,
    {
        let b = raw[i];
        assert(b == s[i - start]);
        if b < 48 || b > 57 {
            assert(!digits_wf(s));
            return None;
        }
        let d = (b - 48) as u16;
        let next = acc * 10 + d;
        assert(s.take(i - start + 1).drop_last() =~= s.take(i - start));
        assert(s.take(i - start + 1).last() == s[i - start]);
        if next > 255 {
            proof {
                if digits_wf(s) {
                    lemma_digits_value_prefix_le(s, i - start + 1);
                }
            }
            assert(spec_parse_arg(s) is None);
            return None;
        }
        acc = next;
        i = i + 1;
    }
    assert(s.take(len - start) =~= s);
    assert(digits_wf(s));
    Some(acc as u8)
}

/// What a raw inbound packet means: byte 0 is the opcode, the rest is the
/// decimal argument. A short buffer, a bad argument and an unknown opcode
/// fail, in that order of precedence.
pub open spec fn spec_decode_event(raw: Seq<u8>) -> Result<Event, DecodeError> {
    if raw.len() < 2 {
        Err(DecodeError::TooShort)
    } else {
        match spec_parse_arg(raw.skip(1)) {
            None => Err(DecodeError::BadArgument),
            Some(arg) => match raw[0] {
                85u8 => Ok(Event::ElevatorUp(arg)),
                68u8 => Ok(Event::ElevatorDown(arg)),
                80u8 => Ok(Event::PanelButtonPressed(arg)),
                65u8 => Ok(Event::ElevatorApproaching(arg)),
                83u8 => Ok(Event::ElevatorStopped(arg)),
                79u8 => Ok(Event::DoorOpened(arg)),
                67u8 => Ok(Event::DoorClosed(arg)),
                75u8 => Ok(Event::KeySwitched(arg)),
                _ => Err(DecodeError::UnknownOpcode),
            },
        }
    }
}

impl Event {
    /// Decodes one inbound packet.
    pub fn decode(raw: &[u8]) -> (r: Result<Event, DecodeError>)
        ensures
            r == spec_decode_event(raw@),
    {
        if raw.len() < 2 {
            return Err(DecodeError::TooShort);
        }
        let arg = match parse_arg(raw, 1) {
            Some(a) => a,
            None => {
                return Err(DecodeError::BadArgument);
            },
        };
        let op = raw[0];
        match op {
            85u8 => Ok(Event::ElevatorUp(arg)),
            68u8 => Ok(Event::ElevatorDown(arg)),
            80u8 => Ok(Event::PanelButtonPressed(arg)),
            65u8 => Ok(Event::ElevatorApproaching(arg)),
            83u8 => Ok(Event::ElevatorStopped(arg)),
            79u8 => Ok(Event::DoorOpened(arg)),
            67u8 => Ok(Event::DoorClosed(arg)),
            75u8 => Ok(Event::KeySwitched(arg)),
            _ => Err(DecodeError::UnknownOpcode),
        }
    }
}

/// Canonical ASCII decimal digits of `n`, most significant first, no
/// leading zeros.
pub open spec fn spec_dec_digits(n: nat) -> Seq<u8>
    decreases n,
{
    if n < 10 {
        seq![(48 + n) as u8]
    } else {
        spec_dec_digits(n / 10).push((48 + n % 10) as u8)
    }
}

proof fn lemma_dec_digits_wf(n: nat)
    ensures
        digits_wf(spec_dec_digits(n)),
    decreases n,
{
    if n >= 10 {
        lemma_dec_digits_wf(n / 10);
    }
}

/// The canonical digits of `n` read back as the value `n`.
proof fn lemma_dec_digits_value(n: nat)
    ensures
        digits_value(spec_dec_digits(n)) == n,
    decreases n,
{
    if n < 10 {
        assert(spec_dec_digits(n) == seq![(48 + n) as u8]);
        assert(spec_dec_digits(n).drop_last() =~= Seq::<u8>::empty());
        assert(spec_dec_digits(n).last() == (48 + n) as u8);
        assert(digits_value(Seq::<u8>::empty()) == 0);
        assert((48 + n) as u8 == 48 + n);
        assert(digits_value(spec_dec_digits(n)) == 0 * 10 + ((48 + n) as u8 - 48));
    } else {
        lemma_dec_digits_value(n / 10);
        assert(spec_dec_digits(n) == spec_dec_digits(n / 10).push((48 + n % 10) as u8));
        assert(spec_dec_digits(n).drop_last() =~= spec_dec_digits(n / 10));
        assert(spec_dec_digits(n).last() == (48 + n % 10) as u8);
        assert((48 + n % 10) as u8 == 48 + n % 10);
        assert(digits_value(spec_dec_digits(n)) == digits_value(spec_dec_digits(n / 10)) * 10 + (
        (48 + n % 10) as u8 - 48));
        assert(digits_value(spec_dec_digits(n)) == (n / 10) * 10 + n % 10);
    }
}

/// Appends the decimal digits of `v` to `out`.
fn push_dec_digits(out: &mut Vec<u8>, v: u8)
    ensures
        final(out)@ == old(out)@ + spec_dec_digits(v as nat),
{
    if v >= 100 {
        out.push(48 + v / 100);
    }
    if v >= 10 {
        out.push(48 + (v / 10) % 10);
    }
    out.push(48 + v % 10);
    proof {
        let n = v as nat;
        if v < 10 {
            assert(spec_dec_digits(n) == seq![(48 + n) as u8]);
            assert(v % 10 == v);
            assert(out@ =~= old(out)@ + spec_dec_digits(n));
        } else if v < 100 {
            assert(spec_dec_digits(n) == spec_dec_digits(n / 10).push((48 + n % 10) as u8));
            assert(n / 10 < 10);
            assert(spec_dec_digits(n / 10) == seq![(48 + n / 10) as u8]);
            assert((v / 10) % 10 == v / 10);
            assert(out@ =~= old(out)@ + spec_dec_digits(n));
        } else {
            assert(spec_dec_digits(n) == spec_dec_digits(n / 10).push((48 + n % 10) as u8));
            assert(n / 10 >= 10);
            assert(spec_dec_digits(n / 10) == spec_dec_digits((n / 10) / 10).push(
                (48 + (n / 10) % 10) as u8,
            ));
            vstd::arithmetic::div_mod::lemma_div_denominator(v as int, 10, 10);
            assert((n / 10) / 10 == n / 100);
            assert(n / 100 < 10);
            assert(spec_dec_digits(n / 100) == seq![(48 + n / 100) as u8]);
            assert(out@ =~= old(out)@ + spec_dec_digits(n));
        }
    }
}

/// The exact token each command encodes to: the tag letters, then the
/// decimal argument for the commands that carry one. No padding, no
/// delimiter.
pub open spec fn spec_encode_command(c: Command) -> Seq<u8> {
    match c {
        Command::MU => seq![77u8, 85u8],
        Command::MD => seq![77u8, 68u8],
        Command::S => seq![83u8],
        Command::DO => seq![68u8, 79u8],
        Command::DC => seq![68u8, 67u8],
        Command::R => seq![82u8],
        Command::CP(v) => seq![67u8, 80u8] + spec_dec_digits(v as nat),
        Command::CU(v) => seq![67u8, 85u8] + spec_dec_digits(v as nat),
        Command::CD(v) => seq![67u8, 68u8] + spec_dec_digits(v as nat),
        Command::IU(v) => seq![73u8, 85u8] + spec_dec_digits(v as nat),
        Command::ID(v) => seq![73u8, 68u8] + spec_dec_digits(v as nat),
        Command::CI(v) => seq![67u8, 73u8] + spec_dec_digits(v as nat),
    }
}

impl Command {
    /// Encodes this command as one outbound packet.
    pub fn encode(&self) -> (r: Vec<u8>)
        ensures
            r@ == spec_encode_command(*self),
    {
        let mut out: Vec<u8> = Vec::new();
        match self {
            Command::MU => {
                out.push(77);
                out.push(85);
            },
            Command::MD => {
                out.push(77);
                out.push(68);
            },
            Command::S => {
                out.push(83);
            },
            Command::DO => {
                out.push(68);
                out.push(79);
            },
            Command::DC => {
                out.push(68);
                out.push(67);
            },
            Command::R => {
                out.push(82);
            },
            Command::CP(v) => {
                out.push(67);
                out.push(80);
                push_dec_digits(&mut out, *v);
            },
            Command::CU(v) => {
                out.push(67);
                out.push(85);
                push_dec_digits(&mut out, *v);
            },
            Command::CD(v) => {
                out.push(67);
                out.push(68);
                push_dec_digits(&mut out, *v);
            },
            Command::IU(v) => {
                out.push(73);
                out.push(85);
                push_dec_digits(&mut out, *v);
            },
            Command::ID(v) => {
                out.push(73);
                out.push(68);
                push_dec_digits(&mut out, *v);
            },
            Command::CI(v) => {
                out.push(67);
                out.push(73);
                push_dec_digits(&mut out, *v);
            },
        }
        proof {
            assert(out@ =~= spec_encode_command(*self));
        }
        out
    }

    /// Decodes one command token, the mirror of [`Command::encode`]. The
    /// tag letters select the command; a tag that carries an argument is
    /// followed by its decimal digits.
    pub fn decode(raw: &[u8]) -> (r: Result<Command, DecodeError>)
        ensures
            r == spec_decode_command(raw@),
    {
        if raw.len() == 0 {
            return Err(DecodeError::TooShort);
        }
        let op = raw[0];
        if op == 77 {
            if raw.len() == 2 && raw[1] == 85 {
                Ok(Command::MU)
            } else if raw.len() == 2 && raw[1] == 68 {
                Ok(Command::MD)
            } else {
                Err(DecodeError::UnknownOpcode)
            }
        } else if op == 83 {
            if raw.len() == 1 {
                Ok(Command::S)
            } else {
                Err(DecodeError::UnknownOpcode)
            }
        } else if op == 82 {
            if raw.len() == 1 {
                Ok(Command::R)
            } else {
                Err(DecodeError::UnknownOpcode)
            }
        } else if op == 68 {
            if raw.len() == 2 && raw[1] == 79 {
                Ok(Command::DO)
            } else if raw.len() == 2 && raw[1] == 67 {
                Ok(Command::DC)
            } else {
                Err(DecodeError::UnknownOpcode)
            }
        } else if op == 67 {
            if raw.len() < 2 {
                Err(DecodeError::TooShort)
            } else if raw[1] == 80 {
                match parse_arg(raw, 2) {
                    Some(v) => Ok(Command::CP(v)),
                    None => Err(DecodeError::BadArgument),
                }
            } else if raw[1] == 85 {
                match parse_arg(raw, 2) {
                    Some(v) => Ok(Command::CU(v)),
                    None => Err(DecodeError::BadArgument),
                }
            } else if raw[1] == 68 {
                match parse_arg(raw, 2) {
                    Some(v) => Ok(Command::CD(v)),
                    None => Err(DecodeError::BadArgument),
                }
            } else if raw[1] == 73 {
                match parse_arg(raw, 2) {
                    Some(v) => Ok(Command::CI(v)),
                    None => Err(DecodeError::BadArgument),
                }
            } else {
                Err(DecodeError::UnknownOpcode)
            }
        } else if op == 73 {
            if raw.len() < 2 {
                Err(DecodeError::TooShort)
            } else if raw[1] == 85 {
                match parse_arg(raw, 2) {
                    Some(v) => Ok(Command::IU(v)),
                    None => Err(DecodeError::BadArgument),
                }
            } else if raw[1] == 68 {
                match parse_arg(raw, 2) {
                    Some(v) => Ok(Command::ID(v)),
                    None => Err(DecodeError::BadArgument),
                }
            } else {
                Err(DecodeError::UnknownOpcode)
            }
        } else {
            Err(DecodeError::UnknownOpcode)
        }
    }
}

/// What a command token means, the mirror of [`spec_encode_command`].
pub open spec fn spec_decode_command(raw: Seq<u8>) -> Result<Command, DecodeError> {
    if raw.len() == 0 {
        Err(DecodeError::TooShort)
    } else if raw[0] == 77u8 {
        if raw.len() == 2 && raw[1] == 85u8 {
            Ok(Command::MU)
        } else if raw.len() == 2 && raw[1] == 68u8 {
            Ok(Command::MD)
        } else {
            Err(DecodeError::UnknownOpcode)
        }
    } else if raw[0] == 83u8 {
        if raw.len() == 1 {
            Ok(Command::S)
        } else {
            Err(DecodeError::UnknownOpcode)
        }
    } else if raw[0] == 82u8 {
        if raw.len() == 1 {
            Ok(Command::R)
        } else {
            Err(DecodeError::UnknownOpcode)
        }
    } else if raw[0] == 68u8 {
        if raw.len() == 2 && raw[1] == 79u8 {
            Ok(Command::DO)
        } else if raw.len() == 2 && raw[1] == 67u8 {
            Ok(Command::DC)
        } else {
            Err(DecodeError::UnknownOpcode)
        }
    } else if raw[0] == 67u8 {
        if raw.len() < 2 {
            Err(DecodeError::TooShort)
        } else if raw[1] == 80u8 {
            match spec_parse_arg(raw.skip(2)) {
                Some(v) => Ok(Command::CP(v)),
                None => Err(DecodeError::BadArgument),
            }
        } else if raw[1] == 85u8 {
            match spec_parse_arg(raw.skip(2)) {
                Some(v) => Ok(Command::CU(v)),
                None => Err(DecodeError::BadArgument),
            }
        } else if raw[1] == 68u8 {
            match spec_parse_arg(raw.skip(2)) {
                Some(v) => Ok(Command::CD(v)),
                None => Err(DecodeError::BadArgument),
            }
        } else if raw[1] == 73u8 {
            match spec_parse_arg(raw.skip(2)) {
                Some(v) => Ok(Command::CI(v)),
                None => Err(DecodeError::BadArgument),
            }
        } else {
            Err(DecodeError::UnknownOpcode)
        }
    } else if raw[0] == 73u8 {
        if raw.len() < 2 {
            Err(DecodeError::TooShort)
        } else if raw[1] == 85u8 {
            match spec_parse_arg(raw.skip(2)) {
                Some(v) => Ok(Command::IU(v)),
                None => Err(DecodeError::BadArgument),
            }
        } else if raw[1] == 68u8 {
            match spec_parse_arg(raw.skip(2)) {
                Some(v) => Ok(Command::ID(v)),
                None => Err(DecodeError::BadArgument),
            }
        } else {
            Err(DecodeError::UnknownOpcode)
        }
    } else {
        Err(DecodeError::UnknownOpcode)
    }
}

/// Law: encoding any command and decoding the resulting token recovers
/// exactly that command, tag and argument alike.
pub proof fn lemma_command_round_trip(c: Command)
    ensures
        spec_decode_command(spec_encode_command(c)) == Ok::<Command, DecodeError>(c),
{
    let e = spec_encode_command(c);
    match c {
        Command::MU => {},
        Command::MD => {},
        Command::S => {},
        Command::DO => {},
        Command::DC => {},
        Command::R => {},
        Command::CP(v) => {
            assert(e.skip(2) =~= spec_dec_digits(v as nat));
            lemma_round_trip_arg(e, v);
        },
        Command::CU(v) => {
            assert(e.skip(2) =~= spec_dec_digits(v as nat));
            lemma_round_trip_arg(e, v);
        },
        Command::CD(v) => {
            assert(e.skip(2) =~= spec_dec_digits(v as nat));
            lemma_round_trip_arg(e, v);
        },
        Command::IU(v) => {
            assert(e.skip(2) =~= spec_dec_digits(v as nat));
            lemma_round_trip_arg(e, v);
        },
        Command::ID(v) => {
            assert(e.skip(2) =~= spec_dec_digits(v as nat));
            lemma_round_trip_arg(e, v);
        },
        Command::CI(v) => {
            assert(e.skip(2) =~= spec_dec_digits(v as nat));
            lemma_round_trip_arg(e, v);
        },
    }
}

/// The argument digits of an encoded token parse back to the argument.
proof fn lemma_round_trip_arg(e: Seq<u8>, v: u8)
    requires
        e.len() >= 2,
        e.skip(2) == spec_dec_digits(v as nat),
    ensures
        spec_parse_arg(e.skip(2)) == Some(v),
{
    lemma_dec_digits_wf(v as nat);
    lemma_dec_digits_value(v as nat);
}

} // verus!
