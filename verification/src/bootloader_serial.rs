//! The serial bootloader protocol: its commands and responses, how a
//! request is framed, and how a response is read back.
//!
//! A request is the payload with every escape byte doubled, then the escape
//! byte and the command; a sync message may go before it. A response is the
//! escape byte and a response code, then the payload, in which a doubled
//! escape byte stands for one.

use crate::errors::TockError;
use vstd::prelude::*;

verus! {

/// The byte that announces a command or a response, and that is doubled
/// where it occurs in a payload.
pub const ESCAPE_CHAR: u8 = 0xFC;

/// First byte of the message that makes the bootloader start a new command.
pub const SYNC_0: u8 = 0x00;

/// Second byte of the sync message.
pub const SYNC_1: u8 = 0xFC;

/// Third byte of the sync message.
pub const SYNC_2: u8 = 0x05;

/// Milliseconds allowed for each read and each write.
pub const DEFAULT_TIMEOUT_MS: u64 = 5000;

/// How often a ping is sent before the bootloader is taken to be absent.
pub const PING_ATTEMPTS: usize = 30;

/// What the loader can ask of the bootloader.
#[derive(Clone, Copy, Debug, PartialEq, Eq, Structural)]
pub enum Command {
    Ping,
    Info,
    ID,
    Reset,
    ErasePage,
    WritePage,
    XEBlock,
    XWPage,
    Crcx,
    ReadRange,
    XRRange,
    SetAttribute,
    GetAttribute,
    CRCInternalFlash,
    Crcef,
    XEPage,
    XFinit,
    ClkOut,
    WUser,
    ChangeBaudRate,
    Exit,
    SetStartAddress,
}

impl Command {
    /// The byte that stands for the command on the wire.
    pub open spec fn spec_code(self) -> u8 {
        match self {
            Command::Ping => 0x01,
            Command::Info => 0x03,
            Command::ID => 0x04,
            Command::Reset => 0x05,
            Command::ErasePage => 0x06,
            Command::WritePage => 0x07,
            Command::XEBlock => 0x08,
            Command::XWPage => 0x09,
            Command::Crcx => 0x10,
            Command::ReadRange => 0x11,
            Command::XRRange => 0x12,
            Command::SetAttribute => 0x13,
            Command::GetAttribute => 0x14,
            Command::CRCInternalFlash => 0x15,
            Command::Crcef => 0x16,
            Command::XEPage => 0x17,
            Command::XFinit => 0x18,
            Command::ClkOut => 0x19,
            Command::WUser => 0x20,
            Command::ChangeBaudRate => 0x21,
            Command::Exit => 0x22,
            Command::SetStartAddress => 0x23,
        }
    }

    /// The byte that stands for the command on the wire.
    pub fn code(self) -> (c: u8)
        ensures
            c == self.spec_code(),
    {
        match self {
            Command::Ping => 0x01,
            Command::Info => 0x03,
            Command::ID => 0x04,
            Command::Reset => 0x05,
            Command::ErasePage => 0x06,
            Command::WritePage => 0x07,
            Command::XEBlock => 0x08,
            Command::XWPage => 0x09,
            Command::Crcx => 0x10,
            Command::ReadRange => 0x11,
            Command::XRRange => 0x12,
            Command::SetAttribute => 0x13,
            Command::GetAttribute => 0x14,
            Command::CRCInternalFlash => 0x15,
            Command::Crcef => 0x16,
            Command::XEPage => 0x17,
            Command::XFinit => 0x18,
            Command::ClkOut => 0x19,
            Command::WUser => 0x20,
            Command::ChangeBaudRate => 0x21,
            Command::Exit => 0x22,
            Command::SetStartAddress => 0x23,
        }
    }
}

/// What the bootloader can answer.
#[derive(Clone, Copy, Debug, PartialEq, Eq, Structural)]
pub enum Response {
    Overflow,
    Pong,
    BadAddr,
    IntError,
    BadArgs,
    OK,
    Unknown,
    XFTimeout,
    Xfepe,
    Crcrx,
    ReadRange,
    XRRange,
    GetAttribute,
    CRCInternalFlash,
    Crcxf,
    Info,
    ChangeBaudFail,
    /// Any byte that is no response code.
    BadResp,
}

impl Response {
    /// The byte that stands for the response on the wire. `BadResp` stands
    /// for the bytes that are no response code; the byte given for it is
    /// one of them.
    pub open spec fn spec_code(self) -> u8 {
        match self {
            Response::Overflow => 0x10,
            Response::Pong => 0x11,
            Response::BadAddr => 0x12,
            Response::IntError => 0x13,
            Response::BadArgs => 0x14,
            Response::OK => 0x15,
            Response::Unknown => 0x16,
            Response::XFTimeout => 0x17,
            Response::Xfepe => 0x18,
            Response::Crcrx => 0x19,
            Response::ReadRange => 0x20,
            Response::XRRange => 0x21,
            Response::GetAttribute => 0x22,
            Response::CRCInternalFlash => 0x23,
            Response::Crcxf => 0x24,
            Response::Info => 0x25,
            Response::ChangeBaudFail => 0x26,
            Response::BadResp => 0x27,
        }
    }

    /// The response that the byte `value` stands for.
    pub open spec fn spec_from_code(value: u8) -> Response {
        if value == 0x10 {
            Response::Overflow
        } else if value == 0x11 {
            Response::Pong
        } else if value == 0x12 {
            Response::BadAddr
        } else if value == 0x13 {
            Response::IntError
        } else if value == 0x14 {
            Response::BadArgs
        } else if value == 0x15 {
            Response::OK
        } else if value == 0x16 {
            Response::Unknown
        } else if value == 0x17 {
            Response::XFTimeout
        } else if value == 0x18 {
            Response::Xfepe
        } else if value == 0x19 {
            Response::Crcrx
        } else if value == 0x20 {
            Response::ReadRange
        } else if value == 0x21 {
            Response::XRRange
        } else if value == 0x22 {
            Response::GetAttribute
        } else if value == 0x23 {
            Response::CRCInternalFlash
        } else if value == 0x24 {
            Response::Crcxf
        } else if value == 0x25 {
            Response::Info
        } else if value == 0x26 {
            Response::ChangeBaudFail
        } else {
            Response::BadResp
        }
    }

    /// The byte that stands for the response on the wire.
    pub fn code(self) -> (c: u8)
        ensures
            c == self.spec_code(),
            Self::spec_from_code(c) == self,
    {
        match self {
            Response::Overflow => 0x10,
            Response::Pong => 0x11,
            Response::BadAddr => 0x12,
            Response::IntError => 0x13,
            Response::BadArgs => 0x14,
            Response::OK => 0x15,
            Response::Unknown => 0x16,
            Response::XFTimeout => 0x17,
            Response::Xfepe => 0x18,
            Response::Crcrx => 0x19,
            Response::ReadRange => 0x20,
            Response::XRRange => 0x21,
            Response::GetAttribute => 0x22,
            Response::CRCInternalFlash => 0x23,
            Response::Crcxf => 0x24,
            Response::Info => 0x25,
            Response::ChangeBaudFail => 0x26,
            Response::BadResp => 0x27,
        }
    }
}

impl From<u8> for Response {
    fn from(value: u8) -> (response: Self) {
        if value == 0x10 {
            Response::Overflow
        } else if value == 0x11 {
            Response::Pong
        } else if value == 0x12 {
            Response::BadAddr
        } else if value == 0x13 {
            Response::IntError
        } else if value == 0x14 {
            Response::BadArgs
        } else if value == 0x15 {
            Response::OK
        } else if value == 0x16 {
            Response::Unknown
        } else if value == 0x17 {
            Response::XFTimeout
        } else if value == 0x18 {
            Response::Xfepe
        } else if value == 0x19 {
            Response::Crcrx
        } else if value == 0x20 {
            Response::ReadRange
        } else if value == 0x21 {
            Response::XRRange
        } else if value == 0x22 {
            Response::GetAttribute
        } else if value == 0x23 {
            Response::CRCInternalFlash
        } else if value == 0x24 {
            Response::Crcxf
        } else if value == 0x25 {
            Response::Info
        } else if value == 0x26 {
            Response::ChangeBaudFail
        } else {
            Response::BadResp
        }
    }
}

impl vstd::std_specs::convert::FromSpecImpl<u8> for Response {
    open spec fn obeys_from_spec() -> bool {
        true
    }

    open spec fn from_spec(value: u8) -> Response {
        Response::spec_from_code(value)
    }
}

/// One payload byte as it goes on the wire: doubled if it is the escape
/// byte.
pub open spec fn spec_escape_byte(byte: u8) -> Seq<u8> {
    if byte == ESCAPE_CHAR {
        seq![ESCAPE_CHAR, ESCAPE_CHAR]
    } else {
        seq![byte]
    }
}

/// The payload as it goes on the wire: every escape byte doubled.
pub open spec fn spec_escape(payload: Seq<u8>) -> Seq<u8>
    decreases payload.len(),
{
    if payload.len() == 0 {
        Seq::empty()
    } else {
        spec_escape_byte(payload[0]) + spec_escape(payload.skip(1))
    }
}

/// How many escape bytes `payload` holds.
pub open spec fn spec_count_escapes(payload: Seq<u8>) -> nat
    decreases payload.len(),
{
    if payload.len() == 0 {
        0
    } else if payload[0] == ESCAPE_CHAR {
        1 + spec_count_escapes(payload.skip(1))
    } else {
        spec_count_escapes(payload.skip(1))
    }
}

/// The sync message, or nothing.
pub open spec fn spec_sync_prefix(sync: bool) -> Seq<u8> {
    if sync {
        seq![SYNC_0, SYNC_1, SYNC_2]
    } else {
        Seq::empty()
    }
}

/// The bytes that ask for the command with code `code`: the sync message if
/// asked for, the escaped payload, the escape byte and the code.
pub open spec fn spec_frame(code: u8, payload: Seq<u8>, sync: bool) -> Seq<u8> {
    spec_sync_prefix(sync) + spec_escape(payload) + seq![ESCAPE_CHAR, code]
}

/// What a doubled escape byte stands for, read from the front: the wire
/// with every pair of escape bytes made one.
pub open spec fn spec_unescape(wire: Seq<u8>) -> Seq<u8>
    decreases wire.len(),
{
    if wire.len() == 0 {
        Seq::empty()
    } else if wire.len() >= 2 && wire[0] == ESCAPE_CHAR && wire[1] == ESCAPE_CHAR {
        seq![ESCAPE_CHAR] + spec_unescape(wire.skip(2))
    } else {
        seq![wire[0]] + spec_unescape(wire.skip(1))
    }
}

/// Escaping goes piece by piece: a payload made of two parts is escaped as
/// its parts are.
pub proof fn lemma_escape_concat(a: Seq<u8>, b: Seq<u8>)
    ensures
        spec_escape(a + b) == spec_escape(a) + spec_escape(b),
    decreases a.len(),
{
    if a.len() == 0 {
        assert(a + b =~= b);
        assert(spec_escape(a) + spec_escape(b) =~= spec_escape(b));
    } else {
        lemma_escape_concat(a.skip(1), b);
        assert((a + b).skip(1) =~= a.skip(1) + b);
        assert(spec_escape(a + b) =~= spec_escape(a) + spec_escape(b));
    }
}

/// Escaping adds exactly one byte for each escape byte of the payload.
pub proof fn lemma_escape_length(payload: Seq<u8>)
    ensures
        spec_escape(payload).len() == payload.len() + spec_count_escapes(payload),
    decreases payload.len(),
{
    if payload.len() > 0 {
        lemma_escape_length(payload.skip(1));
    }
}

/// Reading back what was escaped gives the payload.
pub proof fn lemma_unescape_escape(payload: Seq<u8>)
    ensures
        spec_unescape(spec_escape(payload)) == payload,
    decreases payload.len(),
{
    if payload.len() > 0 {
        let rest = spec_escape(payload.skip(1));
        let wire = spec_escape(payload);
        lemma_unescape_escape(payload.skip(1));
        if payload[0] == ESCAPE_CHAR {
            assert(wire.skip(2) =~= rest);
            assert(spec_unescape(wire) =~= seq![ESCAPE_CHAR] + payload.skip(1));
        } else {
            assert(wire.skip(1) =~= rest);
            assert(spec_unescape(wire) =~= seq![payload[0]] + payload.skip(1));
        }
        assert(seq![payload[0]] + payload.skip(1) =~= payload);
    } else {
        assert(spec_escape(payload) =~= Seq::<u8>::empty());
    }
}

/// Escapes a payload: doubles every escape byte.
pub fn escape(payload: &[u8]) -> (wire: Vec<u8>)
    ensures
        wire@ == spec_escape(payload@),
        wire@.len() == payload@.len() + spec_count_escapes(payload@),
{
    let mut wire: Vec<u8> = Vec::new();
    let mut i: usize = 0;
    while i < payload.len()
        invariant
            i <= payload.len(),
            wire@ == spec_escape(payload@.take(i as int)),
        decreases payload.len() - i,
    {
        proof {
            let done = payload@.take(i as int);
            let one = seq![payload@[i as int]];
            lemma_escape_concat(done, one);
            assert(payload@.take(i + 1) =~= done + one);
            assert(one.skip(1) =~= Seq::<u8>::empty());
            assert(spec_escape(one.skip(1)) =~= Seq::<u8>::empty());
            assert(spec_escape(one) =~= spec_escape_byte(payload@[i as int]));
        }
        if payload[i] == ESCAPE_CHAR {
            wire.push(ESCAPE_CHAR);
            wire.push(ESCAPE_CHAR);
        } else {
            wire.push(payload[i]);
        }
        assert(wire@ =~= spec_escape(payload@.take(i as int)) + spec_escape_byte(
            payload@[i as int],
        ));
        i = i + 1;
    }
    proof {
        assert(payload@.take(payload.len() as int) =~= payload@);
        lemma_escape_length(payload@);
    }
    wire
}

/// Builds the bytes that ask the bootloader for `command` with `message` as
/// its payload, behind the sync message if `sync` is set.
pub fn frame_command(command: Command, message: &[u8], sync: bool) -> (frame: Vec<u8>)
    ensures
        frame@ == spec_frame(command.spec_code(), message@, sync),
{
    let mut frame: Vec<u8> = Vec::new();
    if sync {
        frame.push(SYNC_0);
        frame.push(SYNC_1);
        frame.push(SYNC_2);
    }
    let mut escaped: Vec<u8> = escape(message);
    frame.append(&mut escaped);
    frame.push(ESCAPE_CHAR);
    frame.push(command.code());
    assert(frame@ =~= spec_frame(command.spec_code(), message@, sync));
    frame
}

/// The two bytes that ask whether the bootloader is there.
pub fn ping_frame() -> (frame: Vec<u8>)
    ensures
        frame@ == spec_frame(Command::Ping.spec_code(), Seq::empty(), false),
        frame@ == seq![ESCAPE_CHAR, 0x01u8],
{
    let frame: Vec<u8> = frame_command(Command::Ping, &[], false);
    assert(frame@ =~= seq![ESCAPE_CHAR, 0x01u8]);
    frame
}

/// Whether `header` is what answers a ping with a pong.
pub open spec fn spec_is_pong(header: Seq<u8>) -> bool {
    header.len() >= 2 && header[0] == ESCAPE_CHAR && header[1] == Response::Pong.spec_code()
}

/// Whether the two bytes that answer a ping are a pong: the escape byte
/// and the code of the pong.
pub fn is_pong(header: &[u8]) -> (pong: bool)
    ensures
        pong == spec_is_pong(header@),
{
    header.len() >= 2 && header[0] == ESCAPE_CHAR && header[1] == Response::Pong.code()
}

/// What to do after a ping was answered.
#[derive(Clone, Copy, Debug, PartialEq, Eq, Structural)]
pub enum PingStep {
    /// The bootloader answered with a pong.
    Connected,
    /// It did not: ping again.
    Again,
    /// It did not, as often as it was pinged: there is no bootloader.
    Absent,
}

/// Judges the two bytes that answer a ping, the `attempts`-th one sent. A
/// pong ends the pinging; anything else calls for another ping, until
/// `PING_ATTEMPTS` pings were sent in vain.
pub fn after_ping(attempts: usize, header: &[u8]) -> (step: PingStep)
    ensures
        step == if spec_is_pong(header@) {
            PingStep::Connected
        } else if attempts >= PING_ATTEMPTS {
            PingStep::Absent
        } else {
            PingStep::Again
        },
{
    if is_pong(header) {
        PingStep::Connected
    } else if attempts >= PING_ATTEMPTS {
        PingStep::Absent
    } else {
        PingStep::Again
    }
}

/// Checks the two bytes that announce a response: they must be the escape
/// byte and the code of the response that is expected.
pub fn check_response_header(first: u8, second: u8, expected: Response) -> (r: Result<
    Response,
    TockError,
>)
    ensures
        r == if first == ESCAPE_CHAR && second == expected.spec_code() {
            Ok::<Response, TockError>(Response::spec_from_code(second))
        } else {
            Err(TockError::BootloaderBadHeader(first, second))
        },
{
    if first == ESCAPE_CHAR && second == expected.code() {
        Ok(Response::from(second))
    } else {
        Err(TockError::BootloaderBadHeader(first, second))
    }
}

/// What the reader of a response does next.
#[derive(Clone, Copy, Debug, PartialEq, Eq, Structural)]
pub enum DecodeStep {
    /// Every byte read so far is decoded: the payload is complete.
    Finished,
    /// One byte was decoded; go on.
    Consumed,
    /// Two escape bytes were decoded as one: read one more byte from the
    /// wire and supply it, so that the payload still gets its full length.
    NeedByte,
}

/// The reader of a response payload: the bytes read from the wire so far,
/// how many of them are decoded, and the payload decoded from them.
#[derive(Clone, Debug)]
pub struct ResponseDecoder {
    pub input: Vec<u8>,
    pub position: usize,
    pub payload: Vec<u8>,
}

/// What a `ResponseDecoder` holds, as mathematical values.
#[verifier::ext_equal]
pub struct ResponseDecoderView {
    pub input: Seq<u8>,
    pub position: int,
    pub payload: Seq<u8>,
}

impl View for ResponseDecoder {
    type V = ResponseDecoderView;

    open spec fn view(&self) -> ResponseDecoderView {
        ResponseDecoderView {
            input: self.input@,
            position: self.position as int,
            payload: self.payload@,
        }
    }
}

/// Whether two escape bytes stand at `position` of `input`.
pub open spec fn spec_pair_at(input: Seq<u8>, position: int) -> bool {
    position + 1 < input.len() && input[position] == ESCAPE_CHAR && input[position + 1]
        == ESCAPE_CHAR
}

/// The reader after one step, and what it asks for.
///
/// With every byte decoded it is finished. A pair of escape bytes is
/// decoded as one escape byte, and one more byte is asked for. Any other
/// byte, an escape byte at the very end included, is decoded as itself.
pub open spec fn spec_decode_step(at: ResponseDecoderView) -> (ResponseDecoderView, DecodeStep) {
    if at.position < 0 || at.position >= at.input.len() {
        (at, DecodeStep::Finished)
    } else if spec_pair_at(at.input, at.position) {
        (
            ResponseDecoderView {
                input: at.input,
                position: at.position + 2,
                payload: at.payload.push(ESCAPE_CHAR),
            },
            DecodeStep::NeedByte,
        )
    } else {
        (
            ResponseDecoderView {
                input: at.input,
                position: at.position + 1,
                payload: at.payload.push(at.input[at.position]),
            },
            DecodeStep::Consumed,
        )
    }
}

/// The payload that a reader ends with when the wire holds `wire`, of which
/// the first `available` bytes are read and the first `position` decoded
/// into `payload`. Nothing if the wire ends before a byte that the reader
/// asks for.
pub open spec fn spec_read_payload(
    wire: Seq<u8>,
    position: int,
    available: int,
    payload: Seq<u8>,
) -> Option<Seq<u8>>
    decreases wire.len() - position,
{
    if position < 0 || available > wire.len() {
        None
    } else if position >= available {
        Some(payload)
    } else if spec_pair_at(wire.take(available), position) {
        if available >= wire.len() {
            None
        } else {
            spec_read_payload(wire, position + 2, available + 1, payload.push(ESCAPE_CHAR))
        }
    } else {
        spec_read_payload(wire, position + 1, available, payload.push(wire[position]))
    }
}

/// The payload of `length` bytes that is read from the start of `wire`, or
/// nothing if the wire is too short for it.
pub open spec fn spec_decode_response(wire: Seq<u8>, length: nat) -> Option<Seq<u8>> {
    spec_read_payload(wire, 0, length as int, Seq::empty())
}

/// A payload that is read in full has as many bytes as were asked for:
/// each pair of escape bytes costs one byte and one more is read for it.
pub proof fn lemma_payload_length(
    wire: Seq<u8>,
    position: int,
    available: int,
    payload: Seq<u8>,
)
    requires
        0 <= position <= available,
        spec_read_payload(wire, position, available, payload) is Some,
    ensures
        spec_read_payload(wire, position, available, payload)->Some_0.len() == payload.len()
            + available - position,
    decreases wire.len() - position,
{
    if position < available {
        if spec_pair_at(wire.take(available), position) {
            lemma_payload_length(wire, position + 2, available + 1, payload.push(ESCAPE_CHAR));
        } else {
            lemma_payload_length(wire, position + 1, available, payload.push(wire[position]));
        }
    }
}

/// A response of `length` bytes that is read in full has `length` bytes,
/// whatever the wire holds, a wire of nothing but escape bytes included.
pub proof fn lemma_response_length(wire: Seq<u8>, length: nat)
    requires
        spec_decode_response(wire, length) is Some,
    ensures
        spec_decode_response(wire, length)->Some_0.len() == length,
{
    lemma_payload_length(wire, 0, length as int, Seq::empty());
}

proof fn lemma_read_escaped(payload: Seq<u8>, tail: Seq<u8>, done: int)
    requires
        0 <= done <= payload.len(),
    ensures
        spec_read_payload(
            spec_escape(payload) + tail,
            spec_escape(payload.take(done)).len() as int,
            spec_escape(payload.take(done)).len() + payload.len() - done,
            payload.take(done),
        ) == Some(payload),
    decreases payload.len() - done,
{
    let wire = spec_escape(payload) + tail;
    let before = spec_escape(payload.take(done));
    let position = before.len() as int;
    let available = position + payload.len() - done;
    let rest = payload.skip(done);
    assert(payload =~= payload.take(done) + rest);
    lemma_escape_concat(payload.take(done), rest);
    lemma_escape_length(rest);
    assert(wire.len() >= position + spec_escape(rest).len());
    assert(available <= wire.len());
    if done == payload.len() {
        assert(payload.take(done) =~= payload);
    } else {
        let byte = payload[done];
        assert(rest[0] == byte);
        assert(payload.take(done + 1) =~= payload.take(done).push(byte));
        assert(payload.take(done + 1) =~= payload.take(done) + seq![byte]);
        lemma_escape_concat(payload.take(done), seq![byte]);
        assert(seq![byte].skip(1) =~= Seq::<u8>::empty());
        assert(spec_escape(seq![byte].skip(1)) =~= Seq::<u8>::empty());
        assert(spec_escape(seq![byte]) =~= spec_escape_byte(byte));
        assert(spec_escape(payload.take(done + 1)).len() == position + spec_escape_byte(
            byte,
        ).len());
        assert(spec_escape(rest) =~= spec_escape_byte(byte) + spec_escape(rest.skip(1)));
        assert(wire[position] == spec_escape(rest)[0]);
        assert(wire.take(available)[position] == wire[position]);
        if byte == ESCAPE_CHAR {
            assert(wire[position + 1] == spec_escape(rest)[1]);
            assert(spec_count_escapes(rest) >= 1);
            assert(available < wire.len());
            if payload.len() - done == 1 {
                assert(!spec_pair_at(wire.take(available), position));
                assert(payload.take(done).push(wire[position]) =~= payload);
                assert(spec_read_payload(
                    wire,
                    position + 1,
                    available,
                    payload.take(done).push(wire[position]),
                ) == Some(payload));
            } else {
                assert(wire.take(available)[position + 1] == wire[position + 1]);
                assert(spec_pair_at(wire.take(available), position));
                lemma_read_escaped(payload, tail, done + 1);
            }
        } else {
            assert(!spec_pair_at(wire.take(available), position));
            lemma_read_escaped(payload, tail, done + 1);
        }
    }
}

/// Reading back a payload that was escaped gives the payload, whatever
/// follows it on the wire.
pub proof fn lemma_response_round_trip(payload: Seq<u8>, tail: Seq<u8>)
    ensures
        spec_decode_response(spec_escape(payload) + tail, payload.len()) == Some(payload),
{
    lemma_read_escaped(payload, tail, 0);
    assert(payload.take(0) =~= Seq::<u8>::empty());
}

impl ResponseDecoder {
    /// A reader that starts from the bytes read first, as many as the
    /// payload is long, with none of them decoded.
    pub fn new(input: Vec<u8>) -> (decoder: ResponseDecoder)
        ensures
            decoder@ == (ResponseDecoderView {
                input: input@,
                position: 0,
                payload: Seq::empty(),
            }),
    {
        ResponseDecoder { input, position: 0, payload: Vec::new() }
    }

    /// Decodes the next byte and says what to do next.
    pub fn step(&mut self) -> (next: DecodeStep)
        ensures
            (final(self)@, next) == spec_decode_step(old(self)@),
    {
        if self.position >= self.input.len() {
            return DecodeStep::Finished;
        }
        let byte: u8 = self.input[self.position];
        if self.input.len() - self.position > 1 && byte == ESCAPE_CHAR && self.input[self.position
            + 1] == ESCAPE_CHAR {
            self.payload.push(ESCAPE_CHAR);
            self.position = self.position + 2;
            assert(self@ =~= spec_decode_step(old(self)@).0);
            DecodeStep::NeedByte
        } else {
            self.payload.push(byte);
            self.position = self.position + 1;
            assert(self@ =~= spec_decode_step(old(self)@).0);
            DecodeStep::Consumed
        }
    }

    /// Takes one more byte read from the wire.
    pub fn supply(&mut self, byte: u8)
        ensures
            final(self)@ == (ResponseDecoderView {
                input: old(self)@.input.push(byte),
                position: old(self)@.position,
                payload: old(self)@.payload,
            }),
    {
        self.input.push(byte);
    }

    /// The payload decoded so far.
    pub fn into_payload(self) -> (payload: Vec<u8>)
        ensures
            payload@ == self@.payload,
    {
        self.payload
    }
}

/// Reads a response payload of `response_len` bytes from the start of
/// `wire`, which holds what the bootloader sent after the two bytes that
/// announce the response. Returns nothing if `wire` ends too early.
pub fn decode_response(wire: &[u8], response_len: usize) -> (payload: Option<Vec<u8>>)
    ensures
        match payload {
            Some(p) => spec_decode_response(wire@, response_len as nat) == Some(p@),
            None => spec_decode_response(wire@, response_len as nat) is None,
        },
        payload matches Some(p) ==> p@.len() == response_len,
{
    if response_len > wire.len() {
        return None;
    }
    let first: Vec<u8> = vstd::slice::slice_to_vec(
        vstd::slice::slice_subrange(wire, 0, response_len),
    );
    let mut decoder = ResponseDecoder::new(first);
    let mut available: usize = response_len;
    loop
        invariant
            available <= wire.len(),
            decoder.position <= available,
            decoder.input@ == wire@.take(available as int),
            spec_read_payload(
                wire@,
                decoder.position as int,
                available as int,
                decoder.payload@,
            ) == spec_decode_response(wire@, response_len as nat),
        decreases wire.len() - decoder.position,
    {
        let ghost at = decoder@;
        match decoder.step() {
            DecodeStep::Finished => {
                proof {
                    if spec_decode_response(wire@, response_len as nat) is Some {
                        lemma_response_length(wire@, response_len as nat);
                    }
                }
                return Some(decoder.into_payload());
            },
            DecodeStep::Consumed => {
                assert(at.input[at.position] == wire@[at.position]);
            },
            DecodeStep::NeedByte => {
                if available >= wire.len() {
                    return None;
                }
                decoder.supply(wire[available]);
                available = available + 1;
                assert(decoder.input@ =~= wire@.take(available as int));
            },
        }
    }
}

} // verus!
