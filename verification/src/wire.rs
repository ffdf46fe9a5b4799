//! Specification of the wire format: each record is the JSON text of one
//! command or response union value, framed by a single trailing newline
//! byte. String payloads are escaped so that an encoded record never holds
//! a newline byte at all, and a quote or control byte only inside an
//! escape sequence.

use vstd::prelude::*;
use vstd::arithmetic::div_mod::lemma_fundamental_div_mod;
use vstd::utf8::{encode_utf8, decode_utf8, valid_utf8};
use crate::message::{CodecError, CommandModel, ResponseModel};

verus! {

/// Frame delimiter: one record per line.
pub const NL: u8 = 10;
/// ASCII double quote, the JSON string delimiter.
pub const QUOTE: u8 = 34;
/// ASCII backslash, the JSON escape character.
pub const BACKSLASH: u8 = 92;

/// Lower-case hex digit for a value below 16.
pub open spec fn hex_digit(n: u8) -> u8
    recommends
        n < 16,
{
    if n < 10 {
        ('0' as u8 + n) as u8
    } else {
        ('a' as u8 + (n - 10)) as u8
    }
}

/// The JSON escape of one byte of a string payload: quote, backslash and
/// the named control bytes take a two-byte escape, the remaining control
/// bytes take the six-byte `\u00XX` form, and every other byte stands as
/// itself.
pub open spec fn escape_byte(b: u8) -> Seq<u8> {
    if b == QUOTE {
        seq![BACKSLASH, QUOTE]
    } else if b == BACKSLASH {
        seq![BACKSLASH, BACKSLASH]
    } else if b == NL {
        seq![BACKSLASH, 'n' as u8]
    } else if b == 13 {
        seq![BACKSLASH, 'r' as u8]
    } else if b == 9 {
        seq![BACKSLASH, 't' as u8]
    } else if b == 8 {
        seq![BACKSLASH, 'b' as u8]
    } else if b == 12 {
        seq![BACKSLASH, 'f' as u8]
    } else if b < 32 {
        seq![BACKSLASH, 'u' as u8, '0' as u8, '0' as u8, hex_digit(b / 16), hex_digit(b % 16)]
    } else {
        seq![b]
    }
}

/// The JSON escape of a whole string payload.
pub open spec fn escape_bytes(s: Seq<u8>) -> Seq<u8>
    decreases s.len(),
{
    if s.len() == 0 {
        Seq::empty()
    } else {
        escape_byte(s[0]) + escape_bytes(s.drop_first())
    }
}

/// The byte written by a two-byte escape, if the character after the
/// backslash is one of the simple escapes.
pub open spec fn unescape_simple(e: u8) -> Option<u8> {
    if e == QUOTE {
        Some(QUOTE)
    } else if e == BACKSLASH {
        Some(BACKSLASH)
    } else if e == 'n' as u8 {
        Some(NL)
    } else if e == 'r' as u8 {
        Some(13u8)
    } else if e == 't' as u8 {
        Some(9u8)
    } else if e == 'b' as u8 {
        Some(8u8)
    } else if e == 'f' as u8 {
        Some(12u8)
    } else {
        None
    }
}

/// The value of one lower-case hex digit.
pub open spec fn hex_value(d: u8) -> Option<u8> {
    if '0' as u8 <= d && d <= '9' as u8 {
        Some((d - '0' as u8) as u8)
    } else if 'a' as u8 <= d && d <= 'f' as u8 {
        Some((d - 'a' as u8 + 10) as u8)
    } else {
        None
    }
}

/// Inverse of [`escape_bytes`]: `None` when the bytes are not a well-formed
/// escaped JSON string body (a raw quote, a raw control byte, or a broken
/// escape sequence).
pub open spec fn unescape_bytes(s: Seq<u8>) -> Option<Seq<u8>>
    decreases s.len(),
{
    if s.len() == 0 {
        Some(Seq::empty())
    } else if s[0] == BACKSLASH {
        if s.len() >= 2 && unescape_simple(s[1]) is Some {
            match unescape_bytes(s.skip(2)) {
                Some(t) => Some(seq![unescape_simple(s[1]).unwrap()] + t),
                None => None,
            }
        } else if s.len() >= 6 && s[1] == 'u' as u8 && s[2] == '0' as u8 && s[3] == '0' as u8
            && hex_value(s[4]) is Some && hex_value(s[5]) is Some && hex_value(s[4]).unwrap()
            * 16 + hex_value(s[5]).unwrap() < 32 {
            match unescape_bytes(s.skip(6)) {
                Some(t) => Some(
                    seq![(hex_value(s[4]).unwrap() * 16 + hex_value(s[5]).unwrap()) as u8] + t,
                ),
                None => None,
            }
        } else {
            None
        }
    } else if s[0] == QUOTE || s[0] < 32 {
        None
    } else {
        match unescape_bytes(s.skip(1)) {
            Some(t) => Some(seq![s[0]] + t),
            None => None,
        }
    }
}

/// Escaping a string payload loses nothing: unescaping gives the payload
/// back, whatever bytes it holds.
pub proof fn lemma_unescape_escape(s: Seq<u8>)
    ensures
        unescape_bytes(escape_bytes(s)) == Some(s),
    decreases s.len(),
{
    if s.len() == 0 {
        assert(escape_bytes(s) == Seq::<u8>::empty());
        assert(unescape_bytes(escape_bytes(s)) == Some(Seq::<u8>::empty()));
        assert(s =~= Seq::<u8>::empty());
    } else {
        let b = s[0];
        let rest = s.drop_first();
        let e = escape_byte(b);
        let tail = escape_bytes(rest);
        let full = escape_bytes(s);
        assert(full == e + tail);
        lemma_unescape_escape(rest);
        if b == QUOTE || b == BACKSLASH || b == NL || b == 13 || b == 9 || b == 8 || b == 12 {
            assert(full[0] == BACKSLASH);
            assert(unescape_simple(full[1]) == Some(b));
            assert(full.skip(2) =~= tail);
            assert(seq![b] + rest =~= s);
        } else if b < 32 {
            assert(full[0] == BACKSLASH);
            assert(unescape_simple(full[1]) is None);
            assert(full[1] == 'u' as u8 && full[2] == '0' as u8 && full[3] == '0' as u8);
            assert(b / 16 < 2 && b % 16 < 16);
            assert(hex_value(full[4]) == Some(b / 16));
            assert(hex_value(full[5]) == Some(b % 16));
            lemma_fundamental_div_mod(b as int, 16);
            assert((b / 16) * 16 + b % 16 == b);
            assert(full.skip(6) =~= tail);
            assert(seq![b] + rest =~= s);
        } else {
            assert(full[0] == b);
            assert(full.skip(1) =~= tail);
            assert(seq![b] + rest =~= s);
        }
    }
}

/// The ASCII digit for a value below 10.
pub open spec fn decimal_digit(n: nat) -> u8
    recommends
        n < 10,
{
    ('0' as u8 + n) as u8
}

/// Whether a byte is an ASCII decimal digit.
pub open spec fn is_digit(b: u8) -> bool {
    '0' as u8 <= b <= '9' as u8
}

/// Whether every byte of a sequence is an ASCII decimal digit.
pub open spec fn all_digits(s: Seq<u8>) -> bool {
    forall|i: int| 0 <= i < s.len() ==> is_digit(#[trigger] s[i])
}

/// The canonical decimal numeral of a number: most significant digit first,
/// no leading zero except for the numeral of zero itself.
pub open spec fn decimal_rep(n: nat) -> Seq<u8>
    decreases n,
{
    if n < 10 {
        seq![decimal_digit(n)]
    } else {
        decimal_rep(n / 10).push(decimal_digit(n % 10))
    }
}

/// The number a digit sequence denotes.
pub open spec fn decimal_value(s: Seq<u8>) -> nat
    recommends
        all_digits(s),
    decreases s.len(),
{
    if s.len() == 0 {
        0
    } else {
        (decimal_value(s.drop_last()) * 10 + (s.last() - '0' as u8)) as nat
    }
}

/// Reading a canonical numeral: digits only, no leading zero, value in
/// range.
pub open spec fn parse_decimal(s: Seq<u8>) -> Option<u64> {
    if s.len() >= 1 && all_digits(s) && (s.len() == 1 || s[0] != '0' as u8) && decimal_value(s)
        <= u64::MAX {
        Some(decimal_value(s) as u64)
    } else {
        None
    }
}

/// The canonical numeral is made of digits, is never empty, and has no
/// leading zero unless it denotes zero.
pub proof fn lemma_decimal_rep_shape(n: nat)
    ensures
        all_digits(decimal_rep(n)),
        decimal_rep(n).len() >= 1,
        n >= 1 ==> decimal_rep(n)[0] != '0' as u8,
        decimal_value(decimal_rep(n)) == n,
    decreases n,
{
    if n < 10 {
        let s = decimal_rep(n);
        assert(s =~= seq![decimal_digit(n)]);
        assert(s.drop_last() =~= Seq::<u8>::empty());
        assert(decimal_value(Seq::<u8>::empty()) == 0);
        assert(s.last() == decimal_digit(n));
        assert(decimal_digit(n) == 48 + n);
        assert(decimal_value(s) == n);
    } else {
        lemma_decimal_rep_shape(n / 10);
        let hi = decimal_rep(n / 10);
        let s = decimal_rep(n);
        assert(s == hi.push(decimal_digit(n % 10)));
        assert(s.drop_last() =~= hi);
        assert(s.last() == decimal_digit(n % 10));
        lemma_fundamental_div_mod(n as int, 10);
        assert(decimal_value(s) == (n / 10) * 10 + n % 10);
        assert(s[0] == hi[0]);
        assert(forall|i: int| 0 <= i < s.len() ==> is_digit(#[trigger] s[i])) by {
            assert(forall|i: int| 0 <= i < hi.len() ==> is_digit(#[trigger] hi[i]));
            assert(is_digit(decimal_digit(n % 10)));
        }
    }
}

/// Round trip of the decimal codec: reading the canonical numeral of any
/// 64-bit number gives the number back.
pub proof fn lemma_parse_decimal_rep(n: u64)
    ensures
        parse_decimal(decimal_rep(n as nat)) == Some(n),
{
    lemma_decimal_rep_shape(n as nat);
}

/// ASCII closing brace, the last byte of every record.
pub const RBRACE: u8 = 125;

/// The record of a status request: `{"GetStatus":null}`.
pub open spec fn getstatus_record() -> Seq<u8> {
    seq![
        '{' as u8, '"' as u8, 'G' as u8, 'e' as u8, 't' as u8, 'S' as u8, 't' as u8, 'a' as u8,
        't' as u8, 'u' as u8, 's' as u8, '"' as u8, ':' as u8, 'n' as u8, 'u' as u8, 'l' as u8,
        'l' as u8, '}' as u8,
    ]
}

/// The record of a stop request: `{"Stop":null}`.
pub open spec fn stop_record() -> Seq<u8> {
    seq![
        '{' as u8, '"' as u8, 'S' as u8, 't' as u8, 'o' as u8, 'p' as u8, '"' as u8, ':' as u8,
        'n' as u8, 'u' as u8, 'l' as u8, 'l' as u8, '}' as u8,
    ]
}

/// The record of a benchmark request: `{"DatabaseTest":null}`.
pub open spec fn databasetest_record() -> Seq<u8> {
    seq![
        '{' as u8, '"' as u8, 'D' as u8, 'a' as u8, 't' as u8, 'a' as u8, 'b' as u8, 'a' as u8,
        's' as u8, 'e' as u8, 'T' as u8, 'e' as u8, 's' as u8, 't' as u8, '"' as u8, ':' as u8,
        'n' as u8, 'u' as u8, 'l' as u8, 'l' as u8, '}' as u8,
    ]
}

/// What an echo record starts with: `{"Echo":"`.
pub open spec fn echo_prefix() -> Seq<u8> {
    seq![
        '{' as u8, '"' as u8, 'E' as u8, 'c' as u8, 'h' as u8, 'o' as u8, '"' as u8, ':' as u8,
        '"' as u8,
    ]
}

/// What a record with a string payload ends with: `"}`.
pub open spec fn string_suffix() -> Seq<u8> {
    seq![QUOTE, RBRACE]
}

/// The record of a liveness response: `{"Status":null}`.
pub open spec fn status_record() -> Seq<u8> {
    seq![
        '{' as u8, '"' as u8, 'S' as u8, 't' as u8, 'a' as u8, 't' as u8, 'u' as u8, 's' as u8,
        '"' as u8, ':' as u8, 'n' as u8, 'u' as u8, 'l' as u8, 'l' as u8, '}' as u8,
    ]
}

/// The record of a shutdown acknowledgement: `{"StoppingServer":null}`.
pub open spec fn stoppingserver_record() -> Seq<u8> {
    seq![
        '{' as u8, '"' as u8, 'S' as u8, 't' as u8, 'o' as u8, 'p' as u8, 'p' as u8, 'i' as u8,
        'n' as u8, 'g' as u8, 'S' as u8, 'e' as u8, 'r' as u8, 'v' as u8, 'e' as u8, 'r' as u8,
        '"' as u8, ':' as u8, 'n' as u8, 'u' as u8, 'l' as u8, 'l' as u8, '}' as u8,
    ]
}

/// What a benchmark response record starts with: `{"DatabaseTestResponse":`.
pub open spec fn databasetestresponse_prefix() -> Seq<u8> {
    seq![
        '{' as u8, '"' as u8, 'D' as u8, 'a' as u8, 't' as u8, 'a' as u8, 'b' as u8, 'a' as u8,
        's' as u8, 'e' as u8, 'T' as u8, 'e' as u8, 's' as u8, 't' as u8, 'R' as u8, 'e' as u8,
        's' as u8, 'p' as u8, 'o' as u8, 'n' as u8, 's' as u8, 'e' as u8, '"' as u8, ':' as u8,
    ]
}

/// The record of one command, newline not yet attached.
pub open spec fn command_record(c: CommandModel) -> Seq<u8> {
    match c {
        CommandModel::GetStatus => getstatus_record(),
        CommandModel::Stop => stop_record(),
        CommandModel::DatabaseTest => databasetest_record(),
        CommandModel::Echo(t) => echo_prefix() + escape_bytes(encode_utf8(t)) + string_suffix(),
    }
}

/// The record of one response, newline not yet attached.
pub open spec fn response_record(r: ResponseModel) -> Seq<u8> {
    match r {
        ResponseModel::Status => status_record(),
        ResponseModel::StoppingServer => stoppingserver_record(),
        ResponseModel::Echo(t) => echo_prefix() + escape_bytes(encode_utf8(t)) + string_suffix(),
        ResponseModel::DatabaseTestResponse(ms) => databasetestresponse_prefix() + decimal_rep(
            ms as nat,
        ) + seq![RBRACE],
    }
}

/// Whether a record has the shape of a tagged string: the given prefix, then
/// an escaped payload, then `"}`.
pub open spec fn is_string_record(rec: Seq<u8>, prefix: Seq<u8>) -> bool {
    &&& rec.len() >= prefix.len() + 2
    &&& rec.take(prefix.len() as int) == prefix
    &&& rec[rec.len() - 2] == QUOTE
    &&& rec[rec.len() - 1] == RBRACE
}

/// The characters a tagged string record carries, if its payload unescapes
/// to valid UTF-8.
pub open spec fn string_record_payload(rec: Seq<u8>, prefix: Seq<u8>) -> Option<Seq<char>> {
    match unescape_bytes(rec.subrange(prefix.len() as int, rec.len() - 2)) {
        Some(t) => if valid_utf8(t) {
            Some(decode_utf8(t))
        } else {
            None
        },
        None => None,
    }
}

/// Whether a record has the shape of a tagged number: the given prefix,
/// then a numeral, then `}`.
pub open spec fn is_number_record(rec: Seq<u8>, prefix: Seq<u8>) -> bool {
    &&& rec.len() >= prefix.len() + 2
    &&& rec.take(prefix.len() as int) == prefix
    &&& rec[rec.len() - 1] == RBRACE
}

/// The number a tagged number record carries, if its body is a canonical
/// numeral in range.
pub open spec fn number_record_payload(rec: Seq<u8>, prefix: Seq<u8>) -> Option<u64> {
    parse_decimal(rec.subrange(prefix.len() as int, rec.len() - 1))
}

/// What a record decodes to as a command, if anything.
pub open spec fn parse_command_record(rec: Seq<u8>) -> Option<CommandModel> {
    if rec == getstatus_record() {
        Some(CommandModel::GetStatus)
    } else if rec == stop_record() {
        Some(CommandModel::Stop)
    } else if rec == databasetest_record() {
        Some(CommandModel::DatabaseTest)
    } else if is_string_record(rec, echo_prefix()) {
        match string_record_payload(rec, echo_prefix()) {
            Some(t) => Some(CommandModel::Echo(t)),
            None => None,
        }
    } else {
        None
    }
}

/// What a record decodes to as a response, if anything.
pub open spec fn parse_response_record(rec: Seq<u8>) -> Option<ResponseModel> {
    if rec == status_record() {
        Some(ResponseModel::Status)
    } else if rec == stoppingserver_record() {
        Some(ResponseModel::StoppingServer)
    } else if is_string_record(rec, echo_prefix()) {
        match string_record_payload(rec, echo_prefix()) {
            Some(t) => Some(ResponseModel::Echo(t)),
            None => None,
        }
    } else if is_number_record(rec, databasetestresponse_prefix()) {
        match number_record_payload(rec, databasetestresponse_prefix()) {
            Some(ms) => Some(ResponseModel::DatabaseTestResponse(ms)),
            None => None,
        }
    } else {
        None
    }
}

/// The bytes before the first newline, if the stream holds one: the record
/// of a framed message.
pub open spec fn take_record(s: Seq<u8>) -> Option<Seq<u8>> {
    match s.index_of_first(NL) {
        Some(i) => Some(s.take(i)),
        None => None,
    }
}

/// What a byte stream prefix decodes to as a command: the connection is
/// closed if the stream ended without a newline, and the record before the
/// first newline must be a well-formed command.
pub open spec fn decoded_command(s: Seq<u8>) -> Result<CommandModel, CodecError> {
    match take_record(s) {
        None => Err(CodecError::ConnectionClosed),
        Some(rec) => match parse_command_record(rec) {
            Some(c) => Ok(c),
            None => Err(CodecError::MalformedMessage),
        },
    }
}

/// What a byte stream prefix decodes to as a response.
pub open spec fn decoded_response(s: Seq<u8>) -> Result<ResponseModel, CodecError> {
    match take_record(s) {
        None => Err(CodecError::ConnectionClosed),
        Some(rec) => match parse_response_record(rec) {
            Some(r) => Ok(r),
            None => Err(CodecError::MalformedMessage),
        },
    }
}

/// An escaped string payload never holds a raw newline byte, whatever the
/// payload was.
pub proof fn lemma_escape_bytes_no_newline(s: Seq<u8>)
    ensures
        forall|i: int| 0 <= i < escape_bytes(s).len() ==> escape_bytes(s)[i] != NL,
    decreases s.len(),
{
    if s.len() == 0 {
    } else {
        lemma_escape_bytes_no_newline(s.drop_first());
        let e = escape_byte(s[0]);
        let tail = escape_bytes(s.drop_first());
        assert(s[0] < 32 ==> s[0] / 16 < 16 && s[0] % 16 < 16);
        assert(forall|d: u8| d < 16 ==> hex_digit(d) != NL);
        assert(forall|i: int| 0 <= i < e.len() ==> e[i] != NL);
        assert(escape_bytes(s) == e + tail);
        assert forall|i: int| 0 <= i < (e + tail).len() implies (e + tail)[i] != NL by {
            if i < e.len() {
                assert((e + tail)[i] == e[i]);
            } else {
                assert((e + tail)[i] == tail[i - e.len()]);
            }
        }
    }
}

/// No encoded command record holds a raw newline: the trailing newline of a
/// frame is unambiguous.
pub proof fn lemma_command_record_no_newline(c: CommandModel)
    ensures
        forall|i: int|
            0 <= i < command_record(c).len() ==> #[trigger] command_record(c)[i] != NL,
{
    let rec = command_record(c);
    match c {
        CommandModel::Echo(t) => {
            let esc = escape_bytes(encode_utf8(t));
            lemma_escape_bytes_no_newline(encode_utf8(t));
            assert forall|i: int| 0 <= i < rec.len() implies rec[i] != NL by {
                if i < 9 {
                    assert(rec[i] == echo_prefix()[i]);
                } else if i < 9 + esc.len() {
                    assert(rec[i] == esc[i - 9]);
                } else {
                    assert(rec[i] == string_suffix()[i - 9 - esc.len()]);
                }
            }
        },
        _ => {},
    }
}

/// No encoded response record holds a raw newline.
pub proof fn lemma_response_record_no_newline(r: ResponseModel)
    ensures
        forall|i: int|
            0 <= i < response_record(r).len() ==> #[trigger] response_record(r)[i] != NL,
{
    let rec = response_record(r);
    match r {
        ResponseModel::Echo(t) => {
            let esc = escape_bytes(encode_utf8(t));
            lemma_escape_bytes_no_newline(encode_utf8(t));
            assert forall|i: int| 0 <= i < rec.len() implies rec[i] != NL by {
                if i < 9 {
                    assert(rec[i] == echo_prefix()[i]);
                } else if i < 9 + esc.len() {
                    assert(rec[i] == esc[i - 9]);
                } else {
                    assert(rec[i] == string_suffix()[i - 9 - esc.len()]);
                }
            }
        },
        ResponseModel::DatabaseTestResponse(ms) => {
            let num = decimal_rep(ms as nat);
            lemma_decimal_rep_shape(ms as nat);
            assert forall|i: int| 0 <= i < rec.len() implies rec[i] != NL by {
                if i < 24 {
                    assert(rec[i] == databasetestresponse_prefix()[i]);
                } else if i < 24 + num.len() {
                    assert(rec[i] == num[i - 24]);
                    assert(is_digit(num[i - 24]));
                } else {
                    assert(rec[i] == RBRACE);
                }
            }
        },
        _ => {},
    }
}

/// Reading back the record of any command gives the command: the record
/// level of the codec round trip.
pub proof fn lemma_parse_command_record(c: CommandModel)
    ensures
        parse_command_record(command_record(c)) == Some(c),
{
    let rec = command_record(c);
    match c {
        CommandModel::GetStatus => {},
        CommandModel::Stop => {
            assert(stop_record().len() == 13 && getstatus_record().len() == 18);
        },
        CommandModel::DatabaseTest => {
            assert(databasetest_record().len() == 21);
            assert(getstatus_record().len() == 18 && stop_record().len() == 13);
        },
        CommandModel::Echo(t) => {
            let esc = escape_bytes(encode_utf8(t));
            assert(rec == echo_prefix() + esc + string_suffix());
            assert(rec.len() == 11 + esc.len());
            assert(rec[2] == 'E' as u8);
            assert(rec != getstatus_record()) by {
                if rec == getstatus_record() {
                    assert(rec[2] == 'G' as u8);
                }
            }
            assert(rec != stop_record()) by {
                if rec == stop_record() {
                    assert(rec[2] == 'S' as u8);
                }
            }
            assert(rec != databasetest_record()) by {
                if rec == databasetest_record() {
                    assert(rec[2] == 'D' as u8);
                }
            }
            assert(rec.take(9) =~= echo_prefix());
            assert(rec[rec.len() - 2] == string_suffix()[0]);
            assert(rec[rec.len() - 1] == string_suffix()[1]);
            assert(is_string_record(rec, echo_prefix()));
            assert(rec.subrange(9, rec.len() - 2) =~= esc);
            lemma_unescape_escape(encode_utf8(t));
            vstd::utf8::encode_utf8_valid_utf8(t);
            vstd::utf8::encode_utf8_decode_utf8(t);
            assert(string_record_payload(rec, echo_prefix()) == Some(t));
        },
    }
}

/// Reading back the record of any response gives the response.
pub proof fn lemma_parse_response_record(r: ResponseModel)
    ensures
        parse_response_record(response_record(r)) == Some(r),
{
    let rec = response_record(r);
    match r {
        ResponseModel::Status => {},
        ResponseModel::StoppingServer => {
            assert(stoppingserver_record().len() == 23 && status_record().len() == 15);
        },
        ResponseModel::Echo(t) => {
            let esc = escape_bytes(encode_utf8(t));
            assert(rec == echo_prefix() + esc + string_suffix());
            assert(rec.len() == 11 + esc.len());
            assert(rec[2] == 'E' as u8);
            assert(rec != status_record()) by {
                if rec == status_record() {
                    assert(rec[2] == 'S' as u8);
                }
            }
            assert(rec != stoppingserver_record()) by {
                if rec == stoppingserver_record() {
                    assert(rec[2] == 'S' as u8);
                }
            }
            assert(rec.take(9) =~= echo_prefix());
            assert(rec[rec.len() - 2] == string_suffix()[0]);
            assert(rec[rec.len() - 1] == string_suffix()[1]);
            assert(is_string_record(rec, echo_prefix()));
            assert(rec.subrange(9, rec.len() - 2) =~= esc);
            lemma_unescape_escape(encode_utf8(t));
            vstd::utf8::encode_utf8_valid_utf8(t);
            vstd::utf8::encode_utf8_decode_utf8(t);
            assert(string_record_payload(rec, echo_prefix()) == Some(t));
        },
        ResponseModel::DatabaseTestResponse(ms) => {
            let num = decimal_rep(ms as nat);
            lemma_decimal_rep_shape(ms as nat);
            assert(rec == databasetestresponse_prefix() + num + seq![RBRACE]);
            assert(rec.len() == 25 + num.len());
            assert(rec[2] == 'D' as u8);
            assert(rec != status_record()) by {
                if rec == status_record() {
                    assert(rec[2] == 'S' as u8);
                }
            }
            assert(rec != stoppingserver_record()) by {
                if rec == stoppingserver_record() {
                    assert(rec[2] == 'S' as u8);
                }
            }
            assert(!is_string_record(rec, echo_prefix())) by {
                if rec.take(9) == echo_prefix() {
                    assert(rec.take(9)[2] == rec[2]);
                    assert(echo_prefix()[2] == 'E' as u8);
                }
            }
            assert(rec.take(24) =~= databasetestresponse_prefix());
            assert(rec[rec.len() - 1] == RBRACE);
            assert(is_number_record(rec, databasetestresponse_prefix()));
            assert(rec.subrange(24, rec.len() - 1) =~= num);
            lemma_parse_decimal_rep(ms);
        },
    }
}

/// Where the first newline of a stream stands, pinned from an explicit
/// witness.
pub proof fn lemma_first_newline_at(s: Seq<u8>, i: int)
    requires
        0 <= i < s.len(),
        s[i] == NL,
        forall|j: int| 0 <= j < i ==> s[j] != NL,
    ensures
        s.index_of_first(NL) == Some(i),
{
    assert(s.contains(NL)) by {
        assert(s[i] == NL);
    }
    s.index_of_first_ensures(NL);
    let k = s.index_of_first(NL).unwrap();
    if k < i {
        assert(s[k] != NL);
    } else if k > i {
        assert(s[i] != NL);
    }
}

/// Codec round trip for commands: encoding any command and decoding the
/// framed bytes gives the command back.
pub proof fn lemma_command_round_trip(c: CommandModel)
    ensures
        decoded_command(command_record(c).push(NL)) == Ok::<CommandModel, CodecError>(c),
{
    let rec = command_record(c);
    let s = rec.push(NL);
    lemma_command_record_no_newline(c);
    assert(s[rec.len() as int] == NL);
    assert(forall|j: int| 0 <= j < rec.len() ==> s[j] == #[trigger] rec[j]);
    lemma_first_newline_at(s, rec.len() as int);
    assert(s.take(rec.len() as int) =~= rec);
    lemma_parse_command_record(c);
}

/// Codec round trip for responses.
pub proof fn lemma_response_round_trip(r: ResponseModel)
    ensures
        decoded_response(response_record(r).push(NL)) == Ok::<ResponseModel, CodecError>(r),
{
    let rec = response_record(r);
    let s = rec.push(NL);
    lemma_response_record_no_newline(r);
    assert(s[rec.len() as int] == NL);
    assert(forall|j: int| 0 <= j < rec.len() ==> s[j] == #[trigger] rec[j]);
    lemma_first_newline_at(s, rec.len() as int);
    assert(s.take(rec.len() as int) =~= rec);
    lemma_parse_response_record(r);
}

} // verus!

