//! Executable codec: serialize a command or response to its framed record
//! (JSON text plus one newline byte) and read one back from the bytes of a
//! stream, exactly as the wire specification says.

use vstd::prelude::*;
use vstd::string::StrSliceExecFns;
use vstd::utf8::{decode_utf8, valid_utf8};
use crate::message::{CodecError, Command, Response};
use crate::wire::{
    BACKSLASH, NL, QUOTE, RBRACE, all_digits, command_record, databasetest_record,
    databasetestresponse_prefix, decimal_digit, decimal_rep, decimal_value, decoded_command,
    decoded_response, echo_prefix, escape_byte, escape_bytes, getstatus_record, hex_digit,
    hex_value, is_digit, is_number_record, is_string_record, lemma_first_newline_at,
    parse_decimal, response_record, status_record, stop_record, stoppingserver_record,
    unescape_bytes, unescape_simple,
};

verus! {

/// The fixed bytes of `{"GetStatus":null}`.
fn getstatus_record_vec() -> (v: Vec<u8>)
    ensures
        v@ == getstatus_record(),
{
    let mut v: Vec<u8> = Vec::new();
    v.push('{' as u8);
    v.push('"' as u8);
    v.push('G' as u8);
    v.push('e' as u8);
    v.push('t' as u8);
    v.push('S' as u8);
    v.push('t' as u8);
    v.push('a' as u8);
    v.push('t' as u8);
    v.push('u' as u8);
    v.push('s' as u8);
    v.push('"' as u8);
    v.push(':' as u8);
    v.push('n' as u8);
    v.push('u' as u8);
    v.push('l' as u8);
    v.push('l' as u8);
    v.push('}' as u8);
    proof {
        assert(v@ =~= getstatus_record());
    }
    v
}

/// The fixed bytes of `{"Stop":null}`.
fn stop_record_vec() -> (v: Vec<u8>)
    ensures
        v@ == stop_record(),
{
    let mut v: Vec<u8> = Vec::new();
    v.push('{' as u8);
    v.push('"' as u8);
    v.push('S' as u8);
    v.push('t' as u8);
    v.push('o' as u8);
    v.push('p' as u8);
    v.push('"' as u8);
    v.push(':' as u8);
    v.push('n' as u8);
    v.push('u' as u8);
    v.push('l' as u8);
    v.push('l' as u8);
    v.push('}' as u8);
    proof {
        assert(v@ =~= stop_record());
    }
    v
}

/// The fixed bytes of `{"DatabaseTest":null}`.
fn databasetest_record_vec() -> (v: Vec<u8>)
    ensures
        v@ == databasetest_record(),
{
    let mut v: Vec<u8> = Vec::new();
    v.push('{' as u8);
    v.push('"' as u8);
    v.push('D' as u8);
    v.push('a' as u8);
    v.push('t' as u8);
    v.push('a' as u8);
    v.push('b' as u8);
    v.push('a' as u8);
    v.push('s' as u8);
    v.push('e' as u8);
    v.push('T' as u8);
    v.push('e' as u8);
    v.push('s' as u8);
    v.push('t' as u8);
    v.push('"' as u8);
    v.push(':' as u8);
    v.push('n' as u8);
    v.push('u' as u8);
    v.push('l' as u8);
    v.push('l' as u8);
    v.push('}' as u8);
    proof {
        assert(v@ =~= databasetest_record());
    }
    v
}

/// The fixed bytes of `{"Status":null}`.
fn status_record_vec() -> (v: Vec<u8>)
    ensures
        v@ == status_record(),
{
    let mut v: Vec<u8> = Vec::new();
    v.push('{' as u8);
    v.push('"' as u8);
    v.push('S' as u8);
    v.push('t' as u8);
    v.push('a' as u8);
    v.push('t' as u8);
    v.push('u' as u8);
    v.push('s' as u8);
    v.push('"' as u8);
    v.push(':' as u8);
    v.push('n' as u8);
    v.push('u' as u8);
    v.push('l' as u8);
    v.push('l' as u8);
    v.push('}' as u8);
    proof {
        assert(v@ =~= status_record());
    }
    v
}

/// The fixed bytes of `{"StoppingServer":null}`.
fn stoppingserver_record_vec() -> (v: Vec<u8>)
    ensures
        v@ == stoppingserver_record(),
{
    let mut v: Vec<u8> = Vec::new();
    v.push('{' as u8);
    v.push('"' as u8);
    v.push('S' as u8);
    v.push('t' as u8);
    v.push('o' as u8);
    v.push('p' as u8);
    v.push('p' as u8);
    v.push('i' as u8);
    v.push('n' as u8);
    v.push('g' as u8);
    v.push('S' as u8);
    v.push('e' as u8);
    v.push('r' as u8);
    v.push('v' as u8);
    v.push('e' as u8);
    v.push('r' as u8);
    v.push('"' as u8);
    v.push(':' as u8);
    v.push('n' as u8);
    v.push('u' as u8);
    v.push('l' as u8);
    v.push('l' as u8);
    v.push('}' as u8);
    proof {
        assert(v@ =~= stoppingserver_record());
    }
    v
}

/// The fixed bytes of `{"Echo":"`.
fn echo_prefix_vec() -> (v: Vec<u8>)
    ensures
        v@ == echo_prefix(),
{
    let mut v: Vec<u8> = Vec::new();
    v.push('{' as u8);
    v.push('"' as u8);
    v.push('E' as u8);
    v.push('c' as u8);
    v.push('h' as u8);
    v.push('o' as u8);
    v.push('"' as u8);
    v.push(':' as u8);
    v.push('"' as u8);
    proof {
        assert(v@ =~= echo_prefix());
    }
    v
}

/// The fixed bytes of `{"DatabaseTestResponse":`.
fn databasetestresponse_prefix_vec() -> (v: Vec<u8>)
    ensures
        v@ == databasetestresponse_prefix(),
{
    let mut v: Vec<u8> = Vec::new();
    v.push('{' as u8);
    v.push('"' as u8);
    v.push('D' as u8);
    v.push('a' as u8);
    v.push('t' as u8);
    v.push('a' as u8);
    v.push('b' as u8);
    v.push('a' as u8);
    v.push('s' as u8);
    v.push('e' as u8);
    v.push('T' as u8);
    v.push('e' as u8);
    v.push('s' as u8);
    v.push('t' as u8);
    v.push('R' as u8);
    v.push('e' as u8);
    v.push('s' as u8);
    v.push('p' as u8);
    v.push('o' as u8);
    v.push('n' as u8);
    v.push('s' as u8);
    v.push('e' as u8);
    v.push('"' as u8);
    v.push(':' as u8);
    proof {
        assert(v@ =~= databasetestresponse_prefix());
    }
    v
}

/// Escaping one step at a time appends one escape to the output.
proof fn lemma_escape_bytes_snoc(s: Seq<u8>, b: u8)
    ensures
        escape_bytes(s.push(b)) == escape_bytes(s) + escape_byte(b),
    decreases s.len(),
{
    if s.len() == 0 {
        assert(s.push(b)[0] == b);
        assert(s.push(b).drop_first() =~= Seq::<u8>::empty());
        assert(escape_byte(b) + escape_bytes(Seq::<u8>::empty()) =~= escape_byte(b));
        assert(escape_bytes(s) + escape_byte(b) =~= escape_byte(b));
    } else {
        lemma_escape_bytes_snoc(s.drop_first(), b);
        assert(s.push(b)[0] == s[0]);
        assert(s.push(b).drop_first() =~= s.drop_first().push(b));
        assert(escape_byte(s[0]) + (escape_bytes(s.drop_first()) + escape_byte(b)) =~= (
        escape_byte(s[0]) + escape_bytes(s.drop_first())) + escape_byte(b));
    }
}

/// Append the JSON escape of a payload to `out`.
fn escape_into(out: &mut Vec<u8>, payload: &Vec<u8>)
    ensures
        final(out)@ == old(out)@ + escape_bytes(payload@),
{
    let mut i: usize = 0;
    while i < payload.len()
        invariant
            i <= payload@.len(),
            out@ == old(out)@ + escape_bytes(payload@.take(i as int)),
        decreases payload@.len() - i,
    {
        let b = payload[i];
        if b == QUOTE {
            out.push(BACKSLASH);
            out.push(QUOTE);
        } else if b == BACKSLASH {
            out.push(BACKSLASH);
            out.push(BACKSLASH);
        } else if b == NL {
            out.push(BACKSLASH);
            out.push('n' as u8);
        } else if b == 13 {
            out.push(BACKSLASH);
            out.push('r' as u8);
        } else if b == 9 {
            out.push(BACKSLASH);
            out.push('t' as u8);
        } else if b == 8 {
            out.push(BACKSLASH);
            out.push('b' as u8);
        } else if b == 12 {
            out.push(BACKSLASH);
            out.push('f' as u8);
        } else if b < 32 {
            let hi = b / 16;
            let lo = b % 16;
            let hd = if hi < 10 {
                '0' as u8 + hi
            } else {
                'a' as u8 + (hi - 10)
            };
            let ld = if lo < 10 {
                '0' as u8 + lo
            } else {
                'a' as u8 + (lo - 10)
            };
            out.push(BACKSLASH);
            out.push('u' as u8);
            out.push('0' as u8);
            out.push('0' as u8);
            out.push(hd);
            out.push(ld);
            proof {
                assert(hd == hex_digit(b / 16) && ld == hex_digit(b % 16));
            }
        } else {
            out.push(b);
        }
        proof {
            lemma_escape_bytes_snoc(payload@.take(i as int), payload@[i as int]);
            assert(payload@.take(i + 1) =~= payload@.take(i as int).push(payload@[i as int]));
            assert(out@ =~= old(out)@ + escape_bytes(payload@.take(i + 1)));
        }
        i = i + 1;
    }
    proof {
        assert(payload@.take(payload@.len() as int) =~= payload@);
    }
}

/// Append the canonical decimal numeral of `n` to `out`.
pub(crate) fn push_decimal(out: &mut Vec<u8>, n: u64)
    ensures
        final(out)@ == old(out)@ + decimal_rep(n as nat),
{
    if n == 0 {
        out.push('0' as u8);
        proof {
            assert(decimal_rep(0) =~= seq![decimal_digit(0)]);
            assert(out@ =~= old(out)@ + decimal_rep(0));
        }
        return ;
    }
    let mut tmp: Vec<u8> = Vec::new();
    let mut m: u64 = n;
    proof {
        assert(decimal_rep(n as nat) + Seq::<u8>::empty().reverse() =~= decimal_rep(n as nat));
    }
    while m > 0
        invariant
            m > 0 ==> decimal_rep(n as nat) == decimal_rep(m as nat) + tmp@.reverse(),
            m == 0 ==> decimal_rep(n as nat) == tmp@.reverse(),
        decreases m,
    {
        let ghost tmp_pre = tmp@;
        let ghost m_pre = m;
        let d = m % 10;
        tmp.push('0' as u8 + d as u8);
        m = m / 10;
        proof {
            let dig = decimal_digit((m_pre % 10) as nat);
            assert(tmp@ == tmp_pre.push(dig));
            assert(tmp@.reverse() =~= seq![dig] + tmp_pre.reverse());
            if m_pre < 10 {
                assert(decimal_rep(m_pre as nat) =~= seq![dig]);
                assert(decimal_rep(n as nat) =~= tmp@.reverse());
            } else {
                assert(decimal_rep(m_pre as nat) == decimal_rep((m_pre / 10) as nat).push(dig));
                assert(decimal_rep((m_pre / 10) as nat) + tmp@.reverse() =~= decimal_rep(
                    m_pre as nat,
                ) + tmp_pre.reverse());
            }
        }
    }
    let mut j: usize = 0;
    while j < tmp.len()
        invariant
            j <= tmp@.len(),
            decimal_rep(n as nat) == tmp@.reverse(),
            out@ == old(out)@ + tmp@.reverse().take(j as int),
        decreases tmp@.len() - j,
    {
        out.push(tmp[tmp.len() - 1 - j]);
        proof {
            assert(tmp@.reverse().take(j + 1) =~= tmp@.reverse().take(j as int).push(
                tmp@[tmp@.len() - 1 - j],
            ));
        }
        j = j + 1;
    }
    proof {
        assert(tmp@.reverse().take(tmp@.len() as int) =~= tmp@.reverse());
    }
}

/// Serialize a command to its framed record: the JSON text of the union
/// value followed by a single newline byte.
pub fn encode_command(c: &Command) -> (r: Vec<u8>)
    ensures
        r@ == command_record(c@).push(NL),
{
    let mut v: Vec<u8> = Vec::new();
    match c {
        Command::GetStatus => {
            v = getstatus_record_vec();
        },
        Command::Stop => {
            v = stop_record_vec();
        },
        Command::DatabaseTest => {
            v = databasetest_record_vec();
        },
        Command::Echo(s) => {
            v = echo_prefix_vec();
            let payload = s.as_str().as_bytes_vec();
            escape_into(&mut v, &payload);
            v.push(QUOTE);
            v.push(RBRACE);
            proof {
                assert(v@ =~= command_record(c@));
            }
        },
    }
    v.push(NL);
    v
}

/// Serialize a response to its framed record.
pub fn encode_response(r: &Response) -> (out: Vec<u8>)
    ensures
        out@ == response_record(r@).push(NL),
{
    let mut v: Vec<u8> = Vec::new();
    match r {
        Response::Status => {
            v = status_record_vec();
        },
        Response::StoppingServer => {
            v = stoppingserver_record_vec();
        },
        Response::Echo(s) => {
            v = echo_prefix_vec();
            let payload = s.as_str().as_bytes_vec();
            escape_into(&mut v, &payload);
            v.push(QUOTE);
            v.push(RBRACE);
            proof {
                assert(v@ =~= response_record(r@));
            }
        },
        Response::DatabaseTestResponse(ms) => {
            v = databasetestresponse_prefix_vec();
            push_decimal(&mut v, *ms);
            v.push(RBRACE);
            proof {
                assert(v@ =~= response_record(r@));
            }
        },
    }
    v.push(NL);
    v
}

/// Index of the first newline byte, if the buffer holds one.
fn find_newline(buf: &Vec<u8>) -> (r: Option<usize>)
    ensures
        match r {
            Some(i) => i < buf@.len() && buf@[i as int] == NL && (forall|j: int|
                0 <= j < i ==> buf@[j] != NL),
            None => forall|j: int| 0 <= j < buf@.len() ==> buf@[j] != NL,
        },
{
    let mut i: usize = 0;
    while i < buf.len()
        invariant
            i <= buf@.len(),
            forall|j: int| 0 <= j < i ==> buf@[j] != NL,
        decreases buf@.len() - i,
    {
        if buf[i] == NL {
            return Some(i);
        }
        i = i + 1;
    }
    None
}

/// Whether the record (the first `n` bytes of the buffer) equals `lit`.
fn record_is(buf: &Vec<u8>, n: usize, lit: &Vec<u8>) -> (r: bool)
    requires
        n <= buf@.len(),
    ensures
        r == (buf@.take(n as int) == lit@),
{
    if n != lit.len() {
        proof {
            assert(buf@.take(n as int).len() == n);
        }
        return false;
    }
    let mut i: usize = 0;
    while i < n
        invariant
            n == lit@.len(),
            n <= buf@.len(),
            i <= n,
            forall|j: int| 0 <= j < i ==> buf@[j] == lit@[j],
        decreases n - i,
    {
        if buf[i] != lit[i] {
            proof {
                assert(buf@.take(n as int) != lit@) by {
                    if buf@.take(n as int) == lit@ {
                        assert(buf@.take(n as int)[i as int] == lit@[i as int]);
                    }
                }
            }
            return false;
        }
        i = i + 1;
    }
    proof {
        assert(buf@.take(n as int) =~= lit@);
    }
    true
}

/// Whether the record (the first `n` bytes of the buffer) starts with `lit`.
fn record_has_prefix(buf: &Vec<u8>, n: usize, lit: &Vec<u8>) -> (r: bool)
    requires
        n <= buf@.len(),
    ensures
        r == (n >= lit@.len() && buf@.take(lit@.len() as int) == lit@),
{
    if n < lit.len() {
        return false;
    }
    let mut i: usize = 0;
    while i < lit.len()
        invariant
            lit@.len() <= n <= buf@.len(),
            i <= lit@.len(),
            forall|j: int| 0 <= j < i ==> buf@[j] == lit@[j],
        decreases lit@.len() - i,
    {
        if buf[i] != lit[i] {
            proof {
                assert(buf@.take(lit@.len() as int) != lit@) by {
                    if buf@.take(lit@.len() as int) == lit@ {
                        assert(buf@.take(lit@.len() as int)[i as int] == lit@[i as int]);
                    }
                }
            }
            return false;
        }
        i = i + 1;
    }
    proof {
        assert(buf@.take(lit@.len() as int) =~= lit@);
    }
    true
}

/// Builds the string a payload spells, if its bytes are valid UTF-8.
///
/// Relies on std's `String::from_utf8`: it succeeds exactly on valid UTF-8
/// input and decodes the bytes to the characters they encode.
#[verifier::external_body]
pub(crate) fn string_from_bytes(v: Vec<u8>) -> (r: Option<String>)
    ensures
        r is Some <==> valid_utf8(v@),
        r is Some ==> r.unwrap()@ == decode_utf8(v@),
{
    String::from_utf8(v).ok()
}

/// Unescape the bytes of `buf` between `start` and `end`, exactly as the
/// wire specification reads an escaped string payload.
fn unescape_range(buf: &Vec<u8>, start: usize, end: usize) -> (r: Option<Vec<u8>>)
    requires
        start <= end <= buf@.len(),
    ensures
        ({
            let u = unescape_bytes(buf@.subrange(start as int, end as int));
            match r {
                Some(v) => u is Some && v@ == u.unwrap(),
                None => u is None,
            }
        }),
{
    let ghost full = buf@.subrange(start as int, end as int);
    let mut out: Vec<u8> = Vec::new();
    let mut i: usize = start;
    proof {
        if unescape_bytes(full) is Some {
            assert(Seq::<u8>::empty() + unescape_bytes(full).unwrap() =~= unescape_bytes(
                full,
            ).unwrap());
        }
    }
    while i < end
        invariant
            start <= i <= end <= buf@.len(),
            full == buf@.subrange(start as int, end as int),
            unescape_bytes(full) == (match unescape_bytes(
                buf@.subrange(i as int, end as int),
            ) {
                Some(t) => Some(out@ + t),
                None => None::<Seq<u8>>,
            }),
        decreases end - i,
    {
        let ghost sub = buf@.subrange(i as int, end as int);
        let b = buf[i];
        proof {
            assert(sub[0] == b);
            assert(sub.len() == end - i);
        }
        if b == BACKSLASH {
            if end - i < 2 {
                proof {
                    assert(unescape_bytes(sub) is None);
                }
                return None;
            }
            let e = buf[i + 1];
            proof {
                assert(sub[1] == e);
            }
            let simple: Option<u8> = if e == QUOTE {
                Some(QUOTE)
            } else if e == BACKSLASH {
                Some(BACKSLASH)
            } else if e == 'n' as u8 {
                Some(NL)
            } else if e == 'r' as u8 {
                Some(13)
            } else if e == 't' as u8 {
                Some(9)
            } else if e == 'b' as u8 {
                Some(8)
            } else if e == 'f' as u8 {
                Some(12)
            } else {
                None
            };
            proof {
                assert(simple == unescape_simple(e));
            }
            match simple {
                Some(d) => {
                    let ghost out_pre = out@;
                    out.push(d);
                    i = i + 2;
                    proof {
                        let sub2 = buf@.subrange(i as int, end as int);
                        assert(sub.skip(2) =~= sub2);
                        if unescape_bytes(sub2) is Some {
                            let t = unescape_bytes(sub2).unwrap();
                            assert(unescape_bytes(sub) == Some(seq![d] + t));
                            assert(out_pre + (seq![d] + t) =~= out@ + t);
                        } else {
                            assert(unescape_bytes(sub) is None);
                        }
                    }
                },
                None => {
                    if e != 'u' as u8 {
                        proof {
                            assert(unescape_bytes(sub) is None);
                        }
                        return None;
                    }
                    if end - i < 6 {
                        proof {
                            assert(unescape_bytes(sub) is None);
                        }
                        return None;
                    }
                    let d2 = buf[i + 2];
                    let d3 = buf[i + 3];
                    proof {
                        assert(sub[2] == d2 && sub[3] == d3);
                        assert(sub[4] == buf@[i + 4] && sub[5] == buf@[i + 5]);
                    }
                    if d2 != '0' as u8 || d3 != '0' as u8 {
                        proof {
                            assert(unescape_bytes(sub) is None);
                        }
                        return None;
                    }
                    let h4 = hex_value_of(buf[i + 4]);
                    let h5 = hex_value_of(buf[i + 5]);
                    match (h4, h5) {
                        (Some(x4), Some(x5)) => {
                            proof {
                                assert(x4 <= 15 && x5 <= 15);
                            }
                            let val = x4 * 16 + x5;
                            if val >= 32 {
                                proof {
                                    assert(unescape_bytes(sub) is None);
                                }
                                return None;
                            }
                            let ghost out_pre = out@;
                            out.push(val);
                            i = i + 6;
                            proof {
                                let sub2 = buf@.subrange(i as int, end as int);
                                assert(sub.skip(6) =~= sub2);
                                if unescape_bytes(sub2) is Some {
                                    let t = unescape_bytes(sub2).unwrap();
                                    assert(unescape_bytes(sub) == Some(seq![val] + t));
                                    assert(out_pre + (seq![val] + t) =~= out@ + t);
                                } else {
                                    assert(unescape_bytes(sub) is None);
                                }
                            }
                        },
                        _ => {
                            proof {
                                assert(unescape_bytes(sub) is None);
                            }
                            return None;
                        },
                    }
                },
            }
        } else if b == QUOTE || b < 32 {
            proof {
                assert(unescape_bytes(sub) is None);
            }
            return None;
        } else {
            let ghost out_pre = out@;
            out.push(b);
            i = i + 1;
            proof {
                let sub2 = buf@.subrange(i as int, end as int);
                assert(sub.skip(1) =~= sub2);
                if unescape_bytes(sub2) is Some {
                    let t = unescape_bytes(sub2).unwrap();
                    assert(unescape_bytes(sub) == Some(seq![b] + t));
                    assert(out_pre + (seq![b] + t) =~= out@ + t);
                } else {
                    assert(unescape_bytes(sub) is None);
                }
            }
        }
    }
    proof {
        assert(buf@.subrange(i as int, end as int).len() == 0);
        assert(unescape_bytes(buf@.subrange(i as int, end as int)) == Some(Seq::<u8>::empty()));
        assert(out@ + Seq::<u8>::empty() =~= out@);
    }
    Some(out)
}

/// The value of one lower-case hex digit.
fn hex_value_of(d: u8) -> (r: Option<u8>)
    ensures
        r == hex_value(d),
{
    if '0' as u8 <= d && d <= '9' as u8 {
        Some(d - '0' as u8)
    } else if 'a' as u8 <= d && d <= 'f' as u8 {
        Some(d - 'a' as u8 + 10)
    } else {
        None
    }
}

/// A longer digit string never denotes a smaller number.
proof fn lemma_decimal_value_prefix_bound(s: Seq<u8>, k: int)
    requires
        0 <= k <= s.len(),
        all_digits(s),
    ensures
        decimal_value(s) >= decimal_value(s.take(k)),
    decreases s.len() - k,
{
    if k < s.len() {
        assert(s.take(k + 1).drop_last() =~= s.take(k));
        assert(s.take(k + 1).last() == s[k]);
        assert(is_digit(s[k]));
        lemma_decimal_value_prefix_bound(s, k + 1);
    } else {
        assert(s.take(k) =~= s);
    }
}

/// Read the bytes of `buf` between `start` and `end` as a canonical decimal
/// numeral.
fn parse_decimal_range(buf: &Vec<u8>, start: usize, end: usize) -> (r: Option<u64>)
    requires
        start <= end <= buf@.len(),
    ensures
        r == parse_decimal(buf@.subrange(start as int, end as int)),
{
    let ghost s = buf@.subrange(start as int, end as int);
    if end - start == 0 {
        return None;
    }
    if end - start > 1 && buf[start] == '0' as u8 {
        proof {
            assert(s[0] == '0' as u8);
        }
        return None;
    }
    let mut acc: u64 = 0;
    let mut i: usize = start;
    proof {
        assert(s.take(0) =~= Seq::<u8>::empty());
    }
    while i < end
        invariant
            start <= i <= end <= buf@.len(),
            s == buf@.subrange(start as int, end as int),
            forall|j: int| 0 <= j < i - start ==> is_digit(#[trigger] s[j]),
            acc == decimal_value(s.take(i - start)),
        decreases end - i,
    {
        let b = buf[i];
        proof {
            assert(s[i - start] == b);
        }
        if b < '0' as u8 || b > '9' as u8 {
            proof {
                assert(!is_digit(s[i - start]));
                assert(!all_digits(s));
            }
            return None;
        }
        let d = b - '0' as u8;
        let wide: u128 = acc as u128 * 10 + d as u128;
        proof {
            assert(s.take(i - start + 1).drop_last() =~= s.take(i - start));
            assert(s.take(i - start + 1).last() == b);
            assert(decimal_value(s.take(i - start + 1)) == acc * 10 + d);
        }
        if wide > u64::MAX as u128 {
            proof {
                if all_digits(s) {
                    lemma_decimal_value_prefix_bound(s, i - start + 1);
                    assert(decimal_value(s) > u64::MAX);
                }
            }
            return None;
        }
        acc = wide as u64;
        i = i + 1;
    }
    proof {
        assert(s.take(end - start) =~= s);
        assert(all_digits(s));
        assert(parse_decimal(s) == Some(acc));
    }
    Some(acc)
}

/// Read one command from the bytes of a stream: the bytes before the first
/// newline must be a well-formed command record; a stream without a newline
/// ended early.
pub fn decode_command(buf: &Vec<u8>) -> (r: Result<Command, CodecError>)
    ensures
        r is Ok <==> decoded_command(buf@) is Ok,
        r is Ok ==> r.unwrap()@ == decoded_command(buf@).unwrap(),
        r is Err ==> decoded_command(buf@) == Err::<crate::message::CommandModel, CodecError>(r.unwrap_err()),
{
    let nl = find_newline(buf);
    match nl {
        None => {
            proof {
                buf@.index_of_first_ensures(NL);
            }
            Err(CodecError::ConnectionClosed)
        },
        Some(n) => {
            proof {
                lemma_first_newline_at(buf@, n as int);
            }
            let ghost rec = buf@.take(n as int);
            let lit_getstatus = getstatus_record_vec();
            if record_is(buf, n, &lit_getstatus) {
                return Ok(Command::GetStatus);
            }
            let lit_stop = stop_record_vec();
            if record_is(buf, n, &lit_stop) {
                return Ok(Command::Stop);
            }
            let lit_databasetest = databasetest_record_vec();
            if record_is(buf, n, &lit_databasetest) {
                return Ok(Command::DatabaseTest);
            }
            let lit_echo = echo_prefix_vec();
            let echo_shape = n >= 11 && record_has_prefix(buf, n, &lit_echo) && buf[n - 2]
                == QUOTE && buf[n - 1] == RBRACE;
            proof {
                assert(rec.len() == n);
                if n >= 11 {
                    assert(rec.take(9) =~= buf@.take(9));
                    assert(rec[rec.len() - 2] == buf@[n - 2]);
                    assert(rec[rec.len() - 1] == buf@[n - 1]);
                }
                assert(echo_shape == is_string_record(rec, echo_prefix()));
            }
            if !echo_shape {
                return Err(CodecError::MalformedMessage);
            }
            proof {
                assert(rec.subrange(9, rec.len() - 2) =~= buf@.subrange(9, n - 2));
            }
            match unescape_range(buf, 9, n - 2) {
                Some(bytes) => {
                    match string_from_bytes(bytes) {
                        Some(s) => Ok(Command::Echo(s)),
                        None => Err(CodecError::MalformedMessage),
                    }
                },
                None => Err(CodecError::MalformedMessage),
            }
        },
    }
}

/// Read one response from the bytes of a stream.
pub fn decode_response(buf: &Vec<u8>) -> (r: Result<Response, CodecError>)
    ensures
        r is Ok <==> decoded_response(buf@) is Ok,
        r is Ok ==> r.unwrap()@ == decoded_response(buf@).unwrap(),
        r is Err ==> decoded_response(buf@) == Err::<crate::message::ResponseModel, CodecError>(r.unwrap_err()),
{
    let nl = find_newline(buf);
    match nl {
        None => {
            proof {
                buf@.index_of_first_ensures(NL);
            }
            Err(CodecError::ConnectionClosed)
        },
        Some(n) => {
            proof {
                lemma_first_newline_at(buf@, n as int);
            }
            let ghost rec = buf@.take(n as int);
            let lit_status = status_record_vec();
            if record_is(buf, n, &lit_status) {
                return Ok(Response::Status);
            }
            let lit_stoppingserver = stoppingserver_record_vec();
            if record_is(buf, n, &lit_stoppingserver) {
                return Ok(Response::StoppingServer);
            }
            let lit_echo = echo_prefix_vec();
            let echo_shape = n >= 11 && record_has_prefix(buf, n, &lit_echo) && buf[n - 2]
                == QUOTE && buf[n - 1] == RBRACE;
            proof {
                assert(rec.len() == n);
                if n >= 11 {
                    assert(rec.take(9) =~= buf@.take(9));
                    assert(rec[rec.len() - 2] == buf@[n - 2]);
                    assert(rec[rec.len() - 1] == buf@[n - 1]);
                }
                assert(echo_shape == is_string_record(rec, echo_prefix()));
            }
            if echo_shape {
                proof {
                    assert(rec.subrange(9, rec.len() - 2) =~= buf@.subrange(9, n - 2));
                }
                return match unescape_range(buf, 9, n - 2) {
                    Some(bytes) => {
                        match string_from_bytes(bytes) {
                            Some(s) => Ok(Response::Echo(s)),
                            None => Err(CodecError::MalformedMessage),
                        }
                    },
                    None => Err(CodecError::MalformedMessage),
                };
            }
            let lit_dbresponse = databasetestresponse_prefix_vec();
            let number_shape = n >= 26 && record_has_prefix(buf, n, &lit_dbresponse) && buf[n
                - 1] == RBRACE;
            proof {
                if n >= 26 {
                    assert(rec.take(24) =~= buf@.take(24));
                    assert(rec[rec.len() - 1] == buf@[n - 1]);
                }
                assert(number_shape == is_number_record(rec, databasetestresponse_prefix()));
            }
            if !number_shape {
                return Err(CodecError::MalformedMessage);
            }
            proof {
                assert(rec.subrange(24, rec.len() - 1) =~= buf@.subrange(24, n - 1));
            }
            match parse_decimal_range(buf, 24, n - 1) {
                Some(ms) => Ok(Response::DatabaseTestResponse(ms)),
                None => Err(CodecError::MalformedMessage),
            }
        },
    }
}

} // verus!
