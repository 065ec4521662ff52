//! The liveness-signal wire format: UTF-8 text `"<status>:<count>"`, where
//! `count` is a non-negative base-10 integer and a status of `fail` reports
//! a shutdown while any other status reports a successful cycle. Messages
//! are handled as raw bytes, exactly as they arrive from the wire.
use vstd::prelude::*;

verus! {

/// The byte separating the status from the count, `:`.
pub const COLON: u8 = 58;

/// The bytes of the status `fail`.
pub open spec fn fail_status() -> Seq<u8> {
    seq![102u8, 97u8, 105u8, 108u8]
}

/// The bytes of the status `success`.
pub open spec fn success_status() -> Seq<u8> {
    seq![115u8, 117u8, 99u8, 99u8, 101u8, 115u8, 115u8]
}

/// A decoded liveness signal: the outcome of one producer cycle together
/// with the producer's counter at the time the signal was sent.
#[derive(Clone, Copy, Debug, PartialEq, Eq, Structural)]
pub enum Signal {
    /// One record was produced and sent; the counter read this value.
    Success(u64),
    /// The producer is shutting down; the counter read this value.
    Fail(u64),
}

/// An ASCII decimal digit.
pub open spec fn is_digit(b: u8) -> bool {
    48 <= b && b <= 57
}

/// The numeric value of one ASCII digit.
pub open spec fn digit_val(b: u8) -> nat {
    (b - 48) as nat
}

/// Every byte of `s` is an ASCII decimal digit.
pub open spec fn all_digits(s: Seq<u8>) -> bool {
    forall|i: int| 0 <= i < s.len() ==> is_digit(s[i])
}

/// The number that the digit string `s` denotes in base 10.
pub open spec fn dec_value(s: Seq<u8>) -> nat
    decreases s.len(),
{
    if s.len() == 0 {
        0
    } else {
        dec_value(s.drop_last()) * 10 + digit_val(s.last())
    }
}

/// `s` is a well-formed count field: non-empty, all digits, and small
/// enough to be stored in the shared sequence counter.
pub open spec fn count_valid(s: Seq<u8>) -> bool {
    &&& s.len() > 0
    &&& all_digits(s)
    &&& dec_value(s) <= u64::MAX
}

/// `s` contains exactly one colon.
pub open spec fn one_colon(s: Seq<u8>) -> bool {
    exists|i: int|
        0 <= i < s.len() && s[i] == COLON && (forall|j: int|
            0 <= j < s.len() && j != i ==> s[j] != COLON)
}

/// The index of the unique colon of `s` (meaningful only under `one_colon`).
pub open spec fn colon_at(s: Seq<u8>) -> int {
    choose|i: int| 0 <= i < s.len() && s[i] == COLON
}

/// What a received message means. A message decodes to a signal exactly
/// when it has exactly one colon and a well-formed count after it; the
/// status `fail` gives `Fail`, every other status gives `Success`, which is
/// how the monitor's handler reads the wire. Anything else is malformed
/// and decodes to nothing.
pub open spec fn parse_signal_spec(s: Seq<u8>) -> Option<Signal> {
    if one_colon(s) {
        let i = colon_at(s);
        let status = s.take(i);
        let cnt = s.skip(i + 1);
        if count_valid(cnt) {
            if status == fail_status() {
                Some(Signal::Fail(dec_value(cnt) as u64))
            } else {
                Some(Signal::Success(dec_value(cnt) as u64))
            }
        } else {
            None
        }
    } else {
        None
    }
}

/// The base-10 digit string denoting `n`: no sign, no leading zeros.
pub open spec fn dec_digits(n: nat) -> Seq<u8>
    decreases n,
{
    if n < 10 {
        seq![(48 + n) as u8]
    } else {
        dec_digits(n / 10).push((48 + n % 10) as u8)
    }
}

/// The bytes a success signal for count `c` puts on the wire.
pub open spec fn success_wire(c: u64) -> Seq<u8> {
    success_status() + seq![COLON] + dec_digits(c as nat)
}

/// The bytes a failure signal for count `c` puts on the wire.
pub open spec fn fail_wire(c: u64) -> Seq<u8> {
    fail_status() + seq![COLON] + dec_digits(c as nat)
}

/// The digit string of `n` is a well-formed count field that denotes `n`.
pub proof fn lemma_dec_digits_wf(n: nat)
    ensures
        dec_digits(n).len() >= 1,
        all_digits(dec_digits(n)),
        dec_value(dec_digits(n)) == n,
    decreases n,
{
    if n < 10 {
        let b = (48 + n) as u8;
        assert(dec_digits(n).drop_last() =~= Seq::<u8>::empty());
        assert(dec_digits(n).last() == b);
        assert(dec_value(Seq::<u8>::empty()) == 0);
        assert(dec_value(dec_digits(n)) == digit_val(b));
        assert(digit_val(b) == n);
    } else {
        lemma_dec_digits_wf(n / 10);
        let b = (48 + n % 10) as u8;
        assert(dec_digits(n).drop_last() =~= dec_digits(n / 10));
        assert(dec_digits(n).last() == b);
        assert(digit_val(b) == n % 10);
        assert(dec_value(dec_digits(n)) == (n / 10) * 10 + n % 10);
        vstd::arithmetic::div_mod::lemma_fundamental_div_mod(n as int, 10);
        assert(dec_value(dec_digits(n)) == n);
    }
}

/// The value of a digit string never shrinks when more digits follow:
/// every prefix denotes at most the whole.
proof fn lemma_dec_value_prefix_le(s: Seq<u8>, j: int)
    requires
        0 <= j <= s.len(),
    ensures
        dec_value(s.take(j)) <= dec_value(s),
    decreases s.len() - j,
{
    if j == s.len() {
        assert(s.take(j) =~= s);
    } else {
        assert(s.take(j + 1).drop_last() =~= s.take(j));
        assert(s.take(j + 1).last() == s[j]);
        lemma_dec_value_prefix_le(s, j + 1);
    }
}

/// Parse the count field: `Some` exactly on a non-empty string of digits
/// whose value fits in a `u64`, and then the base-10 value of the digits.
pub fn parse_count(s: &[u8]) -> (r: Option<u64>)
    ensures
        r is Some <==> count_valid(s@),
        r is Some ==> r->0 == dec_value(s@),
{
    if s.len() == 0 {
        return None;
    }
    let mut acc: u64 = 0;
    let mut i: usize = 0;
    while i < s.len()
        invariant
            0 <= i <= s@.len(),
            s@.len() > 0,
            all_digits(s@.take(i as int)),
            acc == dec_value(s@.take(i as int)),
        decreases s@.len() - i,
    {
        let b = s[i];
        if b < 48 || b > 57 {
            assert(!all_digits(s@));
            return None;
        }
        let d: u64 = (b - 48) as u64;
        if acc > (u64::MAX - d) / 10 {
            proof {
                assert(s@.take(i as int + 1).drop_last() =~= s@.take(i as int));
                assert(dec_value(s@.take(i as int + 1)) > u64::MAX);
                lemma_dec_value_prefix_le(s@, i as int + 1);
            }
            return None;
        }
        proof {
            assert(s@.take(i as int + 1).drop_last() =~= s@.take(i as int));
            assert(s@.take(i as int + 1).last() == s@[i as int]);
        }
        acc = acc * 10 + d;
        i = i + 1;
    }
    proof {
        assert(s@.take(s@.len() as int) =~= s@);
    }
    Some(acc)
}

/// Compare two byte strings for equality.
fn bytes_eq(a: &[u8], b: &[u8]) -> (r: bool)
    ensures
        r <==> a@ == b@,
{
    if a.len() != b.len() {
        proof {
            assert(a@ !~= b@);
        }
        return false;
    }
    let mut i: usize = 0;
    while i < a.len()
        invariant
            0 <= i <= a@.len(),
            a@.len() == b@.len(),
            forall|j: int| 0 <= j < i ==> a@[j] == b@[j],
        decreases a@.len() - i,
    {
        if a[i] != b[i] {
            proof {
                assert(a@ !~= b@);
            }
            return false;
        }
        i = i + 1;
    }
    proof {
        assert(a@ =~= b@);
    }
    true
}

/// Decode one message from the wire, as the monitor's handler reads it:
/// split at the unique colon, take `fail` for a failure report and any
/// other status for a success report, and refuse anything malformed.
pub fn parse_signal(msg: &[u8]) -> (r: Option<Signal>)
    ensures
        r == parse_signal_spec(msg@),
{
    let mut colon: Option<usize> = None;
    let mut i: usize = 0;
    while i < msg.len()
        invariant
            0 <= i <= msg@.len(),
            match colon {
                Some(c) => c < i && msg@[c as int] == COLON && (forall|j: int|
                    0 <= j < i && j != c ==> msg@[j] != COLON),
                None => forall|j: int| 0 <= j < i ==> msg@[j] != COLON,
            },
        decreases msg@.len() - i,
    {
        if msg[i] == COLON {
            match colon {
                None => {
                    colon = Some(i);
                },
                Some(c) => {
                    proof {
                        assert forall|k: int|
                            !(0 <= k < msg@.len() && msg@[k] == COLON && (forall|j: int|
                                0 <= j < msg@.len() && j != k ==> msg@[j] != COLON)) by {
                            if 0 <= k < msg@.len() && msg@[k] == COLON {
                                if k != c as int {
                                    assert(msg@[c as int] == COLON);
                                } else {
                                    assert(msg@[i as int] == COLON);
                                }
                            }
                        }
                        assert(!one_colon(msg@));
                    }
                    return None;
                },
            }
        }
        i = i + 1;
    }
    match colon {
        None => {
            proof {
                assert(!one_colon(msg@));
            }
            None
        },
        Some(c) => {
            proof {
                assert(one_colon(msg@));
                assert(colon_at(msg@) == c as int) by {
                    let w = colon_at(msg@);
                    assert(msg@[w] == COLON);
                }
            }
            let status = vstd::slice::slice_subrange(msg, 0, c);
            let cnt = vstd::slice::slice_subrange(msg, c + 1, msg.len());
            proof {
                assert(status@ =~= msg@.take(c as int));
                assert(cnt@ =~= msg@.skip(c as int + 1));
            }
            match parse_count(cnt) {
                None => None,
                Some(v) => {
                    let fail: [u8; 4] = [102, 97, 105, 108];
                    proof {
                        assert(fail@ =~= fail_status());
                    }
                    if bytes_eq(status, fail.as_slice()) {
                        Some(Signal::Fail(v))
                    } else {
                        Some(Signal::Success(v))
                    }
                },
            }
        },
    }
}

/// Decoding is left inverse to encoding: a success message for count `c`
/// always decodes to `Success(c)`.
pub proof fn lemma_parse_success_wire(c: u64)
    ensures
        parse_signal_spec(success_wire(c)) == Some(Signal::Success(c)),
{
    let s = success_wire(c);
    let i0: int = 7;
    lemma_dec_digits_wf(c as nat);
    assert(s[i0] == COLON);
    assert forall|j: int| 0 <= j < s.len() && j != i0 implies s[j] != COLON by {
        if j < i0 {
            assert(s[j] == success_status()[j]);
        } else {
            assert(s[j] == dec_digits(c as nat)[j - i0 - 1]);
            assert(is_digit(s[j]));
        }
    }
    assert(one_colon(s));
    let w = colon_at(s);
    assert(s[w] == COLON);
    assert(w == i0);
    assert(s.take(i0) =~= success_status());
    assert(s.skip(i0 + 1) =~= dec_digits(c as nat));
    assert(success_status().len() != fail_status().len());
    assert(success_status() !~= fail_status());
}

/// Decoding is left inverse to encoding: a failure message for count `c`
/// always decodes to `Fail(c)`.
pub proof fn lemma_parse_fail_wire(c: u64)
    ensures
        parse_signal_spec(fail_wire(c)) == Some(Signal::Fail(c)),
{
    let s = fail_wire(c);
    let i0: int = 4;
    lemma_dec_digits_wf(c as nat);
    assert(s[i0] == COLON);
    assert forall|j: int| 0 <= j < s.len() && j != i0 implies s[j] != COLON by {
        if j < i0 {
            assert(s[j] == fail_status()[j]);
        } else {
            assert(s[j] == dec_digits(c as nat)[j - i0 - 1]);
            assert(is_digit(s[j]));
        }
    }
    assert(one_colon(s));
    let w = colon_at(s);
    assert(s[w] == COLON);
    assert(w == i0);
    assert(s.take(i0) =~= fail_status());
    assert(s.skip(i0 + 1) =~= dec_digits(c as nat));
}

/// Write `n` in base 10, most significant digit first.
pub fn u64_to_dec(n: u64) -> (r: Vec<u8>)
    ensures
        r@ == dec_digits(n as nat),
    decreases n,
{
    if n < 10 {
        let mut v: Vec<u8> = Vec::new();
        v.push(48 + n as u8);
        proof {
            assert(v@ =~= dec_digits(n as nat));
        }
        v
    } else {
        let mut v = u64_to_dec(n / 10);
        v.push(48 + (n % 10) as u8);
        proof {
            assert(v@ =~= dec_digits(n as nat));
        }
        v
    }
}

/// Encode a success signal for count `c`. The monitor reading the result
/// gets back exactly `Success(c)`.
pub fn success_message(c: u64) -> (m: Vec<u8>)
    ensures
        m@ == success_wire(c),
        parse_signal_spec(m@) == Some(Signal::Success(c)),
{
    let mut m: Vec<u8> = Vec::new();
    m.push(115);
    m.push(117);
    m.push(99);
    m.push(99);
    m.push(101);
    m.push(115);
    m.push(115);
    m.push(COLON);
    let mut d = u64_to_dec(c);
    m.append(&mut d);
    proof {
        assert(m@ =~= success_wire(c));
        lemma_parse_success_wire(c);
    }
    m
}

/// Encode a failure signal for count `c`. The monitor reading the result
/// gets back exactly `Fail(c)`.
pub fn fail_message(c: u64) -> (m: Vec<u8>)
    ensures
        m@ == fail_wire(c),
        parse_signal_spec(m@) == Some(Signal::Fail(c)),
{
    let mut m: Vec<u8> = Vec::new();
    m.push(102);
    m.push(97);
    m.push(105);
    m.push(108);
    m.push(COLON);
    let mut d = u64_to_dec(c);
    m.append(&mut d);
    proof {
        assert(m@ =~= fail_wire(c));
        lemma_parse_fail_wire(c);
    }
    m
}

} // verus!
