//! The persisted per-issue escalation record and its wire format.
//!
//! A record is stored as the JSON object
//! `{"issue_no_project_ping":<null or epoch seconds>,"issue_no_project_npings":<count>}`,
//! keyed in the store by the issue's numeric identifier rendered as a
//! decimal string. Numbers are canonical decimals: no sign, no leading
//! zeros. The encoder below emits exactly this form and the parser accepts
//! exactly this form, so a record survives a round trip unchanged and a
//! stored value that parses is the encoding of the record it parses to.

use vstd::prelude::*;
use crate::types::Error;

verus! {

/// Persisted per-issue escalation state.
#[derive(Clone, Copy, Debug, PartialEq, Eq)]
pub struct EscalationRecord {
    /// Epoch seconds of the most recent "no project attached" reminder,
    /// absent until the first reminder is sent.
    pub issue_no_project_ping: Option<u64>,
    /// Number of escalation ticks already acted upon.
    pub issue_no_project_npings: u64,
}

impl EscalationRecord {
    /// The state of an issue never yet observed without a project link.
    pub open spec fn spec_new() -> EscalationRecord {
        EscalationRecord { issue_no_project_ping: None, issue_no_project_npings: 0 }
    }

    /// The state of an issue never yet observed without a project link.
    pub fn new() -> (r: EscalationRecord)
        ensures
            r == EscalationRecord::spec_new(),
    {
        EscalationRecord { issue_no_project_ping: None, issue_no_project_npings: 0 }
    }
}

/// Whether `b` is an ASCII decimal digit.
pub open spec fn is_digit(b: u8) -> bool {
    48 <= b <= 57
}

/// The canonical decimal digits of `n`: most significant first, no sign,
/// no leading zeros ("0" for zero).
pub open spec fn dec_digits(n: nat) -> Seq<u8>
    decreases n,
{
    if n < 10 {
        seq![(48 + n) as u8]
    } else {
        dec_digits(n / 10) + seq![(48 + n % 10) as u8]
    }
}

/// The numeric value of a digit string, most significant first.
pub open spec fn dec_value(s: Seq<u8>) -> int
    decreases s.len(),
{
    if s.len() == 0 {
        0
    } else {
        dec_value(s.drop_last()) * 10 + (s.last() - 48)
    }
}

/// Basic shape of a canonical digit string: nonempty, all digits, and it
/// starts with '0' exactly when the number is zero.
pub proof fn lemma_dec_digits_wf(n: nat)
    ensures
        dec_digits(n).len() >= 1,
        forall|i: int| 0 <= i < dec_digits(n).len() ==> is_digit(#[trigger] dec_digits(n)[i]),
        dec_digits(n)[0] == 48 <==> n == 0,
        n < 10 <==> dec_digits(n).len() == 1,
    decreases n,
{
    if n >= 10 {
        lemma_dec_digits_wf(n / 10);
    }
}

/// Decoding inverts encoding: the canonical digits of `n` evaluate to `n`.
pub proof fn lemma_dec_value_of_digits(n: nat)
    ensures
        dec_value(dec_digits(n)) == n,
    decreases n,
{
    if n < 10 {
        assert(dec_digits(n) =~= seq![(48 + n) as u8]);
        assert((48 + n) as u8 == 48 + n);
        assert(dec_digits(n).drop_last() =~= Seq::<u8>::empty());
        assert(dec_value(Seq::<u8>::empty()) == 0);
    } else {
        lemma_dec_value_of_digits(n / 10);
        assert(dec_digits(n).drop_last() =~= dec_digits(n / 10));
        assert(dec_digits(n).last() == (48 + n % 10) as u8);
        assert((48 + n % 10) as u8 == 48 + n % 10);
        assert(dec_value(dec_digits(n)) == dec_value(dec_digits(n / 10)) * 10 + n % 10);
    }
}

/// A digit string evaluates to a non-negative number.
pub proof fn lemma_dec_value_nonneg(s: Seq<u8>)
    requires
        forall|i: int| 0 <= i < s.len() ==> is_digit(#[trigger] s[i]),
    ensures
        dec_value(s) >= 0,
    decreases s.len(),
{
    if s.len() > 0 {
        lemma_dec_value_nonneg(s.drop_last());
    }
}

/// The value of a prefix of a digit string never exceeds the whole string's
/// value.
pub proof fn lemma_dec_value_prefix(s: Seq<u8>, j: int)
    requires
        forall|i: int| 0 <= i < s.len() ==> is_digit(#[trigger] s[i]),
        0 <= j <= s.len(),
    ensures
        dec_value(s.subrange(0, j)) <= dec_value(s),
    decreases s.len() - j,
{
    if j == s.len() {
        assert(s.subrange(0, j) =~= s);
    } else {
        lemma_dec_value_prefix(s, j + 1);
        let t = s.subrange(0, j + 1);
        assert(t.drop_last() =~= s.subrange(0, j));
        assert(forall|i: int| 0 <= i < t.len() ==> is_digit(#[trigger] t[i]));
        lemma_dec_value_nonneg(s.subrange(0, j));
        assert(dec_value(t) == dec_value(s.subrange(0, j)) * 10 + (t.last() - 48));
        assert(dec_value(s.subrange(0, j)) * 10 >= dec_value(s.subrange(0, j)));
    }
}

/// Encoding inverts decoding: a nonempty all-digit string without a
/// leading zero (unless it is just "0") is the canonical digits of its
/// value.
pub proof fn lemma_digits_of_dec_value(s: Seq<u8>)
    requires
        s.len() >= 1,
        forall|i: int| 0 <= i < s.len() ==> is_digit(#[trigger] s[i]),
        s[0] == 48 ==> s.len() == 1,
    ensures
        dec_value(s) >= 0,
        dec_digits(dec_value(s) as nat) =~= s,
    decreases s.len(),
{
    lemma_dec_value_nonneg(s);
    if s.len() == 1 {
        assert(s.last() == s[0]);
        assert(s.drop_last() =~= Seq::<u8>::empty());
        assert(dec_value(Seq::<u8>::empty()) == 0);
        assert(dec_value(s) == s[0] - 48);
        assert(is_digit(s[0]));
        let v = dec_value(s) as nat;
        assert(v < 10);
        assert(dec_digits(v) =~= seq![(48 + v) as u8]);
        assert((48 + v) as u8 == 48 + v);
        assert(dec_digits(dec_value(s) as nat) =~= s);
    } else {
        let t = s.drop_last();
        assert(forall|i: int| 0 <= i < t.len() ==> is_digit(#[trigger] t[i]));
        lemma_digits_of_dec_value(t);
        let v = dec_value(s);
        let vt = dec_value(t);
        let d = s.last() - 48;
        assert(v == vt * 10 + d);
        assert(vt >= 1) by {
            if vt == 0 {
                lemma_dec_digits_wf(0);
                assert(dec_digits(0nat) =~= t);
                assert(t[0] == 48);
            }
        }
        assert(v >= 10) by {
            assert(vt * 10 >= 10) by (nonlinear_arith)
                requires vt >= 1;
        }
        assert(v / 10 == vt && v % 10 == d) by (nonlinear_arith)
            requires v == vt * 10 + d, 0 <= d < 10, vt >= 0;
        assert(dec_digits(v as nat) =~= dec_digits((v / 10) as nat) + seq![(48 + (v % 10) as nat) as u8]);
        assert(dec_digits(v as nat) =~= s);
    }
}

/// Appends the canonical decimal digits of `n` to `out`.
pub fn push_dec(n: u64, out: &mut Vec<u8>)
    ensures
        final(out)@ == old(out)@ + dec_digits(n as nat),
    decreases n,
{
    if n < 10 {
        out.push(48 + n as u8);
        assert(final(out)@ =~= old(out)@ + dec_digits(n as nat));
    } else {
        push_dec(n / 10, out);
        out.push(48 + (n % 10) as u8);
        assert(final(out)@ =~= old(out)@ + dec_digits(n as nat));
    }
}

/// The canonical decimal digits of `n`, as bytes. Used as the store key
/// for an issue's record.
pub fn u64_to_dec(n: u64) -> (v: Vec<u8>)
    ensures
        v@ == dec_digits(n as nat),
{
    let mut v: Vec<u8> = Vec::new();
    push_dec(n, &mut v);
    assert(v@ =~= dec_digits(n as nat));
    v
}

/// `{"issue_no_project_ping":` — the opening brace and first field name.
pub open spec fn ping_key_bytes() -> Seq<u8> {
    seq![123u8, 34, 105, 115, 115, 117, 101, 95, 110, 111, 95, 112, 114, 111, 106, 101, 99, 116, 95, 112, 105, 110, 103, 34, 58]
}

/// `,"issue_no_project_npings":` — the separator and second field name.
pub open spec fn npings_key_bytes() -> Seq<u8> {
    seq![44u8, 34, 105, 115, 115, 117, 101, 95, 110, 111, 95, 112, 114, 111, 106, 101, 99, 116, 95, 110, 112, 105, 110, 103, 115, 34, 58]
}

/// `null` — the absent-timestamp value.
pub open spec fn null_bytes() -> Seq<u8> {
    seq![110u8, 117, 108, 108]
}

/// `{"issue_no_project_ping":` as a byte vector.
fn ping_key_lit() -> (v: Vec<u8>)
    ensures
        v@ == ping_key_bytes(),
{
    let v: Vec<u8> = vec![123u8, 34, 105, 115, 115, 117, 101, 95, 110, 111, 95, 112, 114, 111, 106, 101, 99, 116, 95, 112, 105, 110, 103, 34, 58];
    assert(v@ =~= ping_key_bytes());
    v
}

/// `,"issue_no_project_npings":` as a byte vector.
fn npings_key_lit() -> (v: Vec<u8>)
    ensures
        v@ == npings_key_bytes(),
{
    let v: Vec<u8> = vec![44u8, 34, 105, 115, 115, 117, 101, 95, 110, 111, 95, 112, 114, 111, 106, 101, 99, 116, 95, 110, 112, 105, 110, 103, 115, 34, 58];
    assert(v@ =~= npings_key_bytes());
    v
}

/// `null` as a byte vector.
fn null_lit() -> (v: Vec<u8>)
    ensures
        v@ == null_bytes(),
{
    let v: Vec<u8> = vec![110u8, 117, 108, 108];
    assert(v@ =~= null_bytes());
    v
}

/// The canonical encoding of a record.
pub open spec fn spec_serialize(rec: EscalationRecord) -> Seq<u8> {
    ping_key_bytes() + (match rec.issue_no_project_ping {
        None => null_bytes(),
        Some(t) => dec_digits(t as nat),
    }) + npings_key_bytes() + dec_digits(rec.issue_no_project_npings as nat) + seq![125u8]
}

/// Encodes a record in its canonical wire form.
pub fn serialize_record(rec: &EscalationRecord) -> (v: Vec<u8>)
    ensures
        v@ == spec_serialize(*rec),
{
    let mut v = ping_key_lit();
    match rec.issue_no_project_ping {
        None => {
            let mut lit = null_lit();
            v.append(&mut lit);
        }
        Some(t) => {
            push_dec(t, &mut v);
        }
    }
    let mut key2 = npings_key_lit();
    v.append(&mut key2);
    push_dec(rec.issue_no_project_npings, &mut v);
    v.push(125);
    assert(v@ =~= spec_serialize(*rec));
    v
}

/// The bytes encoding an optional timestamp: `null` when absent, canonical
/// digits otherwise.
pub open spec fn opt_dec_bytes(v: Option<u64>) -> Seq<u8> {
    match v {
        None => null_bytes(),
        Some(t) => dec_digits(t as nat),
    }
}

/// How a record's encoding decomposes into its five pieces.
proof fn lemma_ser_parts(rec: EscalationRecord)
    ensures
        spec_serialize(rec).len() == 53 + opt_dec_bytes(rec.issue_no_project_ping).len()
            + dec_digits(rec.issue_no_project_npings as nat).len(),
        spec_serialize(rec).subrange(0, 25) == ping_key_bytes(),
        spec_serialize(rec).subrange(
            25,
            25 + opt_dec_bytes(rec.issue_no_project_ping).len() as int,
        ) == opt_dec_bytes(rec.issue_no_project_ping),
        spec_serialize(rec).subrange(
            25 + opt_dec_bytes(rec.issue_no_project_ping).len() as int,
            52 + opt_dec_bytes(rec.issue_no_project_ping).len() as int,
        ) == npings_key_bytes(),
        spec_serialize(rec).subrange(
            52 + opt_dec_bytes(rec.issue_no_project_ping).len() as int,
            spec_serialize(rec).len() - 1,
        ) == dec_digits(rec.issue_no_project_npings as nat),
        spec_serialize(rec).last() == 125u8,
{
    let vl = opt_dec_bytes(rec.issue_no_project_ping).len() as int;
    let wl = dec_digits(rec.issue_no_project_npings as nat).len() as int;
    let s = spec_serialize(rec);
    assert(s.len() == 53 + vl + wl);
    assert(s.subrange(0, 25) =~= ping_key_bytes());
    assert(s.subrange(25, 25 + vl) =~= opt_dec_bytes(rec.issue_no_project_ping));
    assert(s.subrange(25 + vl, 52 + vl) =~= npings_key_bytes());
    assert(s.subrange(52 + vl, 52 + vl + wl)
        =~= dec_digits(rec.issue_no_project_npings as nat));
}

/// The wire format is injective: equal encodings encode equal records.
#[verifier::rlimit(100)]
#[verifier::spinoff_prover]
pub proof fn lemma_serialize_injective(r1: EscalationRecord, r2: EscalationRecord)
    requires
        spec_serialize(r1) == spec_serialize(r2),
    ensures
        r1 == r2,
{
    lemma_ser_parts(r1);
    lemma_ser_parts(r2);
    let s = spec_serialize(r1);
    let v1 = opt_dec_bytes(r1.issue_no_project_ping);
    let v2 = opt_dec_bytes(r2.issue_no_project_ping);
    let l1 = v1.len() as int;
    let l2 = v2.len() as int;
    assert(npings_key_bytes()[0] == 44);
    assert(null_bytes()[0] == 110);
    assert(v1[0] == s[25]) by {
        assert(s.subrange(25, 25 + l1) == v1);
    }
    assert(v2[0] == s[25]) by {
        assert(s.subrange(25, 25 + l2) == v2);
    }
    assert(v1 == v2) by {
        match (r1.issue_no_project_ping, r2.issue_no_project_ping) {
            (None, Some(t2)) => {
                lemma_dec_digits_wf(t2 as nat);
                assert(is_digit(v2[0]));
            }
            (Some(t1), None) => {
                lemma_dec_digits_wf(t1 as nat);
                assert(is_digit(v1[0]));
            }
            (None, None) => {}
            (Some(t1), Some(t2)) => {
                lemma_dec_digits_wf(t1 as nat);
                lemma_dec_digits_wf(t2 as nat);
                // a shorter timestamp run would put a digit where the other
                // encoding has the separator comma
                assert(l1 == l2) by {
                    if l1 < l2 {
                        assert(s[25 + l1] == 44);
                        assert(v2[l1] == s[25 + l1]) by {
                            assert(s.subrange(25, 25 + l2) == v2);
                        }
                        assert(is_digit(v2[l1]));
                    } else if l2 < l1 {
                        assert(s[25 + l2] == 44);
                        assert(v1[l2] == s[25 + l2]) by {
                            assert(s.subrange(25, 25 + l1) == v1);
                        }
                        assert(is_digit(v1[l2]));
                    }
                }
                assert(v1 == v2);
            }
        }
    }
    assert(r1.issue_no_project_ping == r2.issue_no_project_ping) by {
        match (r1.issue_no_project_ping, r2.issue_no_project_ping) {
            (Some(t1), Some(t2)) => {
                lemma_dec_value_of_digits(t1 as nat);
                lemma_dec_value_of_digits(t2 as nat);
            }
            _ => {}
        }
    }
    let w1 = dec_digits(r1.issue_no_project_npings as nat);
    let w2 = dec_digits(r2.issue_no_project_npings as nat);
    assert(w1 == w2) by {
        assert(w1 == s.subrange(52 + l1, s.len() - 1));
        assert(w2 == s.subrange(52 + l2, s.len() - 1));
    }
    lemma_dec_value_of_digits(r1.issue_no_project_npings as nat);
    lemma_dec_value_of_digits(r2.issue_no_project_npings as nat);
}

/// Matches `lit` at position `start` of `bytes`; returns the position just
/// past it exactly when it occurs there in full.
fn match_lit(bytes: &Vec<u8>, start: usize, lit: &Vec<u8>) -> (r: Option<usize>)
    ensures
        match r {
            Some(end) => {
                &&& end == start + lit@.len()
                &&& end <= bytes@.len()
                &&& bytes@.subrange(start as int, end as int) == lit@
            },
            None => !(start + lit@.len() <= bytes@.len()
                && bytes@.subrange(start as int, start + lit@.len()) == lit@),
        },
{
    if lit.len() > bytes.len() || start > bytes.len() - lit.len() {
        return None;
    }
    let stop = start + lit.len();
    let mut i: usize = 0;
    while i < lit.len()
        invariant
            stop == start + lit@.len(),
            stop <= bytes@.len(),
            0 <= i <= lit@.len(),
            forall|j: int| 0 <= j < i ==> bytes@[start + j] == lit@[j],
        decreases lit@.len() - i,
    {
        if bytes[start + i] != lit[i] {
            proof {
                let sub = bytes@.subrange(start as int, start + lit@.len());
                assert(sub[i as int] == bytes@[start + i]);
                assert(sub != lit@);
            }
            return None;
        }
        i = i + 1;
    }
    assert(bytes@.subrange(start as int, start + lit@.len()) =~= lit@);
    Some(start + lit.len())
}

/// Reads a maximal run of decimal digits at `start`, accepting exactly the
/// canonical digits of a `u64`: at least one digit, no leading zero, the
/// value in range.
fn parse_dec_run(bytes: &Vec<u8>, start: usize) -> (r: Option<(u64, usize)>)
    requires
        start <= bytes@.len(),
    ensures
        r matches Some(p) ==> {
            &&& start < p.1 <= bytes@.len()
            &&& bytes@.subrange(start as int, p.1 as int) == dec_digits(p.0 as nat)
            &&& (p.1 == bytes@.len() || !is_digit(bytes@[p.1 as int]))
        },
        forall|n: u64, end: int|
            #![trigger dec_digits(n as nat), bytes@.subrange(start as int, end)]
            end == start + dec_digits(n as nat).len() && end <= bytes@.len()
                && bytes@.subrange(start as int, end) == dec_digits(n as nat)
                && (end == bytes@.len() || !is_digit(bytes@[end]))
                ==> r == Some((n, end as usize)),
{
    let len = bytes.len();
    if start == len || !(48 <= bytes[start] && bytes[start] <= 57) {
        proof {
            assert forall|n: u64, end: int|
                end == start + dec_digits(n as nat).len() && end <= bytes@.len()
                    && bytes@.subrange(start as int, end) == dec_digits(n as nat)
                    && (end == bytes@.len() || !is_digit(bytes@[end]))
                    implies false by {
                lemma_dec_digits_wf(n as nat);
                assert(bytes@.subrange(start as int, end)[0] == bytes@[start as int]);
            }
        }
        return None;
    }
    if bytes[start] == 48 {
        if start + 1 < len && 48 <= bytes[start + 1] && bytes[start + 1] <= 57 {
            proof {
                assert forall|n: u64, end: int|
                    end == start + dec_digits(n as nat).len() && end <= bytes@.len()
                        && bytes@.subrange(start as int, end) == dec_digits(n as nat)
                        && (end == bytes@.len() || !is_digit(bytes@[end]))
                        implies false by {
                    lemma_dec_digits_wf(n as nat);
                    assert(bytes@.subrange(start as int, end)[0] == bytes@[start as int]);
                    assert(n == 0);
                    assert(end == start + 1);
                }
            }
            return None;
        }
        proof {
            assert(bytes@.subrange(start as int, start + 1) =~= dec_digits(0nat));
            assert forall|n: u64, end: int|
                end == start + dec_digits(n as nat).len() && end <= bytes@.len()
                    && bytes@.subrange(start as int, end) == dec_digits(n as nat)
                    && (end == bytes@.len() || !is_digit(bytes@[end]))
                    implies Some((0u64, (start + 1) as usize)) == Some((n, end as usize)) by {
                lemma_dec_digits_wf(n as nat);
                assert(bytes@.subrange(start as int, end)[0] == bytes@[start as int]);
                assert(n == 0);
            }
        }
        return Some((0, start + 1));
    }
    let mut acc: u64 = (bytes[start] - 48) as u64;
    let mut i: usize = start + 1;
    proof {
        let first = bytes@.subrange(start as int, start + 1);
        assert(first.drop_last() =~= Seq::<u8>::empty());
        assert(dec_value(Seq::<u8>::empty()) == 0);
        assert(first.last() == bytes@[start as int]);
        assert(acc as int == dec_value(first));
    }
    while i < len && 48 <= bytes[i] && bytes[i] <= 57
        invariant
            len == bytes@.len(),
            start < i <= len,
            49 <= bytes@[start as int] <= 57,
            forall|j: int| start <= j < i ==> is_digit(#[trigger] bytes@[j]),
            acc as int == dec_value(bytes@.subrange(start as int, i as int)),
        decreases len - i,
    {
        let d = bytes[i] - 48;
        proof {
            let pre = bytes@.subrange(start as int, i + 1);
            assert(pre.drop_last() =~= bytes@.subrange(start as int, i as int));
            assert(pre.last() == bytes@[i as int]);
            assert(dec_value(pre) == acc * 10 + d);
        }
        if acc > (u64::MAX - d as u64) / 10 {
            proof {
                let q = ((u64::MAX - d as u64) / 10) as int;
                assert(q * 10 + (u64::MAX - d as u64) as int % 10 == u64::MAX - d);
                assert(acc * 10 >= q * 10 + 10);
                assert(acc * 10 + d > u64::MAX);
                assert forall|n: u64, end: int|
                    end == start + dec_digits(n as nat).len() && end <= bytes@.len()
                        && bytes@.subrange(start as int, end) == dec_digits(n as nat)
                        && (end == bytes@.len() || !is_digit(bytes@[end]))
                        implies false by {
                    lemma_dec_digits_wf(n as nat);
                    let run = bytes@.subrange(start as int, end);
                    assert forall|j: int| start <= j < end implies is_digit(#[trigger] bytes@[j]) by {
                        assert(run[j - start] == bytes@[j]);
                    }
                    assert(i < end) by {
                        if end <= i {
                            assert(is_digit(bytes@[end]));
                        }
                    }
                    let pre = bytes@.subrange(start as int, i + 1);
                    assert(pre =~= run.subrange(0, i + 1 - start));
                    assert(forall|j: int| 0 <= j < run.len() ==> is_digit(#[trigger] run[j]));
                    lemma_dec_value_prefix(run, i + 1 - start);
                    lemma_dec_value_of_digits(n as nat);
                    assert(dec_value(pre) <= n);
                }
            }
            return None;
        }
        proof {
            let q = ((u64::MAX - d as u64) / 10) as int;
            assert(q * 10 + (u64::MAX - d as u64) as int % 10 == u64::MAX - d);
            assert(acc * 10 <= q * 10);
            assert(acc * 10 + d <= u64::MAX);
        }
        let next = acc * 10 + d as u64;
        acc = next;
        i = i + 1;
    }
    proof {
        let run = bytes@.subrange(start as int, i as int);
        assert(run[0] == bytes@[start as int]);
        lemma_digits_of_dec_value(run);
        assert(dec_digits(acc as nat) == run);
        assert forall|n: u64, end: int|
            end == start + dec_digits(n as nat).len() && end <= bytes@.len()
                && bytes@.subrange(start as int, end) == dec_digits(n as nat)
                && (end == bytes@.len() || !is_digit(bytes@[end]))
                implies Some((acc, i)) == Some((n, end as usize)) by {
            lemma_dec_digits_wf(n as nat);
            let other = bytes@.subrange(start as int, end);
            assert forall|j: int| start <= j < end implies is_digit(#[trigger] bytes@[j]) by {
                assert(other[j - start] == bytes@[j]);
            }
            assert(end == i) by {
                if end < i {
                    assert(is_digit(bytes@[end]));
                } else if end > i {
                    assert(is_digit(bytes@[i as int]));
                    assert(i == len || !(48 <= bytes@[i as int] <= 57));
                }
            }
            assert(other =~= run);
            lemma_dec_value_of_digits(n as nat);
        }
    }
    Some((acc, i))
}

/// Reads the timestamp field's value at `start`: `null` or canonical
/// digits, whichever stands there.
fn parse_ping_value(bytes: &Vec<u8>, start: usize) -> (r: Option<(Option<u64>, usize)>)
    requires
        start <= bytes@.len(),
    ensures
        r matches Some(p) ==> {
            &&& start <= p.1 <= bytes@.len()
            &&& bytes@.subrange(start as int, p.1 as int) == opt_dec_bytes(p.0)
        },
        forall|v: Option<u64>, end: int|
            #![trigger opt_dec_bytes(v), bytes@.subrange(start as int, end)]
            end == start + opt_dec_bytes(v).len() && end <= bytes@.len()
                && bytes@.subrange(start as int, end) == opt_dec_bytes(v)
                && (v is Some ==> (end == bytes@.len() || !is_digit(bytes@[end])))
                ==> r == Some((v, end as usize)),
{
    if start < bytes.len() && bytes[start] == 110 {
        let null = null_lit();
        match match_lit(bytes, start, &null) {
            Some(p) => {
                proof {
                    assert forall|v: Option<u64>, end: int|
                        end == start + opt_dec_bytes(v).len() && end <= bytes@.len()
                            && bytes@.subrange(start as int, end) == opt_dec_bytes(v)
                            && (v is Some ==> (end == bytes@.len() || !is_digit(bytes@[end])))
                            implies Some((None::<u64>, p)) == Some((v, end as usize)) by {
                        if v is Some {
                            lemma_dec_digits_wf(v->0 as nat);
                            assert(bytes@.subrange(start as int, end)[0] == bytes@[start as int]);
                        }
                        assert(v is None);
                        assert(end == start + 4);
                    }
                }
                Some((None, p))
            }
            None => {
                proof {
                    assert forall|v: Option<u64>, end: int|
                        end == start + opt_dec_bytes(v).len() && end <= bytes@.len()
                            && bytes@.subrange(start as int, end) == opt_dec_bytes(v)
                            && (v is Some ==> (end == bytes@.len() || !is_digit(bytes@[end])))
                            implies false by {
                        if v is Some {
                            lemma_dec_digits_wf(v->0 as nat);
                            assert(bytes@.subrange(start as int, end)[0] == bytes@[start as int]);
                        }
                        assert(v is None);
                        assert(end == start + 4);
                    }
                }
                None
            }
        }
    } else {
        match parse_dec_run(bytes, start) {
            Some((t, p)) => {
                proof {
                    assert forall|v: Option<u64>, end: int|
                        end == start + opt_dec_bytes(v).len() && end <= bytes@.len()
                            && bytes@.subrange(start as int, end) == opt_dec_bytes(v)
                            && (v is Some ==> (end == bytes@.len() || !is_digit(bytes@[end])))
                            implies Some((Some(t), p)) == Some((v, end as usize)) by {
                        if v is None {
                            assert(bytes@.subrange(start as int, end)[0] == bytes@[start as int]);
                            assert(bytes@[start as int] == 110u8);
                        }
                        let tv = v->0;
                        assert(bytes@.subrange(start as int, end) == dec_digits(tv as nat));
                    }
                }
                Some((Some(t), p))
            }
            None => {
                proof {
                    assert forall|v: Option<u64>, end: int|
                        end == start + opt_dec_bytes(v).len() && end <= bytes@.len()
                            && bytes@.subrange(start as int, end) == opt_dec_bytes(v)
                            && (v is Some ==> (end == bytes@.len() || !is_digit(bytes@[end])))
                            implies false by {
                        if v is None {
                            assert(bytes@.subrange(start as int, end)[0] == bytes@[start as int]);
                            assert(bytes@[start as int] == 110u8);
                        }
                        let tv = v->0;
                        assert(bytes@.subrange(start as int, end) == dec_digits(tv as nat));
                    }
                }
                None
            }
        }
    }
}

/// Decodes a persisted record.
///
/// Succeeds exactly on the canonical encodings that `serialize_record`
/// produces, and then returns the record encoded; anything else is reported
/// as data corruption rather than silently reset.
#[verifier::rlimit(80)]
pub fn parse_record(bytes: &Vec<u8>) -> (r: Result<EscalationRecord, Error>)
    ensures
        forall|rec: EscalationRecord|
            bytes@ == spec_serialize(rec) ==> r == Ok::<EscalationRecord, Error>(rec),
        r matches Ok(rec) ==> bytes@ == spec_serialize(rec),
        r is Err ==> r == Err::<EscalationRecord, Error>(Error::DeserializationError),
{
    let key1 = ping_key_lit();
    let p1 = match match_lit(bytes, 0, &key1) {
        Some(p) => p,
        None => {
            proof {
                assert forall|rec: EscalationRecord| bytes@ != spec_serialize(rec) by {
                    if bytes@ == spec_serialize(rec) {
                        lemma_ser_parts(rec);
                    }
                }
            }
            return Err(Error::DeserializationError);
        }
    };
    let parsed = parse_ping_value(bytes, p1);
    let (ping, p2) = match parsed {
        Some(p) => p,
        None => {
            proof {
                assert forall|rec: EscalationRecord| bytes@ != spec_serialize(rec) by {
                    if bytes@ == spec_serialize(rec) {
                        lemma_ser_parts(rec);
                        let vl = opt_dec_bytes(rec.issue_no_project_ping).len() as int;
                        if rec.issue_no_project_ping is Some {
                            lemma_dec_digits_wf(rec.issue_no_project_ping->0 as nat);
                            assert(bytes@[25 + vl] == npings_key_bytes()[0]);
                        }
                    }
                }
            }
            return Err(Error::DeserializationError);
        }
    };
    let key2 = npings_key_lit();
    let p3 = match match_lit(bytes, p2, &key2) {
        Some(p) => p,
        None => {
            proof {
                assert forall|rec: EscalationRecord| bytes@ != spec_serialize(rec) by {
                    if bytes@ == spec_serialize(rec) {
                        lemma_ser_parts(rec);
                        let vl = opt_dec_bytes(rec.issue_no_project_ping).len() as int;
                        if rec.issue_no_project_ping is Some {
                            lemma_dec_digits_wf(rec.issue_no_project_ping->0 as nat);
                            assert(bytes@[25 + vl] == npings_key_bytes()[0]);
                        }
                        assert(parsed == Some((rec.issue_no_project_ping, (25 + vl) as usize)));
                    }
                }
            }
            return Err(Error::DeserializationError);
        }
    };
    let parsed_np = parse_dec_run(bytes, p3);
    let (npings, p4) = match parsed_np {
        Some(x) => x,
        None => {
            proof {
                assert forall|rec: EscalationRecord| bytes@ != spec_serialize(rec) by {
                    if bytes@ == spec_serialize(rec) {
                        lemma_ser_parts(rec);
                        let vl = opt_dec_bytes(rec.issue_no_project_ping).len() as int;
                        let wl = dec_digits(rec.issue_no_project_npings as nat).len() as int;
                        if rec.issue_no_project_ping is Some {
                            lemma_dec_digits_wf(rec.issue_no_project_ping->0 as nat);
                            assert(bytes@[25 + vl] == npings_key_bytes()[0]);
                        }
                        assert(parsed == Some((rec.issue_no_project_ping, (25 + vl) as usize)));
                        lemma_dec_digits_wf(rec.issue_no_project_npings as nat);
                        assert(bytes@.subrange(52 + vl, 52 + vl + wl)
                            == dec_digits(rec.issue_no_project_npings as nat));
                        assert(bytes@[52 + vl + wl] == 125u8);
                    }
                }
            }
            return Err(Error::DeserializationError);
        }
    };
    if p4 < bytes.len() && p4 + 1 == bytes.len() && bytes[p4] == 125 {
        let rec = EscalationRecord {
            issue_no_project_ping: ping,
            issue_no_project_npings: npings,
        };
        proof {
            assert(bytes@ =~= bytes@.subrange(0, 25)
                + bytes@.subrange(25, p2 as int)
                + bytes@.subrange(p2 as int, p3 as int)
                + bytes@.subrange(p3 as int, p4 as int)
                + seq![bytes@[p4 as int]]);
            assert(bytes@ == spec_serialize(rec));
            assert forall|other: EscalationRecord|
                bytes@ == spec_serialize(other)
                    implies Ok::<EscalationRecord, Error>(rec)
                        == Ok::<EscalationRecord, Error>(other) by {
                lemma_ser_parts(other);
                let vl = opt_dec_bytes(other.issue_no_project_ping).len() as int;
                let wl = dec_digits(other.issue_no_project_npings as nat).len() as int;
                if other.issue_no_project_ping is Some {
                    lemma_dec_digits_wf(other.issue_no_project_ping->0 as nat);
                    assert(bytes@[25 + vl] == npings_key_bytes()[0]);
                }
                assert(parsed == Some((other.issue_no_project_ping, (25 + vl) as usize)));
                lemma_dec_digits_wf(other.issue_no_project_npings as nat);
                assert(bytes@.subrange(52 + vl, 52 + vl + wl)
                    == dec_digits(other.issue_no_project_npings as nat));
                assert(bytes@[52 + vl + wl] == 125u8);
                assert(parsed_np == Some((other.issue_no_project_npings, (52 + vl + wl) as usize)));
            }
        }
        Ok(rec)
    } else {
        proof {
            assert forall|rec: EscalationRecord| bytes@ != spec_serialize(rec) by {
                if bytes@ == spec_serialize(rec) {
                    lemma_ser_parts(rec);
                    let vl = opt_dec_bytes(rec.issue_no_project_ping).len() as int;
                    let wl = dec_digits(rec.issue_no_project_npings as nat).len() as int;
                    if rec.issue_no_project_ping is Some {
                        lemma_dec_digits_wf(rec.issue_no_project_ping->0 as nat);
                        assert(bytes@[25 + vl] == npings_key_bytes()[0]);
                    }
                    assert(parsed == Some((rec.issue_no_project_ping, (25 + vl) as usize)));
                    lemma_dec_digits_wf(rec.issue_no_project_npings as nat);
                    assert(bytes@.subrange(52 + vl, 52 + vl + wl)
                        == dec_digits(rec.issue_no_project_npings as nat));
                    assert(bytes@[52 + vl + wl] == 125u8);
                    assert(parsed_np == Some((rec.issue_no_project_npings, (52 + vl + wl) as usize)));
                }
            }
        }
        Err(Error::DeserializationError)
    }
}

} // verus!
