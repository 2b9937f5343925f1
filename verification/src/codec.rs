use vstd::prelude::*;
use vstd::string::StrSliceExecFns;
use vstd::string::StringExecFns;
use crate::records::{EventInfo, EventInfoV, ExtrinsicInfo, ExtrinsicInfoV, StoredBlock, StoredBlockV};

verus! {

// ============================================================================
// The durable record format.
//
// A stored block is serialized as a string:
//   block     := u64(number) str(hash) i64(timestamp) u64(k) extr^k
//   extr      := u64(index) str(hash) str(action) str(params) u64(m) event^m
//   event     := str(pallet) str(variant) str(data)
//   u64(n)    := decimal digits of n, then ';'
//   i64(t)    := '-' u64(-t) when t < 0, else u64(t)
//   str(s)    := decimal digits of len(s), then ':', then the characters of s
// Strings are length-prefixed, so no escaping is needed and decoding is
// unambiguous.  `decode_block_spec` is the exact meaning of a stored string;
// the decoder returns `None` on any malformed input.
// ============================================================================

pub open spec fn digit_val(c: char) -> nat {
    if c == '0' { 0 } else if c == '1' { 1 } else if c == '2' { 2 } else if c == '3' { 3 }
    else if c == '4' { 4 } else if c == '5' { 5 } else if c == '6' { 6 } else if c == '7' { 7 }
    else if c == '8' { 8 } else if c == '9' { 9 } else { 10 }
}

pub open spec fn is_digit(c: char) -> bool {
    digit_val(c) < 10
}

pub open spec fn digit_char(d: nat) -> char {
    if d == 0 { '0' } else if d == 1 { '1' } else if d == 2 { '2' } else if d == 3 { '3' }
    else if d == 4 { '4' } else if d == 5 { '5' } else if d == 6 { '6' } else if d == 7 { '7' }
    else if d == 8 { '8' } else { '9' }
}

/// Decimal digits of `n`, most significant first.
pub open spec fn dec_digits(n: nat) -> Seq<char>
    decreases n,
{
    if n < 10 { seq![digit_char(n)] } else { dec_digits(n / 10).push(digit_char(n % 10)) }
}

pub open spec fn enc_u64(n: u64) -> Seq<char> {
    dec_digits(n as nat) + seq![';']
}

pub open spec fn enc_str(s: Seq<char>) -> Seq<char> {
    dec_digits(s.len()) + seq![':'] + s
}

pub open spec fn enc_i64(t: i64) -> Seq<char> {
    if t >= 0 { enc_u64(t as u64) } else { seq!['-'] + enc_u64((-(t as int)) as u64) }
}

pub open spec fn enc_event(e: EventInfoV) -> Seq<char> {
    enc_str(e.pallet) + enc_str(e.variant) + enc_str(e.data)
}

pub open spec fn enc_events(es: Seq<EventInfoV>) -> Seq<char>
    decreases es.len(),
{
    if es.len() == 0 { Seq::empty() } else { enc_event(es[0]) + enc_events(es.skip(1)) }
}

pub open spec fn enc_extrinsic(x: ExtrinsicInfoV) -> Seq<char> {
    enc_u64(x.index as u64) + enc_str(x.hash) + enc_str(x.action) + enc_str(x.params)
        + enc_u64(x.events.len() as u64) + enc_events(x.events)
}

pub open spec fn enc_extrinsics(xs: Seq<ExtrinsicInfoV>) -> Seq<char>
    decreases xs.len(),
{
    if xs.len() == 0 { Seq::empty() } else { enc_extrinsic(xs[0]) + enc_extrinsics(xs.skip(1)) }
}

pub open spec fn enc_block(b: StoredBlockV) -> Seq<char> {
    enc_u64(b.number as u64) + enc_str(b.hash) + enc_i64(b.timestamp)
        + enc_u64(b.extrinsics.len() as u64) + enc_extrinsics(b.extrinsics)
}

// Side conditions under which a record view can be decoded back from its
// encoding: every length must fit the decoder's `u64` length fields.  Any
// record held in real `String` and `Vec` values satisfies them.

pub open spec fn event_v_wf(e: EventInfoV) -> bool {
    e.pallet.len() <= u64::MAX && e.variant.len() <= u64::MAX && e.data.len() <= u64::MAX
}

pub open spec fn extrinsic_v_wf(x: ExtrinsicInfoV) -> bool {
    &&& x.hash.len() <= u64::MAX
    &&& x.action.len() <= u64::MAX
    &&& x.params.len() <= u64::MAX
    &&& x.events.len() <= u64::MAX
    &&& forall|i: int| 0 <= i < x.events.len() ==> event_v_wf(#[trigger] x.events[i])
}

pub open spec fn block_v_wf(b: StoredBlockV) -> bool {
    &&& b.hash.len() <= u64::MAX
    &&& b.extrinsics.len() <= u64::MAX
    &&& forall|i: int| 0 <= i < b.extrinsics.len() ==> extrinsic_v_wf(#[trigger] b.extrinsics[i])
}

// ----------------------------------------------------------------------------
// The parser, on sequences of characters.  Each parser returns the parsed
// value and the unconsumed rest, or `None`.
// ----------------------------------------------------------------------------

pub open spec fn parse_u64_loop(s: Seq<char>, acc: u64) -> Option<(u64, Seq<char>)>
    decreases s.len(),
{
    if s.len() > 0 && is_digit(s[0]) {
        let v: nat = acc as nat * 10 + digit_val(s[0]);
        if v > u64::MAX as nat { None } else { parse_u64_loop(s.skip(1), v as u64) }
    } else {
        Some((acc, s))
    }
}

/// A nonempty run of digits whose value fits in `u64`.
pub open spec fn parse_u64(s: Seq<char>) -> Option<(u64, Seq<char>)> {
    if s.len() > 0 && is_digit(s[0]) { parse_u64_loop(s, 0) } else { None }
}

/// A `u64` followed by its `';'` terminator.
pub open spec fn parse_u64_term(s: Seq<char>) -> Option<(u64, Seq<char>)> {
    match parse_u64(s) {
        Some((v, r)) => if r.len() > 0 && r[0] == ';' { Some((v, r.skip(1))) } else { None },
        None => None,
    }
}

/// A length-prefixed string.
pub open spec fn parse_str(s: Seq<char>) -> Option<(Seq<char>, Seq<char>)> {
    match parse_u64(s) {
        Some((l, r)) => if r.len() > 0 && r[0] == ':' {
            let r2 = r.skip(1);
            if r2.len() >= l { Some((r2.take(l as int), r2.skip(l as int))) } else { None }
        } else {
            None
        },
        None => None,
    }
}

/// A signed 64-bit value: an optional '-' sign, then a `u64` with its
/// terminator, within the range of `i64`.
pub open spec fn parse_i64(s: Seq<char>) -> Option<(i64, Seq<char>)> {
    if s.len() > 0 && s[0] == '-' {
        match parse_u64_term(s.skip(1)) {
            Some((v, r)) => if v as nat <= 0x8000000000000000 {
                Some(((-(v as int)) as i64, r))
            } else {
                None
            },
            None => None,
        }
    } else {
        match parse_u64_term(s) {
            Some((v, r)) => if v <= i64::MAX as u64 { Some((v as i64, r)) } else { None },
            None => None,
        }
    }
}

pub open spec fn parse_event(s: Seq<char>) -> Option<(EventInfoV, Seq<char>)> {
    match parse_str(s) {
        Some((pallet, r1)) => match parse_str(r1) {
            Some((variant, r2)) => match parse_str(r2) {
                Some((data, r3)) => Some((EventInfoV { pallet, variant, data }, r3)),
                None => None,
            },
            None => None,
        },
        None => None,
    }
}

pub open spec fn parse_events(s: Seq<char>, n: u64) -> Option<(Seq<EventInfoV>, Seq<char>)>
    decreases n,
{
    if n == 0 {
        Some((Seq::empty(), s))
    } else {
        match parse_event(s) {
            Some((e, r)) => match parse_events(r, (n - 1) as u64) {
                Some((es, r2)) => Some((seq![e] + es, r2)),
                None => None,
            },
            None => None,
        }
    }
}

pub open spec fn parse_extrinsic(s: Seq<char>) -> Option<(ExtrinsicInfoV, Seq<char>)> {
    match parse_u64_term(s) {
        Some((idx, r1)) => if idx <= u32::MAX as u64 {
            match parse_str(r1) {
                Some((hash, r2)) => match parse_str(r2) {
                    Some((action, r3)) => match parse_str(r3) {
                        Some((params, r4)) => match parse_u64_term(r4) {
                            Some((m, r5)) => match parse_events(r5, m) {
                                Some((events, r6)) => Some((
                                    ExtrinsicInfoV {
                                        index: idx as u32,
                                        hash,
                                        action,
                                        params,
                                        events,
                                    },
                                    r6,
                                )),
                                None => None,
                            },
                            None => None,
                        },
                        None => None,
                    },
                    None => None,
                },
                None => None,
            }
        } else {
            None
        },
        None => None,
    }
}

pub open spec fn parse_extrinsics(s: Seq<char>, n: u64) -> Option<(Seq<ExtrinsicInfoV>, Seq<char>)>
    decreases n,
{
    if n == 0 {
        Some((Seq::empty(), s))
    } else {
        match parse_extrinsic(s) {
            Some((x, r)) => match parse_extrinsics(r, (n - 1) as u64) {
                Some((xs, r2)) => Some((seq![x] + xs, r2)),
                None => None,
            },
            None => None,
        }
    }
}

pub open spec fn parse_block(s: Seq<char>) -> Option<(StoredBlockV, Seq<char>)> {
    match parse_u64_term(s) {
        Some((num, r1)) => if num <= u32::MAX as u64 {
            match parse_str(r1) {
                Some((hash, r2)) => match parse_i64(r2) {
                    Some((ts, r3)) => match parse_u64_term(r3) {
                        Some((k, r4)) => match parse_extrinsics(r4, k) {
                            Some((xs, r5)) => Some((
                                StoredBlockV {
                                    number: num as u32,
                                    hash,
                                    extrinsics: xs,
                                    timestamp: ts,
                                },
                                r5,
                            )),
                            None => None,
                        },
                        None => None,
                    },
                    None => None,
                },
                None => None,
            }
        } else {
            None
        },
        None => None,
    }
}

/// The meaning of a stored string: the block it decodes to, or `None` when
/// it is not exactly the encoding of one block.
pub open spec fn decode_block_spec(s: Seq<char>) -> Option<StoredBlockV> {
    match parse_block(s) {
        Some((b, r)) => if r.len() == 0 { Some(b) } else { None },
        None => None,
    }
}

// ----------------------------------------------------------------------------
// Round trip: decoding an encoding gives the record back.
// ----------------------------------------------------------------------------

pub open spec fn pow10(k: nat) -> nat
    decreases k,
{
    if k == 0 { 1 } else { 10 * pow10((k - 1) as nat) }
}

proof fn lemma_dec_digits_len(n: nat)
    ensures
        dec_digits(n).len() >= 1,
        is_digit(dec_digits(n)[0]),
        n < pow10(dec_digits(n).len()),
    decreases n,
{
    if n < 10 {
        assert(pow10(0) == 1);
        assert(pow10(1) == 10);
    } else {
        lemma_dec_digits_len(n / 10);
        assert(dec_digits(n) == dec_digits(n / 10).push(digit_char(n % 10)));
        assert(dec_digits(n)[0] == dec_digits(n / 10)[0]);
        let k = dec_digits(n / 10).len();
        assert(pow10(k + 1) == 10 * pow10(k));
        assert(n / 10 < pow10(k));
        assert(n < 10 * pow10(k)) by (nonlinear_arith)
            requires n / 10 < pow10(k) && n >= 10,
        ;
    }
}

proof fn lemma_parse_u64_loop(n: nat, rest: Seq<char>, acc: u64)
    requires
        acc as nat * pow10(dec_digits(n).len()) + n <= u64::MAX as nat,
    ensures
        parse_u64_loop(dec_digits(n) + rest, acc)
            == parse_u64_loop(rest, (acc as nat * pow10(dec_digits(n).len()) + n) as u64),
    decreases n,
{
    lemma_dec_digits_len(n);
    if n < 10 {
        let s = dec_digits(n) + rest;
        assert(s[0] == digit_char(n));
        assert(digit_val(digit_char(n)) == n);
        assert(pow10(0) == 1);
        assert(pow10(1) == 10);
        assert(s.skip(1) =~= rest);
        assert(acc as nat * 10 + n <= u64::MAX as nat);
        assert(parse_u64_loop(s, acc) == parse_u64_loop(rest, (acc as nat * 10 + n) as u64));
    } else {
        let k = dec_digits(n / 10).len();
        let d = digit_char(n % 10);
        assert(dec_digits(n) == dec_digits(n / 10).push(d));
        assert(dec_digits(n) + rest =~= dec_digits(n / 10) + (seq![d] + rest));
        lemma_dec_digits_len(n / 10);
        assert(pow10(k + 1) == 10 * pow10(k));
        assert((acc as nat * pow10(k) + n / 10) * 10 + n % 10 == acc as nat * pow10(k + 1) + n)
            by (nonlinear_arith)
            requires n >= 10 && pow10(k + 1) == 10 * pow10(k),
        ;
        let mid: nat = acc as nat * pow10(k) + n / 10;
        assert(mid * 10 <= mid * 10 + n % 10);
        assert(mid <= u64::MAX as nat) by (nonlinear_arith)
            requires mid * 10 + n % 10 <= u64::MAX as nat,
        ;
        lemma_parse_u64_loop(n / 10, seq![d] + rest, acc);
        let s2 = seq![d] + rest;
        assert(s2[0] == d);
        assert(digit_val(d) == n % 10);
        assert(is_digit(d));
        assert(s2.skip(1) =~= rest);
        assert(parse_u64_loop(s2, mid as u64)
            == parse_u64_loop(rest, (mid * 10 + n % 10) as u64));
    }
}

proof fn lemma_parse_u64_term(n: u64, rest: Seq<char>)
    ensures
        parse_u64_term(enc_u64(n) + rest) == Some((n, rest)),
{
    lemma_dec_digits_len(n as nat);
    let s = enc_u64(n) + rest;
    assert(s =~= dec_digits(n as nat) + (seq![';'] + rest));
    assert(s[0] == dec_digits(n as nat)[0]);
    assert(pow10(dec_digits(n as nat).len()) >= 1) by {
        lemma_pow10_pos(dec_digits(n as nat).len());
    }
    lemma_parse_u64_loop(n as nat, seq![';'] + rest, 0);
    let t = seq![';'] + rest;
    assert(!is_digit(';'));
    assert(parse_u64_loop(t, n) == Some((n, t)));
    assert(parse_u64(s) == Some((n, t)));
    assert(t[0] == ';');
    assert(t.skip(1) =~= rest);
}

proof fn lemma_pow10_pos(k: nat)
    ensures
        pow10(k) >= 1,
    decreases k,
{
    if k > 0 {
        lemma_pow10_pos((k - 1) as nat);
    }
}

proof fn lemma_parse_str(s: Seq<char>, rest: Seq<char>)
    requires
        s.len() <= u64::MAX,
    ensures
        parse_str(enc_str(s) + rest) == Some((s, rest)),
{
    let l = s.len() as u64;
    let t = enc_str(s) + rest;
    assert(t =~= dec_digits(s.len()) + (seq![':'] + (s + rest)));
    lemma_dec_digits_len(s.len());
    lemma_pow10_pos(dec_digits(s.len()).len());
    lemma_parse_u64_loop(s.len(), seq![':'] + (s + rest), 0);
    let u = seq![':'] + (s + rest);
    assert(!is_digit(':'));
    assert(parse_u64_loop(u, l) == Some((l, u)));
    assert(t[0] == dec_digits(s.len())[0]);
    assert(parse_u64(t) == Some((l, u)));
    assert(u[0] == ':');
    let r2 = u.skip(1);
    assert(r2 =~= s + rest);
    assert(r2.len() >= l);
    assert(r2.take(l as int) =~= s);
    assert(r2.skip(l as int) =~= rest);
}

proof fn lemma_parse_i64(t: i64, rest: Seq<char>)
    ensures
        parse_i64(enc_i64(t) + rest) == Some((t, rest)),
{
    if t >= 0 {
        let s = enc_i64(t) + rest;
        assert(s =~= enc_u64(t as u64) + rest);
        lemma_parse_u64_term(t as u64, rest);
        lemma_dec_digits_len(t as nat);
        assert(s[0] == dec_digits(t as nat)[0]);
        assert(is_digit(s[0]));
        assert(s[0] != '-');
    } else {
        let v: u64 = (-(t as int)) as u64;
        assert(v as nat <= 0x8000000000000000);
        let s = enc_i64(t) + rest;
        assert(s =~= seq!['-'] + (enc_u64(v) + rest));
        assert(s[0] == '-');
        assert(s.skip(1) =~= enc_u64(v) + rest);
        lemma_parse_u64_term(v, rest);
        assert((-(v as int)) as i64 == t);
    }
}

proof fn lemma_parse_event(e: EventInfoV, rest: Seq<char>)
    requires
        event_v_wf(e),
    ensures
        parse_event(enc_event(e) + rest) == Some((e, rest)),
{
    let s = enc_event(e) + rest;
    assert(s =~= enc_str(e.pallet) + (enc_str(e.variant) + (enc_str(e.data) + rest)));
    lemma_parse_str(e.pallet, enc_str(e.variant) + (enc_str(e.data) + rest));
    lemma_parse_str(e.variant, enc_str(e.data) + rest);
    lemma_parse_str(e.data, rest);
    let parsed = parse_event(s);
    assert(parsed matches Some(p) && p.0 =~= e && p.1 == rest);
}

proof fn lemma_parse_events(es: Seq<EventInfoV>, rest: Seq<char>)
    requires
        es.len() <= u64::MAX,
        forall|i: int| 0 <= i < es.len() ==> event_v_wf(#[trigger] es[i]),
    ensures
        parse_events(enc_events(es) + rest, es.len() as u64) == Some((es, rest)),
    decreases es.len(),
{
    if es.len() == 0 {
        assert(enc_events(es) + rest =~= rest);
        assert(parse_events(rest, 0) == Some((Seq::<EventInfoV>::empty(), rest)));
        assert(es =~= Seq::<EventInfoV>::empty());
    } else {
        let s = enc_events(es) + rest;
        assert(s =~= enc_event(es[0]) + (enc_events(es.skip(1)) + rest));
        lemma_parse_event(es[0], enc_events(es.skip(1)) + rest);
        lemma_parse_events(es.skip(1), rest);
        assert(parse_events(enc_events(es.skip(1)) + rest, (es.len() - 1) as u64)
            == Some((es.skip(1), rest)));
        assert(seq![es[0]] + es.skip(1) =~= es);
    }
}

proof fn lemma_parse_extrinsic(x: ExtrinsicInfoV, rest: Seq<char>)
    requires
        extrinsic_v_wf(x),
    ensures
        parse_extrinsic(enc_extrinsic(x) + rest) == Some((x, rest)),
{
    let s = enc_extrinsic(x) + rest;
    let t5 = enc_events(x.events) + rest;
    let t4 = enc_u64(x.events.len() as u64) + t5;
    let t3 = enc_str(x.params) + t4;
    let t2 = enc_str(x.action) + t3;
    let t1 = enc_str(x.hash) + t2;
    assert(s =~= enc_u64(x.index as u64) + t1);
    lemma_parse_u64_term(x.index as u64, t1);
    lemma_parse_str(x.hash, t2);
    lemma_parse_str(x.action, t3);
    lemma_parse_str(x.params, t4);
    lemma_parse_u64_term(x.events.len() as u64, t5);
    lemma_parse_events(x.events, rest);
    let parsed = parse_extrinsic(s);
    assert(parsed matches Some(p) && p.0 =~= x && p.1 == rest);
}

proof fn lemma_parse_extrinsics(xs: Seq<ExtrinsicInfoV>, rest: Seq<char>)
    requires
        xs.len() <= u64::MAX,
        forall|i: int| 0 <= i < xs.len() ==> extrinsic_v_wf(#[trigger] xs[i]),
    ensures
        parse_extrinsics(enc_extrinsics(xs) + rest, xs.len() as u64) == Some((xs, rest)),
    decreases xs.len(),
{
    if xs.len() == 0 {
        assert(enc_extrinsics(xs) + rest =~= rest);
        assert(xs =~= Seq::<ExtrinsicInfoV>::empty());
    } else {
        let s = enc_extrinsics(xs) + rest;
        assert(s =~= enc_extrinsic(xs[0]) + (enc_extrinsics(xs.skip(1)) + rest));
        lemma_parse_extrinsic(xs[0], enc_extrinsics(xs.skip(1)) + rest);
        lemma_parse_extrinsics(xs.skip(1), rest);
        assert(seq![xs[0]] + xs.skip(1) =~= xs);
    }
}

/// Round trip: the decoder maps the encoding of any well-formed record back
/// to that record.
pub proof fn lemma_decode_encode(b: StoredBlockV)
    requires
        block_v_wf(b),
    ensures
        decode_block_spec(enc_block(b)) == Some(b),
{
    let empty = Seq::<char>::empty();
    let s = enc_block(b);
    let t4 = enc_extrinsics(b.extrinsics) + empty;
    let t3 = enc_u64(b.extrinsics.len() as u64) + t4;
    let t2 = enc_i64(b.timestamp) + t3;
    let t1 = enc_str(b.hash) + t2;
    assert(s =~= enc_u64(b.number as u64) + t1);
    lemma_parse_u64_term(b.number as u64, t1);
    lemma_parse_str(b.hash, t2);
    lemma_parse_i64(b.timestamp, t3);
    lemma_parse_u64_term(b.extrinsics.len() as u64, t4);
    lemma_parse_extrinsics(b.extrinsics, empty);
    let parsed = parse_block(s);
    assert(parsed matches Some(p) && p.0 =~= b && p.1 == empty);
}

// ----------------------------------------------------------------------------
// The executable encoder.
// ----------------------------------------------------------------------------

fn digit_str(d: u64) -> (r: &'static str)
    requires
        d < 10,
    ensures
        r@ == seq![digit_char(d as nat)],
{
    proof {
        reveal_strlit("0");
        reveal_strlit("1");
        reveal_strlit("2");
        reveal_strlit("3");
        reveal_strlit("4");
        reveal_strlit("5");
        reveal_strlit("6");
        reveal_strlit("7");
        reveal_strlit("8");
        reveal_strlit("9");
    }
    let r = if d == 0 { "0" } else if d == 1 { "1" } else if d == 2 { "2" } else if d == 3 { "3" }
    else if d == 4 { "4" } else if d == 5 { "5" } else if d == 6 { "6" } else if d == 7 { "7" }
    else if d == 8 { "8" } else { "9" };
    proof {
        assert(r@ =~= seq![digit_char(d as nat)]);
    }
    r
}

fn push_digits(out: &mut String, n: u64)
    ensures
        final(out)@ == old(out)@ + dec_digits(n as nat),
    decreases n,
{
    if n < 10 {
        out.append(digit_str(n));
        proof {
            assert(final(out)@ =~= old(out)@ + dec_digits(n as nat));
        }
    } else {
        push_digits(out, n / 10);
        out.append(digit_str(n % 10));
        proof {
            assert(dec_digits(n as nat) == dec_digits(n as nat / 10).push(digit_char(n as nat % 10)));
            assert(n as nat / 10 == (n / 10) as nat);
            assert(n as nat % 10 == (n % 10) as nat);
            assert(final(out)@ =~= old(out)@ + dec_digits(n as nat));
        }
    }
}

fn push_u64(out: &mut String, n: u64)
    ensures
        final(out)@ == old(out)@ + enc_u64(n),
{
    proof {
        reveal_strlit(";");
    }
    push_digits(out, n);
    out.append(";");
    proof {
        assert(final(out)@ =~= old(out)@ + enc_u64(n));
    }
}

fn push_str_enc(out: &mut String, s: &str)
    ensures
        final(out)@ == old(out)@ + enc_str(s@),
        s@.len() <= u64::MAX,
{
    proof {
        reveal_strlit(":");
    }
    let l = s.unicode_len();
    push_digits(out, l as u64);
    out.append(":");
    out.append(s);
    proof {
        assert(final(out)@ =~= old(out)@ + enc_str(s@));
    }
}

fn push_i64(out: &mut String, t: i64)
    ensures
        final(out)@ == old(out)@ + enc_i64(t),
{
    proof {
        reveal_strlit("-");
    }
    if t >= 0 {
        push_u64(out, t as u64);
    } else {
        out.append("-");
        let mag: u64 = if t == i64::MIN { 9223372036854775808u64 } else { (-t) as u64 };
        proof {
            assert(mag == (-(t as int)) as u64);
        }
        push_u64(out, mag);
        proof {
            assert(final(out)@ =~= old(out)@ + enc_i64(t));
        }
    }
}

fn push_event(out: &mut String, e: &EventInfo)
    ensures
        final(out)@ == old(out)@ + enc_event(e@),
        event_v_wf(e@),
{
    push_str_enc(out, e.pallet.as_str());
    push_str_enc(out, e.variant.as_str());
    push_str_enc(out, e.data.as_str());
    proof {
        assert(final(out)@ =~= old(out)@ + enc_event(e@));
    }
}

proof fn lemma_enc_events_push(es: Seq<EventInfoV>, e: EventInfoV)
    ensures
        enc_events(es.push(e)) == enc_events(es) + enc_event(e),
    decreases es.len(),
{
    if es.len() == 0 {
        assert(es.push(e)[0] == e);
        assert(es.push(e).skip(1) =~= Seq::<EventInfoV>::empty());
        assert(enc_events(Seq::<EventInfoV>::empty()) == Seq::<char>::empty());
        assert(enc_events(es.push(e)) =~= enc_event(e));
        assert(enc_events(es) + enc_event(e) =~= enc_event(e));
    } else {
        assert(es.push(e)[0] == es[0]);
        assert(es.push(e).skip(1) =~= es.skip(1).push(e));
        lemma_enc_events_push(es.skip(1), e);
        assert(enc_events(es.push(e)) =~= enc_events(es) + enc_event(e));
    }
}

proof fn lemma_enc_extrinsics_push(xs: Seq<ExtrinsicInfoV>, x: ExtrinsicInfoV)
    ensures
        enc_extrinsics(xs.push(x)) == enc_extrinsics(xs) + enc_extrinsic(x),
    decreases xs.len(),
{
    if xs.len() == 0 {
        assert(xs.push(x)[0] == x);
        assert(xs.push(x).skip(1) =~= Seq::<ExtrinsicInfoV>::empty());
        assert(enc_extrinsics(Seq::<ExtrinsicInfoV>::empty()) == Seq::<char>::empty());
        assert(enc_extrinsics(xs.push(x)) =~= enc_extrinsic(x));
        assert(enc_extrinsics(xs) + enc_extrinsic(x) =~= enc_extrinsic(x));
    } else {
        assert(xs.push(x)[0] == xs[0]);
        assert(xs.push(x).skip(1) =~= xs.skip(1).push(x));
        lemma_enc_extrinsics_push(xs.skip(1), x);
        assert(enc_extrinsics(xs.push(x)) =~= enc_extrinsics(xs) + enc_extrinsic(x));
    }
}

fn push_extrinsic(out: &mut String, x: &ExtrinsicInfo)
    ensures
        final(out)@ == old(out)@ + enc_extrinsic(x@),
        extrinsic_v_wf(x@),
{
    push_u64(out, x.index as u64);
    push_str_enc(out, x.hash.as_str());
    push_str_enc(out, x.action.as_str());
    push_str_enc(out, x.params.as_str());
    let m = x.events.len();
    push_u64(out, m as u64);
    let ghost mid = out@;
    let mut i: usize = 0;
    while i < m
        invariant
            m == x.events.len(),
            0 <= i <= m,
            out@ == mid + enc_events(x@.events.take(i as int)),
            forall|j: int| 0 <= j < i ==> event_v_wf(#[trigger] x@.events[j]),
        decreases m - i,
    {
        push_event(out, &x.events[i]);
        proof {
            assert(x@.events[i as int] == x.events[i as int]@);
            assert(x@.events.take(i + 1) =~= x@.events.take(i as int).push(x@.events[i as int]));
            lemma_enc_events_push(x@.events.take(i as int), x@.events[i as int]);
            assert(out@ =~= mid + enc_events(x@.events.take(i + 1)));
        }
        i = i + 1;
    }
    proof {
        assert(x@.events.take(m as int) =~= x@.events);
        assert(x@.events.len() == x.events@.len());
        assert(final(out)@ =~= old(out)@ + enc_extrinsic(x@));
    }
}

/// Serialize a block record into the durable format; the result is exactly
/// `enc_block` of the record, and the record is decodable back from it.
pub fn encode_block(b: &StoredBlock) -> (r: String)
    ensures
        r@ == enc_block(b@),
        block_v_wf(b@),
        decode_block_spec(r@) == Some(b@),
{
    let mut out = String::new();
    push_u64(&mut out, b.number as u64);
    push_str_enc(&mut out, b.hash.as_str());
    push_i64(&mut out, b.timestamp);
    let k = b.extrinsics.len();
    push_u64(&mut out, k as u64);
    let ghost mid = out@;
    let mut i: usize = 0;
    while i < k
        invariant
            k == b.extrinsics.len(),
            0 <= i <= k,
            out@ == mid + enc_extrinsics(b@.extrinsics.take(i as int)),
            forall|j: int| 0 <= j < i ==> extrinsic_v_wf(#[trigger] b@.extrinsics[j]),
        decreases k - i,
    {
        push_extrinsic(&mut out, &b.extrinsics[i]);
        proof {
            assert(b@.extrinsics[i as int] == b.extrinsics[i as int]@);
            assert(b@.extrinsics.take(i + 1) =~= b@.extrinsics.take(i as int).push(b@.extrinsics[i as int]));
            lemma_enc_extrinsics_push(b@.extrinsics.take(i as int), b@.extrinsics[i as int]);
            assert(out@ =~= mid + enc_extrinsics(b@.extrinsics.take(i + 1)));
        }
        i = i + 1;
    }
    proof {
        assert(b@.extrinsics.take(k as int) =~= b@.extrinsics);
        assert(b@.extrinsics.len() == b.extrinsics@.len());
        assert(out@ =~= enc_block(b@));
        lemma_decode_encode(b@);
    }
    out
}

// ----------------------------------------------------------------------------
// The executable decoder.  Each step works on a character position in the
// input and agrees exactly with the parser above on the corresponding
// suffix.
// ----------------------------------------------------------------------------

fn digit_of(c: char) -> (d: u8)
    ensures
        d as nat == digit_val(c),
{
    if c == '0' { 0 } else if c == '1' { 1 } else if c == '2' { 2 } else if c == '3' { 3 }
    else if c == '4' { 4 } else if c == '5' { 5 } else if c == '6' { 6 } else if c == '7' { 7 }
    else if c == '8' { 8 } else if c == '9' { 9 } else { 10 }
}

fn p_u64(s: &str, n: usize, pos: usize) -> (r: Option<(u64, usize)>)
    requires
        n == s@.len(),
        pos <= n,
    ensures
        r is None ==> parse_u64(s@.skip(pos as int)) is None,
        r matches Some(p) ==> pos <= p.1 <= n && parse_u64(s@.skip(pos as int)) == Some(
            (p.0, s@.skip(p.1 as int)),
        ),
{
    if pos >= n {
        return None;
    }
    let d0 = digit_of(s.get_char(pos));
    if d0 >= 10 {
        proof {
            assert(s@.skip(pos as int)[0] == s@[pos as int]);
        }
        return None;
    }
    let mut i: usize = pos;
    let mut acc: u64 = 0;
    loop
        invariant
            n == s@.len(),
            pos <= i <= n,
            pos < n,
            is_digit(s@[pos as int]),
            parse_u64_loop(s@.skip(pos as int), 0) == parse_u64_loop(s@.skip(i as int), acc),
        decreases n - i,
    {
        if i >= n {
            proof {
                assert(s@.skip(i as int).len() == 0);
                assert(parse_u64_loop(s@.skip(i as int), acc) == Some((acc, s@.skip(i as int))));
                assert(s@.skip(pos as int)[0] == s@[pos as int]);
            }
            return Some((acc, i));
        }
        let c = s.get_char(i);
        let d = digit_of(c);
        proof {
            assert(s@.skip(i as int)[0] == s@[i as int]);
        }
        if d >= 10 {
            proof {
                assert(parse_u64_loop(s@.skip(i as int), acc) == Some((acc, s@.skip(i as int))));
                assert(s@.skip(pos as int)[0] == s@[pos as int]);
            }
            return Some((acc, i));
        }
        if acc > 1844674407370955161 || (acc == 1844674407370955161 && d > 5) {
            proof {
                assert(acc as nat * 10 + digit_val(s@[i as int]) > u64::MAX as nat);
                assert(parse_u64_loop(s@.skip(i as int), acc) is None);
                assert(s@.skip(pos as int)[0] == s@[pos as int]);
            }
            return None;
        }
        proof {
            assert(acc as nat * 10 + digit_val(s@[i as int]) <= u64::MAX as nat);
            assert(s@.skip(i as int).skip(1) =~= s@.skip(i + 1));
        }
        acc = acc * 10 + d as u64;
        i = i + 1;
    }
}

fn p_u64_term(s: &str, n: usize, pos: usize) -> (r: Option<(u64, usize)>)
    requires
        n == s@.len(),
        pos <= n,
    ensures
        r is None ==> parse_u64_term(s@.skip(pos as int)) is None,
        r matches Some(p) ==> pos <= p.1 <= n && parse_u64_term(s@.skip(pos as int)) == Some(
            (p.0, s@.skip(p.1 as int)),
        ),
{
    match p_u64(s, n, pos) {
        None => None,
        Some((v, p2)) => {
            if p2 < n && s.get_char(p2) == ';' {
                proof {
                    assert(s@.skip(p2 as int)[0] == s@[p2 as int]);
                    assert(s@.skip(p2 as int).skip(1) =~= s@.skip(p2 + 1));
                }
                Some((v, p2 + 1))
            } else {
                proof {
                    if p2 < n {
                        assert(s@.skip(p2 as int)[0] == s@[p2 as int]);
                    }
                }
                None
            }
        },
    }
}

fn p_str(s: &str, n: usize, pos: usize) -> (r: Option<(String, usize)>)
    requires
        n == s@.len(),
        pos <= n,
    ensures
        r is None ==> parse_str(s@.skip(pos as int)) is None,
        r matches Some(p) ==> pos <= p.1 <= n && parse_str(s@.skip(pos as int)) == Some(
            (p.0@, s@.skip(p.1 as int)),
        ),
{
    match p_u64(s, n, pos) {
        None => None,
        Some((l, p2)) => {
            if p2 < n && s.get_char(p2) == ':' {
                proof {
                    assert(s@.skip(p2 as int)[0] == s@[p2 as int]);
                    assert(s@.skip(p2 as int).skip(1) =~= s@.skip(p2 + 1));
                }
                let p3 = p2 + 1;
                let rem = n - p3;
                if l > rem as u64 {
                    proof {
                        assert(s@.skip(p3 as int).len() < l);
                    }
                    None
                } else {
                    let lu = l as usize;
                    let sub = s.substring_char(p3, p3 + lu);
                    let owned = sub.to_owned();
                    proof {
                        assert(s@.skip(p3 as int).take(l as int) =~= s@.subrange(
                            p3 as int,
                            p3 + l,
                        ));
                        assert(s@.skip(p3 as int).skip(l as int) =~= s@.skip(p3 + l));
                    }
                    Some((owned, p3 + lu))
                }
            } else {
                proof {
                    if p2 < n {
                        assert(s@.skip(p2 as int)[0] == s@[p2 as int]);
                    }
                }
                None
            }
        },
    }
}

fn p_i64(s: &str, n: usize, pos: usize) -> (r: Option<(i64, usize)>)
    requires
        n == s@.len(),
        pos <= n,
    ensures
        r is None ==> parse_i64(s@.skip(pos as int)) is None,
        r matches Some(p) ==> pos <= p.1 <= n && parse_i64(s@.skip(pos as int)) == Some(
            (p.0, s@.skip(p.1 as int)),
        ),
{
    if pos < n && s.get_char(pos) == '-' {
        proof {
            assert(s@.skip(pos as int)[0] == s@[pos as int]);
            assert(s@.skip(pos as int).skip(1) =~= s@.skip(pos + 1));
        }
        match p_u64_term(s, n, pos + 1) {
            None => None,
            Some((v, p2)) => {
                if v <= 9223372036854775808 {
                    let t: i64 = if v == 9223372036854775808 {
                        i64::MIN
                    } else {
                        -(v as i64)
                    };
                    proof {
                        assert(t as int == -(v as int));
                    }
                    Some((t, p2))
                } else {
                    None
                }
            },
        }
    } else {
        proof {
            if pos < n {
                assert(s@.skip(pos as int)[0] == s@[pos as int]);
            }
        }
        match p_u64_term(s, n, pos) {
            None => None,
            Some((v, p2)) => {
                if v <= 9223372036854775807 {
                    Some((v as i64, p2))
                } else {
                    None
                }
            },
        }
    }
}

fn p_event(s: &str, n: usize, pos: usize) -> (r: Option<(EventInfo, usize)>)
    requires
        n == s@.len(),
        pos <= n,
    ensures
        r is None ==> parse_event(s@.skip(pos as int)) is None,
        r matches Some(p) ==> pos <= p.1 <= n && parse_event(s@.skip(pos as int)) == Some(
            (p.0@, s@.skip(p.1 as int)),
        ),
{
    let (pallet, p1) = match p_str(s, n, pos) {
        Some(x) => x,
        None => {
            return None;
        },
    };
    let (variant, p2) = match p_str(s, n, p1) {
        Some(x) => x,
        None => {
            return None;
        },
    };
    let (data, p3) = match p_str(s, n, p2) {
        Some(x) => x,
        None => {
            return None;
        },
    };
    let e = EventInfo { pallet, variant, data };
    proof {
        assert(parse_event(s@.skip(pos as int)) matches Some(q) && q.0 =~= e@ && q.1 == s@.skip(
            p3 as int,
        ));
    }
    Some((e, p3))
}

/// `parse_events(s0, m)` seen through a loop that has already produced
/// `done` and stands at `scur` with `rem` records to go.
spec fn events_cont(
    s0: Seq<char>,
    m: u64,
    done: Seq<EventInfoV>,
    scur: Seq<char>,
    rem: u64,
) -> bool {
    parse_events(s0, m) == (match parse_events(scur, rem) {
        Some((es, r)) => Some((done + es, r)),
        None => None,
    })
}

fn p_events(s: &str, n: usize, pos: usize, m: u64) -> (r: Option<(Vec<EventInfo>, usize)>)
    requires
        n == s@.len(),
        pos <= n,
    ensures
        r is None ==> parse_events(s@.skip(pos as int), m) is None,
        r matches Some(p) ==> pos <= p.1 <= n && parse_events(s@.skip(pos as int), m) == Some(
            (p.0@.map_values(|e: EventInfo| e@), s@.skip(p.1 as int)),
        ),
{
    let mut out: Vec<EventInfo> = Vec::new();
    let mut cur: usize = pos;
    let mut k: u64 = 0;
    while k < m
        invariant
            n == s@.len(),
            pos <= cur <= n,
            0 <= k <= m,
            events_cont(
                s@.skip(pos as int),
                m,
                out@.map_values(|e: EventInfo| e@),
                s@.skip(cur as int),
                (m - k) as u64,
            ),
        decreases m - k,
    {
        let (e, p2) = match p_event(s, n, cur) {
            Some(x) => x,
            None => {
                proof {
                    assert(parse_events(s@.skip(cur as int), (m - k) as u64) is None);
                }
                return None;
            },
        };
        proof {
            let done = out@.map_values(|ev: EventInfo| ev@);
            let done2 = out@.push(e).map_values(|ev: EventInfo| ev@);
            assert(done2 =~= done.push(e@));
            assert(parse_events(s@.skip(cur as int), (m - k) as u64) == (
            match parse_events(s@.skip(p2 as int), (m - k - 1) as u64) {
                Some((es, r)) => Some((seq![e@] + es, r)),
                None => None,
            }));
            match parse_events(s@.skip(p2 as int), (m - k - 1) as u64) {
                Some((es, r)) => {
                    assert(done + (seq![e@] + es) =~= done2 + es);
                },
                None => {},
            }
        }
        out.push(e);
        cur = p2;
        k = k + 1;
    }
    proof {
        assert(parse_events(s@.skip(cur as int), 0) == Some(
            (Seq::<EventInfoV>::empty(), s@.skip(cur as int)),
        ));
        let done = out@.map_values(|ev: EventInfo| ev@);
        assert(done + Seq::<EventInfoV>::empty() =~= done);
    }
    Some((out, cur))
}

fn p_extrinsic(s: &str, n: usize, pos: usize) -> (r: Option<(ExtrinsicInfo, usize)>)
    requires
        n == s@.len(),
        pos <= n,
    ensures
        r is None ==> parse_extrinsic(s@.skip(pos as int)) is None,
        r matches Some(p) ==> pos <= p.1 <= n && parse_extrinsic(s@.skip(pos as int)) == Some(
            (p.0@, s@.skip(p.1 as int)),
        ),
{
    let (idx, p1) = match p_u64_term(s, n, pos) {
        Some(x) => x,
        None => {
            return None;
        },
    };
    if idx > 0xffffffff {
        return None;
    }
    let (hash, p2) = match p_str(s, n, p1) {
        Some(x) => x,
        None => {
            return None;
        },
    };
    let (action, p3) = match p_str(s, n, p2) {
        Some(x) => x,
        None => {
            return None;
        },
    };
    let (params, p4) = match p_str(s, n, p3) {
        Some(x) => x,
        None => {
            return None;
        },
    };
    let (m, p5) = match p_u64_term(s, n, p4) {
        Some(x) => x,
        None => {
            return None;
        },
    };
    let (events, p6) = match p_events(s, n, p5, m) {
        Some(x) => x,
        None => {
            return None;
        },
    };
    let x = ExtrinsicInfo { index: idx as u32, hash, action, params, events };
    proof {
        assert(parse_extrinsic(s@.skip(pos as int)) matches Some(q) && q.0 =~= x@ && q.1
            == s@.skip(p6 as int));
    }
    Some((x, p6))
}

/// `parse_extrinsics(s0, m)` seen through a loop that has already produced
/// `done` and stands at `scur` with `rem` records to go.
spec fn extrinsics_cont(
    s0: Seq<char>,
    m: u64,
    done: Seq<ExtrinsicInfoV>,
    scur: Seq<char>,
    rem: u64,
) -> bool {
    parse_extrinsics(s0, m) == (match parse_extrinsics(scur, rem) {
        Some((xs, r)) => Some((done + xs, r)),
        None => None,
    })
}

fn p_extrinsics(s: &str, n: usize, pos: usize, m: u64) -> (r: Option<(Vec<ExtrinsicInfo>, usize)>)
    requires
        n == s@.len(),
        pos <= n,
    ensures
        r is None ==> parse_extrinsics(s@.skip(pos as int), m) is None,
        r matches Some(p) ==> pos <= p.1 <= n && parse_extrinsics(s@.skip(pos as int), m) == Some(
            (p.0@.map_values(|x: ExtrinsicInfo| x@), s@.skip(p.1 as int)),
        ),
{
    let mut out: Vec<ExtrinsicInfo> = Vec::new();
    let mut cur: usize = pos;
    let mut k: u64 = 0;
    while k < m
        invariant
            n == s@.len(),
            pos <= cur <= n,
            0 <= k <= m,
            extrinsics_cont(
                s@.skip(pos as int),
                m,
                out@.map_values(|x: ExtrinsicInfo| x@),
                s@.skip(cur as int),
                (m - k) as u64,
            ),
        decreases m - k,
    {
        let (x, p2) = match p_extrinsic(s, n, cur) {
            Some(y) => y,
            None => {
                proof {
                    assert(parse_extrinsics(s@.skip(cur as int), (m - k) as u64) is None);
                }
                return None;
            },
        };
        proof {
            let done = out@.map_values(|xv: ExtrinsicInfo| xv@);
            let done2 = out@.push(x).map_values(|xv: ExtrinsicInfo| xv@);
            assert(done2 =~= done.push(x@));
            assert(parse_extrinsics(s@.skip(cur as int), (m - k) as u64) == (
            match parse_extrinsics(s@.skip(p2 as int), (m - k - 1) as u64) {
                Some((xs, r)) => Some((seq![x@] + xs, r)),
                None => None,
            }));
            match parse_extrinsics(s@.skip(p2 as int), (m - k - 1) as u64) {
                Some((xs, r)) => {
                    assert(done + (seq![x@] + xs) =~= done2 + xs);
                },
                None => {},
            }
        }
        out.push(x);
        cur = p2;
        k = k + 1;
    }
    proof {
        assert(parse_extrinsics(s@.skip(cur as int), 0) == Some(
            (Seq::<ExtrinsicInfoV>::empty(), s@.skip(cur as int)),
        ));
        let done = out@.map_values(|xv: ExtrinsicInfo| xv@);
        assert(done + Seq::<ExtrinsicInfoV>::empty() =~= done);
    }
    Some((out, cur))
}

/// Deserialize a stored string.  Returns exactly the record the string is
/// the encoding of, and `None` on any string that is not such an encoding.
pub fn decode_block(s: &str) -> (r: Option<StoredBlock>)
    ensures
        r is None ==> decode_block_spec(s@) is None,
        r matches Some(b) ==> decode_block_spec(s@) == Some(b@),
{
    let n = s.unicode_len();
    proof {
        assert(s@.skip(0) =~= s@);
    }
    let (num, p1) = match p_u64_term(s, n, 0) {
        Some(x) => x,
        None => {
            return None;
        },
    };
    if num > 0xffffffff {
        return None;
    }
    let (hash, p2) = match p_str(s, n, p1) {
        Some(x) => x,
        None => {
            return None;
        },
    };
    let (ts, p3) = match p_i64(s, n, p2) {
        Some(x) => x,
        None => {
            return None;
        },
    };
    let (k, p4) = match p_u64_term(s, n, p3) {
        Some(x) => x,
        None => {
            return None;
        },
    };
    let (extrinsics, p5) = match p_extrinsics(s, n, p4, k) {
        Some(x) => x,
        None => {
            return None;
        },
    };
    if p5 < n {
        proof {
            assert(s@.skip(p5 as int).len() > 0);
        }
        return None;
    }
    let b = StoredBlock { number: num as u32, hash, extrinsics, timestamp: ts };
    proof {
        assert(s@.skip(p5 as int).len() == 0);
        assert(parse_block(s@) matches Some(q) && q.0 =~= b@ && q.1 == s@.skip(p5 as int));
    }
    Some(b)
}

} // verus!
