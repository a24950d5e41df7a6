use vstd::prelude::*;

use crate::labels::LabelSet;
use crate::labels::keys_unique;
use crate::labels::lemma_collapse_of_unique;
use crate::labels::unique_keys;
use crate::pb::CounterAction;
use crate::pb::CounterOp;
use crate::pb::GaugeAction;
use crate::pb::GaugeOp;
use crate::pb::HistogramAction;
use crate::pb::HistogramOp;
use crate::pb::OperationPayload;
use crate::pb::OperationView;
use crate::pb::PrometheusOperation;
use crate::pb::PrometheusOperations;
use crate::pb::SummaryAction;
use crate::pb::SummaryOp;
use crate::value::Value;
use crate::wire::KEY1_LEN;
use crate::wire::KEY2_LEN;
use crate::wire::KEY_ACTION;
use crate::wire::KEY_COUNTER;
use crate::wire::KEY_GAUGE;
use crate::wire::KEY_HISTOGRAM;
use crate::wire::KEY_SUMMARY;
use crate::wire::KEY_VALUE;
use crate::wire::lemma_encode_labels_push;
use crate::wire::lemma_encode_operations_push;
use crate::wire::spec_encode_label_msg;
use crate::wire::spec_encode_len_field;
use crate::wire::spec_encode_labels;
use crate::wire::spec_encode_operation;
use crate::wire::spec_encode_operations;
use crate::wire::spec_encode_payload_msg;
use crate::wire::spec_le8;
use crate::wire::spec_payload_bits;
use crate::wire::spec_payload_code;
use crate::wire::spec_payload_key;
use crate::wire::WireOperation;
use crate::wire::lemma_to_wire_injective;
use crate::wire::spec_is_payload_key;
use crate::wire::spec_label_fits;
use crate::wire::spec_le8_val;
use crate::wire::spec_parse_label_msg;
use crate::wire::spec_parse_labels;
use crate::wire::spec_parse_len_body;
use crate::wire::spec_parse_operation;
use crate::wire::spec_parse_operations;
use crate::wire::spec_parse_payload_msg;
use crate::wire::spec_parse_varint;
use crate::wire::spec_operation_fits;
use crate::wire::spec_operations_fit;
use crate::wire::spec_payload_of;
use crate::wire::spec_varint;
use crate::wire::spec_wire_of_views;
use vstd::arithmetic::div_mod::lemma_fundamental_div_mod;
use vstd::arithmetic::div_mod::lemma_remainder;
use vstd::utf8::decode_utf8;
use vstd::utf8::encode_utf8;
use vstd::utf8::valid_utf8;

verus! {

broadcast use
    {vstd::utf8::encode_utf8_valid_utf8,
    vstd::utf8::encode_utf8_decode_utf8,
    vstd::utf8::decode_utf8_encode_utf8};

/// Append the base-128 encoding of `n` to `buf`.
fn encode_varint_into(buf: &mut Vec<u8>, n: u64)
    ensures
        final(buf)@ == old(buf)@ + spec_varint(n as nat),
    decreases n,
{
    if n < 128 {
        buf.push(n as u8);
        proof {
            assert(buf@ =~= old(buf)@ + spec_varint(n as nat));
        }
    } else {
        buf.push((n % 128 + 128) as u8);
        encode_varint_into(buf, n / 128);
        proof {
            assert(buf@ =~= old(buf)@ + spec_varint(n as nat));
        }
    }
}

/// Append the eight little-endian bytes of `bits` to `buf`.
fn encode_le8_into(buf: &mut Vec<u8>, bits: u64)
    ensures
        final(buf)@ == old(buf)@ + spec_le8(bits),
{
    buf.push((bits & 0xff) as u8);
    buf.push(((bits >> 8) & 0xff) as u8);
    buf.push(((bits >> 16) & 0xff) as u8);
    buf.push(((bits >> 24) & 0xff) as u8);
    buf.push(((bits >> 32) & 0xff) as u8);
    buf.push(((bits >> 40) & 0xff) as u8);
    buf.push(((bits >> 48) & 0xff) as u8);
    buf.push(((bits >> 56) & 0xff) as u8);
    proof {
        assert(buf@ =~= old(buf)@ + spec_le8(bits));
    }
}

/// Append a length-delimited field to `buf`: key, body length, body.
fn encode_len_field_into(buf: &mut Vec<u8>, key: u8, body: &[u8])
    ensures
        final(buf)@ == old(buf)@ + spec_encode_len_field(key, body@),
        body@.len() <= usize::MAX,
{
    buf.push(key);
    let n = body.len();
    encode_varint_into(buf, n as u64);
    buf.extend_from_slice(body);
    proof {
        assert(buf@ =~= old(buf)@ + spec_encode_len_field(key, body@));
    }
}

/// The kind key, action code and value bits a payload carries.
fn payload_parts(p: &OperationPayload) -> (r: (u8, u64, u64))
    ensures
        r.0 == spec_payload_key(*p),
        r.1 == spec_payload_code(*p),
        r.2 == spec_payload_bits(*p),
{
    match p {
        OperationPayload::Counter(op) => {
            let code: u64 = match op.action {
                CounterAction::Inc => 1,
                CounterAction::Add => 2,
                CounterAction::Reset => 3,
                CounterAction::Remove => 4,
            };
            (KEY_COUNTER, code, op.value.bits)
        },
        OperationPayload::Gauge(op) => {
            let code: u64 = match op.action {
                GaugeAction::SetValue => 1,
                GaugeAction::Inc => 2,
                GaugeAction::Dec => 3,
                GaugeAction::Add => 4,
                GaugeAction::Sub => 5,
                GaugeAction::SetToCurrentTime => 6,
                GaugeAction::Reset => 7,
                GaugeAction::Remove => 8,
            };
            (KEY_GAUGE, code, op.value.bits)
        },
        OperationPayload::Histogram(op) => {
            let code: u64 = match op.action {
                HistogramAction::Observe => 1,
                HistogramAction::StartTimer => 2,
                HistogramAction::Zero => 3,
                HistogramAction::Reset => 4,
                HistogramAction::Remove => 5,
            };
            (KEY_HISTOGRAM, code, op.value.bits)
        },
        OperationPayload::Summary(op) => {
            let code: u64 = match op.action {
                SummaryAction::Observe => 1,
                SummaryAction::StartTimer => 2,
                SummaryAction::Reset => 3,
                SummaryAction::Remove => 4,
            };
            (KEY_SUMMARY, code, op.value.bits)
        },
    }
}

/// The varint at `buf[pos..end]`, with the count of bytes it occupies.
fn parse_varint(buf: &Vec<u8>, pos: usize, end: usize) -> (r: Option<(u64, usize)>)
    requires
        pos <= end <= buf@.len(),
    ensures
        match r {
            Some((n, len)) => spec_parse_varint(buf@.subrange(pos as int, end as int)) == Some(
                (n, len as int),
            ) && 1 <= len && pos + len <= end,
            None => spec_parse_varint(buf@.subrange(pos as int, end as int)) is None,
        },
    decreases end - pos,
{
    let ghost s = buf@.subrange(pos as int, end as int);
    if pos >= end {
        return None;
    }
    let b = buf[pos];
    proof {
        assert(s[0] == b);
    }
    if b < 128 {
        return Some((b as u64, 1));
    }
    proof {
        assert(s.drop_first() =~= buf@.subrange(pos + 1, end as int));
    }
    match parse_varint(buf, pos + 1, end) {
        None => None,
        Some((n, len)) => {
            let c = (b - 128) as u64;
            let limit = (u64::MAX - c) / 128;
            proof {
                lemma_fundamental_div_mod((u64::MAX - c) as int, 128);
                lemma_remainder((u64::MAX - c) as int, 128);
            }
            if n <= limit {
                proof {
                    assert(128 * (n as int) <= 128 * (limit as int)) by (nonlinear_arith)
                        requires
                            n <= limit,
                    ;
                    assert(c + 128 * (n as int) <= u64::MAX);
                }
                Some((c + 128 * n, len + 1))
            } else {
                proof {
                    assert(128 * (limit as int + 1) <= 128 * (n as int)) by (nonlinear_arith)
                        requires
                            limit + 1 <= n,
                    ;
                    assert(c + 128 * (n as int) > u64::MAX);
                }
                None
            }
        },
    }
}

/// The body range of the length-delimited content at `buf[pos..end]`: a
/// length varint, then that many bytes. The returned pair brackets the body;
/// its second component is also where parsing continues.
fn parse_len_body(buf: &Vec<u8>, pos: usize, end: usize) -> (r: Option<(usize, usize)>)
    requires
        pos <= end <= buf@.len(),
    ensures
        match r {
            Some((bs, be)) => pos < bs <= be <= end && spec_parse_len_body(
                buf@.subrange(pos as int, end as int),
            ) == Some((buf@.subrange(bs as int, be as int), (be - pos) as int)),
            None => spec_parse_len_body(buf@.subrange(pos as int, end as int)) is None,
        },
{
    let ghost s = buf@.subrange(pos as int, end as int);
    match parse_varint(buf, pos, end) {
        None => None,
        Some((n, vlen)) => {
            if n <= (end - pos - vlen) as u64 {
                let bs = pos + vlen;
                let be = bs + (n as usize);
                proof {
                    assert(buf@.subrange(bs as int, be as int) =~= s.subrange(
                        vlen as int,
                        vlen + n,
                    ));
                }
                Some((bs, be))
            } else {
                None
            }
        },
    }
}

/// The bytes of `buf[a..b]` as a fresh vector.
fn copy_range(buf: &Vec<u8>, a: usize, b: usize) -> (r: Vec<u8>)
    requires
        a <= b <= buf@.len(),
    ensures
        r@ == buf@.subrange(a as int, b as int),
{
    let mut out: Vec<u8> = Vec::new();
    let mut i: usize = a;
    while i < b
        invariant
            a <= i <= b <= buf@.len(),
            out@ == buf@.subrange(a as int, i as int),
        decreases b - i,
    {
        out.push(buf[i]);
        proof {
            assert(out@ =~= buf@.subrange(a as int, i + 1));
        }
        i += 1;
    }
    out
}

/// The sequence of byte-level pairs a vector of byte pairs holds.
spec fn pairs_bytes_view(v: Seq<(Vec<u8>, Vec<u8>)>) -> Seq<(Seq<u8>, Seq<u8>)> {
    Seq::new(v.len(), |i: int| (v[i].0@, v[i].1@))
}

/// The label pair whose message body is exactly `buf[pos..end]`.
fn parse_label_msg(buf: &Vec<u8>, pos: usize, end: usize) -> (r: Option<(Vec<u8>, Vec<u8>)>)
    requires
        pos <= end <= buf@.len(),
    ensures
        match r {
            Some(kv) => spec_parse_label_msg(buf@.subrange(pos as int, end as int)) == Some(
                (kv.0@, kv.1@),
            ),
            None => spec_parse_label_msg(buf@.subrange(pos as int, end as int)) is None,
        },
{
    let ghost s = buf@.subrange(pos as int, end as int);
    if pos >= end {
        return None;
    }
    if buf[pos] != KEY1_LEN {
        proof {
            assert(s[0] != KEY1_LEN);
        }
        return None;
    }
    proof {
        assert(s[0] == KEY1_LEN);
        assert(s.drop_first() =~= buf@.subrange(pos + 1, end as int));
    }
    match parse_len_body(buf, pos + 1, end) {
        None => None,
        Some((ks, ke)) => {
            proof {
                assert(s.drop_first().skip((ke - (pos + 1)) as int) =~= buf@.subrange(
                    ke as int,
                    end as int,
                ));
            }
            if ke >= end {
                return None;
            }
            if buf[ke] != KEY2_LEN {
                return None;
            }
            proof {
                assert(buf@.subrange(ke as int, end as int).drop_first() =~= buf@.subrange(
                    ke + 1,
                    end as int,
                ));
            }
            match parse_len_body(buf, ke + 1, end) {
                None => None,
                Some((vs, ve)) => {
                    if ve == end {
                        let k = copy_range(buf, ks, ke);
                        let v = copy_range(buf, vs, ve);
                        proof {
                            assert(k@ =~= s.drop_first().subrange(
                                (ks - (pos + 1)) as int,
                                (ke - (pos + 1)) as int,
                            ));
                        }
                        Some((k, v))
                    } else {
                        None
                    }
                },
            }
        },
    }
}

/// The label pairs and consumed byte count at the head of `buf[pos..end]`.
fn parse_labels(buf: &Vec<u8>, pos: usize, end: usize) -> (r: Option<
    (Vec<(Vec<u8>, Vec<u8>)>, usize),
>)
    requires
        pos <= end <= buf@.len(),
    ensures
        match r {
            Some(p) => pos + p.1 <= end && spec_parse_labels(
                buf@.subrange(pos as int, end as int),
            ) == Some((pairs_bytes_view(p.0@), p.1 as int)),
            None => spec_parse_labels(buf@.subrange(pos as int, end as int)) is None,
        },
    decreases end - pos,
{
    let ghost s = buf@.subrange(pos as int, end as int);
    if pos >= end || buf[pos] != KEY2_LEN {
        let empty: Vec<(Vec<u8>, Vec<u8>)> = Vec::new();
        proof {
            assert(pairs_bytes_view(empty@) =~= Seq::<(Seq<u8>, Seq<u8>)>::empty());
        }
        return Some((empty, 0));
    }
    proof {
        assert(s[0] == KEY2_LEN);
        assert(s.drop_first() =~= buf@.subrange(pos + 1, end as int));
    }
    match parse_len_body(buf, pos + 1, end) {
        None => None,
        Some((bs, be)) => {
            match parse_label_msg(buf, bs, be) {
                None => None,
                Some(kv) => {
                    let ghost gkv = (kv.0@, kv.1@);
                    proof {
                        assert(s.skip(1 + (be - (pos + 1)) as int) =~= buf@.subrange(
                            be as int,
                            end as int,
                        ));
                    }
                    match parse_labels(buf, be, end) {
                        None => None,
                        Some((tail, c2)) => {
                            let ghost gtail = pairs_bytes_view(tail@);
                            let mut ls = tail;
                            ls.insert(0, kv);
                            proof {
                                assert(pairs_bytes_view(ls@) =~= seq![gkv] + gtail);
                            }
                            Some((ls, (be - pos) + c2))
                        },
                    }
                },
            }
        },
    }
}

/// The payload a kind key, an action code and a bit pattern denote.
fn payload_of(key: u8, code: u64, bits: u64) -> (r: Option<OperationPayload>)
    ensures
        r == spec_payload_of(key, code, bits),
{
    if key == KEY_COUNTER {
        let a = if code == 1 {
            Some(CounterAction::Inc)
        } else if code == 2 {
            Some(CounterAction::Add)
        } else if code == 3 {
            Some(CounterAction::Reset)
        } else if code == 4 {
            Some(CounterAction::Remove)
        } else {
            None
        };
        match a {
            Some(a) => Some(OperationPayload::Counter(CounterOp { action: a, value: Value { bits } })),
            None => None,
        }
    } else if key == KEY_GAUGE {
        let a = if code == 1 {
            Some(GaugeAction::SetValue)
        } else if code == 2 {
            Some(GaugeAction::Inc)
        } else if code == 3 {
            Some(GaugeAction::Dec)
        } else if code == 4 {
            Some(GaugeAction::Add)
        } else if code == 5 {
            Some(GaugeAction::Sub)
        } else if code == 6 {
            Some(GaugeAction::SetToCurrentTime)
        } else if code == 7 {
            Some(GaugeAction::Reset)
        } else if code == 8 {
            Some(GaugeAction::Remove)
        } else {
            None
        };
        match a {
            Some(a) => Some(OperationPayload::Gauge(GaugeOp { action: a, value: Value { bits } })),
            None => None,
        }
    } else if key == KEY_HISTOGRAM {
        let a = if code == 1 {
            Some(HistogramAction::Observe)
        } else if code == 2 {
            Some(HistogramAction::StartTimer)
        } else if code == 3 {
            Some(HistogramAction::Zero)
        } else if code == 4 {
            Some(HistogramAction::Reset)
        } else if code == 5 {
            Some(HistogramAction::Remove)
        } else {
            None
        };
        match a {
            Some(a) => Some(
                OperationPayload::Histogram(HistogramOp { action: a, value: Value { bits } }),
            ),
            None => None,
        }
    } else if key == KEY_SUMMARY {
        let a = if code == 1 {
            Some(SummaryAction::Observe)
        } else if code == 2 {
            Some(SummaryAction::StartTimer)
        } else if code == 3 {
            Some(SummaryAction::Reset)
        } else if code == 4 {
            Some(SummaryAction::Remove)
        } else {
            None
        };
        match a {
            Some(a) => Some(OperationPayload::Summary(SummaryOp { action: a, value: Value { bits } })),
            None => None,
        }
    } else {
        None
    }
}

/// The payload whose message body is exactly `buf[pos..end]`, under the kind
/// key `key`.
fn parse_payload_msg(buf: &Vec<u8>, pos: usize, end: usize, key: u8) -> (r: Option<
    OperationPayload,
>)
    requires
        pos <= end <= buf@.len(),
    ensures
        r == spec_parse_payload_msg(key, buf@.subrange(pos as int, end as int)),
{
    let ghost s = buf@.subrange(pos as int, end as int);
    if pos >= end {
        return None;
    }
    if buf[pos] != KEY_ACTION {
        proof {
            assert(s[0] != KEY_ACTION);
        }
        return None;
    }
    proof {
        assert(s[0] == KEY_ACTION);
        assert(s.drop_first() =~= buf@.subrange(pos + 1, end as int));
    }
    match parse_varint(buf, pos + 1, end) {
        None => None,
        Some((code, clen)) => {
            let rp = pos + 1 + clen;
            proof {
                assert(s.drop_first().skip(clen as int) =~= buf@.subrange(rp as int, end as int));
            }
            if end - rp != 9 {
                return None;
            }
            if buf[rp] != KEY_VALUE {
                return None;
            }
            let bits = (buf[rp + 1] as u64) | ((buf[rp + 2] as u64) << 8) | ((buf[rp + 3] as u64)
                << 16) | ((buf[rp + 4] as u64) << 24) | ((buf[rp + 5] as u64) << 32) | ((buf[rp
                + 6] as u64) << 40) | ((buf[rp + 7] as u64) << 48) | ((buf[rp + 8] as u64) << 56);
            proof {
                let rest = buf@.subrange(rp as int, end as int);
                assert(rest.drop_first() =~= buf@.subrange(rp + 1, end as int));
                assert(spec_le8_val(rest.drop_first()) == bits);
            }
            payload_of(key, code, bits)
        },
    }
}

/// An operation as parsed from the wire, before its strings are checked:
/// name, label keys and label values still as raw bytes.
struct RawOperation {
    name: Vec<u8>,
    labels: Vec<(Vec<u8>, Vec<u8>)>,
    payload: OperationPayload,
}

impl View for RawOperation {
    type V = WireOperation;

    closed spec fn view(&self) -> WireOperation {
        WireOperation {
            name: self.name@,
            labels: pairs_bytes_view(self.labels@),
            payload: self.payload,
        }
    }
}

/// The operation whose message body is exactly `buf[pos..end]`, strings still
/// raw.
#[verifier::rlimit(100)]
#[verifier::spinoff_prover]
fn parse_operation_raw(buf: &Vec<u8>, pos: usize, end: usize) -> (r: Option<RawOperation>)
    requires
        pos <= end <= buf@.len(),
    ensures
        match r {
            Some(raw) => spec_parse_operation(buf@.subrange(pos as int, end as int)) == Some(raw@),
            None => spec_parse_operation(buf@.subrange(pos as int, end as int)) is None,
        },
{
    let ghost s = buf@.subrange(pos as int, end as int);
    if pos >= end {
        return None;
    }
    if buf[pos] != KEY1_LEN {
        proof {
            assert(s[0] != KEY1_LEN);
        }
        return None;
    }
    proof {
        assert(s[0] == KEY1_LEN);
        assert(s.drop_first() =~= buf@.subrange(pos + 1, end as int));
    }
    match parse_len_body(buf, pos + 1, end) {
        None => None,
        Some((ns, ne)) => {
            proof {
                assert(s.drop_first().skip((ne - (pos + 1)) as int) =~= buf@.subrange(
                    ne as int,
                    end as int,
                ));
            }
            match parse_labels(buf, ne, end) {
                None => None,
                Some((lpairs, lc)) => {
                    let lp = ne + lc;
                    proof {
                        assert(buf@.subrange(ne as int, end as int).skip(lc as int)
                            =~= buf@.subrange(lp as int, end as int));
                    }
                    if lp >= end {
                        return None;
                    }
                    let key = buf[lp];
                    if !(key == KEY_COUNTER || key == KEY_GAUGE || key == KEY_HISTOGRAM || key
                        == KEY_SUMMARY) {
                        proof {
                            assert(!spec_is_payload_key(key));
                        }
                        return None;
                    }
                    proof {
                        assert(buf@.subrange(lp as int, end as int).drop_first() =~= buf@.subrange(
                            lp + 1,
                            end as int,
                        ));
                    }
                    match parse_len_body(buf, lp + 1, end) {
                        None => None,
                        Some((ps, pe)) => {
                            if pe != end {
                                return None;
                            }
                            match parse_payload_msg(buf, ps, pe, key) {
                                None => None,
                                Some(p) => {
                                    let name = copy_range(buf, ns, ne);
                                    let ghost glabels = pairs_bytes_view(lpairs@);
                                    let raw = RawOperation { name, labels: lpairs, payload: p };
                                    proof {
                                        assert(raw@ =~= WireOperation {
                                            name: buf@.subrange(ns as int, ne as int),
                                            labels: glabels,
                                            payload: p,
                                        });
                                    }
                                    Some(raw)
                                },
                            }
                        },
                    }
                },
            }
        },
    }
}

/// The sequence of wire operations a vector of raw operations holds.
spec fn raws_view(v: Seq<RawOperation>) -> Seq<WireOperation> {
    Seq::new(v.len(), |i: int| v[i]@)
}

/// The operations whose message body is exactly `buf[pos..end]`, strings
/// still raw.
fn parse_operations_raw(buf: &Vec<u8>, pos: usize, end: usize) -> (r: Option<Vec<RawOperation>>)
    requires
        pos <= end <= buf@.len(),
    ensures
        match r {
            Some(raws) => spec_parse_operations(buf@.subrange(pos as int, end as int)) == Some(
                raws_view(raws@),
            ),
            None => spec_parse_operations(buf@.subrange(pos as int, end as int)) is None,
        },
    decreases end - pos,
{
    let ghost s = buf@.subrange(pos as int, end as int);
    if pos >= end {
        let empty: Vec<RawOperation> = Vec::new();
        proof {
            assert(raws_view(empty@) =~= Seq::<WireOperation>::empty());
        }
        return Some(empty);
    }
    if buf[pos] != KEY1_LEN {
        proof {
            assert(s[0] != KEY1_LEN);
        }
        return None;
    }
    proof {
        assert(s[0] == KEY1_LEN);
        assert(s.drop_first() =~= buf@.subrange(pos + 1, end as int));
    }
    match parse_len_body(buf, pos + 1, end) {
        None => None,
        Some((bs, be)) => {
            match parse_operation_raw(buf, bs, be) {
                None => None,
                Some(raw) => {
                    let ghost graw = raw@;
                    proof {
                        assert(s.skip(1 + (be - (pos + 1)) as int) =~= buf@.subrange(
                            be as int,
                            end as int,
                        ));
                    }
                    match parse_operations_raw(buf, be, end) {
                        None => None,
                        Some(tail) => {
                            let ghost gtail = raws_view(tail@);
                            let mut raws = tail;
                            raws.insert(0, raw);
                            proof {
                                assert(raws_view(raws@) =~= seq![graw] + gtail);
                            }
                            Some(raws)
                        },
                    }
                },
            }
        },
    }
}

/// Relies on String::from_utf8: it succeeds exactly on valid UTF-8 input and
/// returns the string those bytes encode.
#[verifier::external_body]
fn string_from_utf8(bytes: Vec<u8>) -> (r: Option<String>)
    ensures
        match r {
            Some(s) => valid_utf8(bytes@) && s@ == decode_utf8(bytes@),
            None => !valid_utf8(bytes@),
        },
{
    String::from_utf8(bytes).ok()
}

/// The bytes of `v` as a fresh vector.
fn copy_bytes(v: &Vec<u8>) -> (r: Vec<u8>)
    ensures
        r@ == v@,
{
    let r = copy_range(v, 0, v.len());
    proof {
        assert(v@.subrange(0, v@.len() as int) =~= v@);
    }
    r
}

/// The operation a raw parse denotes, when its name and label strings are
/// valid UTF-8, its name is not empty, and its label keys are distinct — the
/// conditions every well-formed operation's encoding meets.
#[verifier::rlimit(100)]
#[verifier::spinoff_prover]
#[verifier::loop_isolation(false)]
fn raw_to_operation(raw: RawOperation) -> (r: Option<PrometheusOperation>)
    ensures
        match r {
            Some(op) => op.well_formed() && op@.to_wire() == raw@,
            None => forall|v: OperationView| v.well_formed() ==> v.to_wire() != raw@,
        },
{
    let ghost rw = raw@;
    let RawOperation { name: name_bytes, labels: lbs, payload } = raw;
    proof {
        assert(rw.name == name_bytes@);
        assert(rw.labels == pairs_bytes_view(lbs@));
        assert(rw.payload == payload);
    }
    if name_bytes.len() == 0 {
        proof {
            assert forall|v: OperationView| v.well_formed() implies v.to_wire() != rw by {
                if v.to_wire() == rw {
                    assert(encode_utf8(v.name) == rw.name);
                    assert(decode_utf8(encode_utf8(v.name)) == v.name);
                    assert(encode_utf8(v.name) =~= Seq::<u8>::empty());
                    assert(decode_utf8(Seq::<u8>::empty()) =~= Seq::<char>::empty());
                    assert(v.name.len() == 0);
                }
            }
        }
        return None;
    }
    let ghost gname_bytes = name_bytes@;
    let name = match string_from_utf8(name_bytes) {
        Some(s) => s,
        None => {
            proof {
                assert(!valid_utf8(gname_bytes));
                assert forall|v: OperationView| v.well_formed() implies v.to_wire() != rw by {
                    if v.to_wire() == rw {
                        assert(encode_utf8(v.name) == rw.name);
                        assert(valid_utf8(encode_utf8(v.name)));
                    }
                }
            }
            return None;
        },
    };
    proof {
        assert(encode_utf8(name@) == gname_bytes);
    }
    let mut pairs: Vec<(String, String)> = Vec::new();
    let n = lbs.len();
    let mut i: usize = 0;
    while i < n
        invariant
            n == lbs@.len(),
            i <= n,
            pairs@.len() == i,
            pairs.deep_view().len() == i,
            rw.labels == pairs_bytes_view(lbs@),
            rw.labels.len() == n,
            forall|j: int|
                0 <= j < i ==> {
                    let kv = #[trigger] pairs.deep_view()[j];
                    encode_utf8(kv.0) == rw.labels[j].0 && encode_utf8(kv.1) == rw.labels[j].1
                },
        decreases n - i,
    {
        proof {
            assert(rw.labels[i as int] == (lbs@[i as int].0@, lbs@[i as int].1@));
        }
        let kb = copy_bytes(&lbs[i].0);
        let vb = copy_bytes(&lbs[i].1);
        let ghost gkb = kb@;
        let ghost gvb = vb@;
        let k = match string_from_utf8(kb) {
            Some(s) => s,
            None => {
                proof {
                    assert(!valid_utf8(gkb));
                    assert(gkb == rw.labels[i as int].0);
                    assert forall|v: OperationView| v.well_formed() implies v.to_wire() != rw by {
                        if v.to_wire() == rw {
                            assert(v.to_wire().labels[i as int] == (
                                encode_utf8(v.labels[i as int].0),
                                encode_utf8(v.labels[i as int].1),
                            ));
                            assert(valid_utf8(encode_utf8(v.labels[i as int].0)));
                        }
                    }
                }
                return None;
            },
        };
        let v_str = match string_from_utf8(vb) {
            Some(s) => s,
            None => {
                proof {
                    assert(!valid_utf8(gvb));
                    assert(gvb == rw.labels[i as int].1);
                    assert forall|v: OperationView| v.well_formed() implies v.to_wire() != rw by {
                        if v.to_wire() == rw {
                            assert(v.to_wire().labels[i as int] == (
                                encode_utf8(v.labels[i as int].0),
                                encode_utf8(v.labels[i as int].1),
                            ));
                            assert(valid_utf8(encode_utf8(v.labels[i as int].1)));
                        }
                    }
                }
                return None;
            },
        };
        let ghost gk = k@;
        let ghost gv = v_str@;
        proof {
            assert(encode_utf8(gk) == rw.labels[i as int].0);
            assert(encode_utf8(gv) == rw.labels[i as int].1);
        }
        let ghost dv_prev = pairs.deep_view();
        pairs.push((k, v_str));
        proof {
            assert(pairs.deep_view()[i as int] == (gk, gv));
            assert forall|j: int| 0 <= j < i implies #[trigger] pairs.deep_view()[j]
                == dv_prev[j] by {
                assert(pairs.deep_view()[j] == pairs@[j].deep_view());
                assert(dv_prev[j] == pairs@[j].deep_view());
            }
        }
        i += 1;
    }
    if !keys_unique(&pairs) {
        proof {
            let dv = pairs.deep_view();
            let (a, b) = choose|a: int, b: int|
                0 <= a < b < dv.len() && (#[trigger] dv[a]).0 == (#[trigger] dv[b]).0;
            assert forall|v: OperationView| v.well_formed() implies v.to_wire() != rw by {
                if v.to_wire() == rw {
                    assert(v.to_wire().labels[a] == (
                        encode_utf8(v.labels[a].0),
                        encode_utf8(v.labels[a].1),
                    ));
                    assert(v.to_wire().labels[b] == (
                        encode_utf8(v.labels[b].0),
                        encode_utf8(v.labels[b].1),
                    ));
                    assert(encode_utf8(v.labels[a].0) == rw.labels[a].0);
                    assert(encode_utf8(dv[a].0) == rw.labels[a].0);
                    assert(decode_utf8(encode_utf8(v.labels[a].0)) == v.labels[a].0);
                    assert(decode_utf8(encode_utf8(dv[a].0)) == dv[a].0);
                    assert(v.labels[a].0 == dv[a].0);
                    assert(encode_utf8(v.labels[b].0) == rw.labels[b].0);
                    assert(encode_utf8(dv[b].0) == rw.labels[b].0);
                    assert(decode_utf8(encode_utf8(v.labels[b].0)) == v.labels[b].0);
                    assert(decode_utf8(encode_utf8(dv[b].0)) == dv[b].0);
                    assert(v.labels[b].0 == dv[b].0);
                    assert(v.labels[a].0 == v.labels[b].0);
                    assert(!unique_keys(v.labels));
                }
            }
        }
        return None;
    }
    let ghost pview = pairs.deep_view();
    let labels = LabelSet::from_pairs(pairs);
    proof {
        lemma_collapse_of_unique(pview);
        assert(labels@ == pview);
    }
    let op = PrometheusOperation { name, labels, payload };
    proof {
        assert(encode_utf8(op@.name) == rw.name);
        assert forall|j: int| 0 <= j < n implies op@.to_wire().labels[j] == rw.labels[j] by {
            assert(op@.labels[j] == pview[j]);
            assert(op@.to_wire().labels[j] == (encode_utf8(pview[j].0), encode_utf8(pview[j].1)));
            assert((encode_utf8(pview[j].0), encode_utf8(pview[j].1)) =~~= rw.labels[j]);
        }
        assert(op@.to_wire().labels =~= rw.labels);
        assert(op@.to_wire() =~= rw);
        assert(encode_utf8(Seq::<char>::empty()) =~= Seq::<u8>::empty());
        assert(op@.name.len() > 0);
        assert(unique_keys(op@.labels));
    }
    Some(op)
}

/// Decode one operation message. The decoder accepts exactly the canonical
/// layout the encoder emits, and yields an operation exactly when the bytes
/// parse and denote a well-formed operation — strings valid UTF-8, name
/// non-empty, label keys distinct: decoding what `encode_operation` produced
/// gives that operation back.
pub fn decode_operation(bytes: &Vec<u8>) -> (r: Option<PrometheusOperation>)
    ensures
        r matches Some(op) ==> op.well_formed() && spec_parse_operation(bytes@) == Some(
            op@.to_wire(),
        ),
        forall|v: OperationView|
            v.well_formed() && spec_parse_operation(bytes@) == Some(#[trigger] v.to_wire()) ==> (
            r matches Some(op) && op@ == v),
{
    proof {
        assert(bytes@.subrange(0, bytes@.len() as int) =~= bytes@);
    }
    match parse_operation_raw(bytes, 0, bytes.len()) {
        None => None,
        Some(raw) => {
            let ghost rw = raw@;
            match raw_to_operation(raw) {
                None => {
                    proof {
                        assert forall|v: OperationView|
                            v.well_formed() && spec_parse_operation(bytes@) == Some(
                                #[trigger] v.to_wire(),
                            ) implies false by {
                            assert(v.to_wire() == rw);
                        }
                    }
                    None
                },
                Some(op) => {
                    proof {
                        assert forall|v: OperationView|
                            v.well_formed() && spec_parse_operation(bytes@) == Some(
                                #[trigger] v.to_wire(),
                            ) implies op@ == v by {
                            assert(v.to_wire() == rw);
                            assert(op@.to_wire() == rw);
                            lemma_to_wire_injective(op@, v);
                        }
                    }
                    Some(op)
                },
            }
        },
    }
}

/// Decode a batch message. The decoder accepts exactly the canonical layout
/// the encoder emits, and yields a batch exactly when the bytes parse and
/// every operation in them is well-formed: decoding what `encode_operations`
/// produced gives that batch back.
#[verifier::rlimit(100)]
#[verifier::spinoff_prover]
#[verifier::loop_isolation(false)]
pub fn decode_operations(bytes: &Vec<u8>) -> (r: Option<PrometheusOperations>)
    ensures
        r matches Some(b) ==> (forall|i: int|
            0 <= i < b@.len() ==> (#[trigger] b@[i]).well_formed()) && spec_parse_operations(
            bytes@,
        ) == Some(spec_wire_of_views(b@)),
        forall|vs: Seq<OperationView>|
            (forall|i: int| 0 <= i < vs.len() ==> (#[trigger] vs[i]).well_formed())
                && spec_parse_operations(bytes@) == Some(#[trigger] spec_wire_of_views(vs)) ==> (
            r matches Some(b) && b@ == vs),
{
    proof {
        assert(bytes@.subrange(0, bytes@.len() as int) =~= bytes@);
    }
    match parse_operations_raw(bytes, 0, bytes.len()) {
        None => None,
        Some(raws) => {
            let ghost rws = raws_view(raws@);
            proof {
                assert(spec_parse_operations(bytes@) == Some(rws));
            }
            let n = raws.len();
            let mut rest = raws;
            let mut ops: Vec<PrometheusOperation> = Vec::new();
            let mut i: usize = 0;
            while i < n
                invariant
                    i <= n,
                    rws.len() == n,
                    ops@.len() == i,
                    ops.deep_view().len() == i,
                    rest@.len() == n - i,
                    raws_view(rest@) == rws.skip(i as int),
                    forall|j: int|
                        0 <= j < i ==> (#[trigger] ops.deep_view()[j]).well_formed()
                            && ops.deep_view()[j].to_wire() == rws[j],
                decreases n - i,
            {
                let ghost prev = rest@;
                let raw = rest.remove(0);
                let ghost graw = raw@;
                proof {
                    assert(raw == prev[0]);
                    assert(raws_view(prev)[0] == prev[0]@);
                    assert(rws.skip(i as int)[0] == rws[i as int]);
                    assert(graw == rws[i as int]);
                    assert(raws_view(rest@) =~= raws_view(prev).drop_first());
                    assert(raws_view(prev).drop_first() =~= rws.skip(i + 1));
                }
                match raw_to_operation(raw) {
                    None => {
                        proof {
                            assert forall|vs: Seq<OperationView>|
                                (forall|k: int| 0 <= k < vs.len() ==> (#[trigger] vs[k]).well_formed())
                                    && spec_parse_operations(bytes@) == Some(
                                    #[trigger] spec_wire_of_views(vs),
                                ) implies false by {
                                assert(spec_wire_of_views(vs) == rws);
                                assert(vs.len() == n);
                                assert(spec_wire_of_views(vs)[i as int] == vs[i as int].to_wire());
                                assert(vs[i as int].well_formed());
                                assert(vs[i as int].to_wire() != rws[i as int]);
                            }
                        }
                        return None;
                    },
                    Some(op) => {
                        let ghost gop = op@;
                        proof {
                            assert(op.well_formed());
                            assert(gop.to_wire() == graw);
                        }
                        let ghost dv_prev = ops.deep_view();
                        ops.push(op);
                        proof {
                            assert(ops.deep_view()[i as int] == gop);
                            assert(gop.to_wire() == rws[i as int]);
                            assert forall|j: int| 0 <= j < i implies #[trigger] ops.deep_view()[j]
                                == dv_prev[j] by {
                                assert(ops.deep_view()[j] == ops@[j].deep_view());
                                assert(dv_prev[j] == ops@[j].deep_view());
                            }
                        }
                    },
                }
                i += 1;
            }
            let b = PrometheusOperations { operations: ops };
            proof {
                assert forall|j: int| 0 <= j < n implies spec_wire_of_views(b@)[j] == rws[j] by {
                    assert(spec_wire_of_views(b@)[j] == b@[j].to_wire());
                }
                assert(spec_wire_of_views(b@) =~= rws);
                assert forall|vs: Seq<OperationView>|
                    (forall|k: int| 0 <= k < vs.len() ==> (#[trigger] vs[k]).well_formed())
                        && spec_parse_operations(bytes@) == Some(
                        #[trigger] spec_wire_of_views(vs),
                    ) implies b@ == vs by {
                    assert(spec_wire_of_views(vs) == rws);
                    assert(vs.len() == n);
                    assert forall|j: int| 0 <= j < n implies b@[j] == vs[j] by {
                        assert(spec_wire_of_views(vs)[j] == vs[j].to_wire());
                        assert(vs[j].to_wire() == rws[j]);
                        assert(b@[j].to_wire() == rws[j]);
                        lemma_to_wire_injective(b@[j], vs[j]);
                    }
                    assert(b@ =~= vs);
                }
            }
            Some(b)
        },
    }
}

/// The canonical encoding of one operation: its name field, one label field
/// per pair in order, then its payload field.
pub fn encode_operation(op: &PrometheusOperation) -> (r: Vec<u8>)
    ensures
        r@ == spec_encode_operation(op@.to_wire()),
        spec_operation_fits(op@.to_wire()),
{
    let ghost w = op@.to_wire();
    let mut buf: Vec<u8> = Vec::new();
    encode_len_field_into(&mut buf, KEY1_LEN, op.name.as_str().as_bytes());
    proof {
        assert(buf@ =~= spec_encode_len_field(KEY1_LEN, w.name));
    }
    let ghost head = buf@;
    let pairs = op.labels.pairs();
    let n = pairs.len();
    let mut i: usize = 0;
    while i < n
        invariant
            n == pairs@.len(),
            i <= n,
            pairs.deep_view() == op.labels@,
            w == op@.to_wire(),
            w.labels.len() == n,
            head == spec_encode_len_field(KEY1_LEN, w.name),
            buf@ == head + spec_encode_labels(w.labels.take(i as int)),
            w.name.len() <= usize::MAX,
            forall|j: int| 0 <= j < i ==> spec_label_fits(#[trigger] w.labels[j]),
        decreases n - i,
    {
        let mut msg: Vec<u8> = Vec::new();
        encode_len_field_into(&mut msg, KEY1_LEN, pairs[i].0.as_str().as_bytes());
        encode_len_field_into(&mut msg, KEY2_LEN, pairs[i].1.as_str().as_bytes());
        proof {
            assert(op.labels@[i as int] == (pairs@[i as int].0@, pairs@[i as int].1@));
            assert(w.labels[i as int] == (
                encode_utf8(pairs@[i as int].0@),
                encode_utf8(pairs@[i as int].1@),
            ));
            assert(msg@ =~= spec_encode_label_msg(w.labels[i as int]));
        }
        encode_len_field_into(&mut buf, KEY2_LEN, msg.as_slice());
        proof {
            lemma_encode_labels_push(w.labels.take(i as int), w.labels[i as int]);
            assert(w.labels.take(i + 1) =~= w.labels.take(i as int).push(w.labels[i as int]));
            assert(buf@ =~= head + spec_encode_labels(w.labels.take(i + 1)));
            assert(spec_label_fits(w.labels[i as int]));
        }
        i += 1;
    }
    proof {
        assert(w.labels.take(n as int) =~= w.labels);
    }
    let parts = payload_parts(&op.payload);
    let mut pm: Vec<u8> = Vec::new();
    pm.push(KEY_ACTION);
    encode_varint_into(&mut pm, parts.1);
    pm.push(KEY_VALUE);
    encode_le8_into(&mut pm, parts.2);
    proof {
        assert(pm@ =~= spec_encode_payload_msg(op.payload));
    }
    encode_len_field_into(&mut buf, parts.0, pm.as_slice());
    proof {
        assert(buf@ =~= spec_encode_operation(w));
    }
    buf
}

/// The canonical encoding of a batch: one framed operation field per
/// operation, in order.
pub fn encode_operations(batch: &PrometheusOperations) -> (r: Vec<u8>)
    ensures
        r@ == spec_encode_operations(spec_wire_of_views(batch@)),
        spec_operations_fit(spec_wire_of_views(batch@)),
{
    let ghost ws = spec_wire_of_views(batch@);
    let mut buf: Vec<u8> = Vec::new();
    let n = batch.operations.len();
    let mut i: usize = 0;
    while i < n
        invariant
            n == batch.operations@.len(),
            i <= n,
            ws == spec_wire_of_views(batch@),
            ws.len() == n,
            buf@ == spec_encode_operations(ws.take(i as int)),
            forall|j: int|
                0 <= j < i ==> spec_operation_fits(#[trigger] ws[j]) && spec_encode_operation(
                    ws[j],
                ).len() <= usize::MAX,
        decreases n - i,
    {
        let body = encode_operation(&batch.operations[i]);
        proof {
            assert(batch@[i as int] == batch.operations@[i as int]@);
            assert(ws[i as int] == batch@[i as int].to_wire());
        }
        encode_len_field_into(&mut buf, KEY1_LEN, body.as_slice());
        proof {
            lemma_encode_operations_push(ws.take(i as int), ws[i as int]);
            assert(ws.take(i + 1) =~= ws.take(i as int).push(ws[i as int]));
            assert(buf@ =~= spec_encode_operations(ws.take(i + 1)));
        }
        i += 1;
    }
    proof {
        assert(ws.take(n as int) =~= ws);
    }
    buf
}

} // verus!
