use vstd::prelude::*;

use vstd::arithmetic::div_mod::lemma_fundamental_div_mod;

use crate::pb::CounterAction;
use crate::pb::CounterOp;
use crate::pb::GaugeAction;
use crate::pb::GaugeOp;
use crate::pb::HistogramAction;
use crate::pb::HistogramOp;
use crate::pb::OperationPayload;
use crate::pb::OperationView;
use crate::pb::SummaryAction;
use crate::pb::SummaryOp;
use crate::value::Value;
use vstd::utf8::decode_utf8;
use vstd::utf8::encode_utf8;

verus! {

// The batch travels as one message holding a repeated field of per-operation
// messages, in the usual base-128 tag/length-delimited wire style. Each
// operation message holds its name (field 1), a repeated label-pair message
// (field 2, with key and value as fields 1 and 2 of the pair), and exactly
// one kind-specific payload message (fields 3 to 6, one per metric kind).
// A payload message holds its action code (field 1) and its numeric argument
// as eight little-endian bytes of the binary64 bit pattern (field 2).
// Keeping one payload field per kind makes the action enumerations
// kind-local: a decoder knows the kind before it reads the action code, so no
// action code is ever read against the wrong kind's table.
//
// Every field is written, defaults included, and in the fixed order above;
// the decoder accepts exactly that canonical layout. Code zero is reserved in
// every action enumeration, so an absent or default action is never mistaken
// for a real one, and new actions may only be appended after the existing
// codes.
/// Field key of a length-delimited field 1 (an operation's name; a label
/// pair's key; the batch's operation field).
pub const KEY1_LEN: u8 = 0x0a;

/// Field key of a length-delimited field 2 (an operation's label field; a
/// label pair's value).
pub const KEY2_LEN: u8 = 0x12;

/// Field key of the Counter payload field (field 3, length-delimited).
pub const KEY_COUNTER: u8 = 0x1a;

/// Field key of the Gauge payload field (field 4, length-delimited).
pub const KEY_GAUGE: u8 = 0x22;

/// Field key of the Histogram payload field (field 5, length-delimited).
pub const KEY_HISTOGRAM: u8 = 0x2a;

/// Field key of the Summary payload field (field 6, length-delimited).
pub const KEY_SUMMARY: u8 = 0x32;

/// Field key of a payload's action code (field 1, varint).
pub const KEY_ACTION: u8 = 0x08;

/// Field key of a payload's numeric argument (field 2, eight fixed bytes).
pub const KEY_VALUE: u8 = 0x11;

// ---------------------------------------------------------------------------
// Base-128 varints
// ---------------------------------------------------------------------------
/// The base-128 encoding of `n`: seven bits per byte, least significant
/// first, the high bit of every byte but the last set.
pub open spec fn spec_varint(n: nat) -> Seq<u8>
    decreases n,
{
    if n < 128 {
        seq![n as u8]
    } else {
        seq![(n % 128 + 128) as u8] + spec_varint(n / 128)
    }
}

/// The value and byte count of the varint at the head of `s`, or nothing
/// when `s` holds no varint whose value fits 64 bits.
pub open spec fn spec_parse_varint(s: Seq<u8>) -> Option<(u64, int)>
    decreases s.len(),
{
    if s.len() == 0 {
        None
    } else if s[0] < 128 {
        Some((s[0] as u64, 1))
    } else {
        match spec_parse_varint(s.drop_first()) {
            Some((n, len)) => {
                let v = (s[0] - 128) + 128 * (n as int);
                if v <= u64::MAX {
                    Some((v as u64, len + 1))
                } else {
                    None
                }
            },
            None => None,
        }
    }
}

/// Parsing reads back exactly what encoding wrote, whatever follows it.
pub proof fn lemma_parse_varint_encode(n: u64, rest: Seq<u8>)
    ensures
        spec_parse_varint(spec_varint(n as nat) + rest) == Some(
            (n, spec_varint(n as nat).len() as int),
        ),
    decreases n,
{
    let s = spec_varint(n as nat) + rest;
    if n < 128 {
        assert(s[0] == n as u8);
        assert(s.len() >= 1);
    } else {
        let head = (n as nat % 128 + 128) as u8;
        assert(s[0] == head);
        assert(head >= 128);
        lemma_parse_varint_encode(n / 128, rest);
        assert(s.drop_first() =~= spec_varint((n / 128) as nat) + rest);
        let m = (n / 128) as int;
        assert((head - 128) + 128 * m == n) by {
            lemma_fundamental_div_mod(n as int, 128);
        }
    }
}

// ---------------------------------------------------------------------------
// Eight little-endian bytes of a 64-bit pattern
// ---------------------------------------------------------------------------
/// The eight bytes of `bits`, least significant first.
pub open spec fn spec_le8(bits: u64) -> Seq<u8> {
    seq![
        (bits & 0xff) as u8,
        ((bits >> 8) & 0xff) as u8,
        ((bits >> 16) & 0xff) as u8,
        ((bits >> 24) & 0xff) as u8,
        ((bits >> 32) & 0xff) as u8,
        ((bits >> 40) & 0xff) as u8,
        ((bits >> 48) & 0xff) as u8,
        ((bits >> 56) & 0xff) as u8,
    ]
}

/// The 64-bit pattern whose little-endian bytes head `s`.
pub open spec fn spec_le8_val(s: Seq<u8>) -> u64
    recommends
        s.len() >= 8,
{
    (s[0] as u64) | ((s[1] as u64) << 8) | ((s[2] as u64) << 16) | ((s[3] as u64) << 24) | ((
    s[4] as u64) << 32) | ((s[5] as u64) << 40) | ((s[6] as u64) << 48) | ((s[7] as u64) << 56)
}

/// Reassembling the eight bytes of `bits` yields `bits`.
pub proof fn lemma_le8_round_trip(bits: u64)
    ensures
        spec_le8_val(spec_le8(bits)) == bits,
{
    assert(((bits & 0xff) as u8 as u64) | ((((bits >> 8) & 0xff) as u8 as u64) << 8) | ((((bits
        >> 16) & 0xff) as u8 as u64) << 16) | ((((bits >> 24) & 0xff) as u8 as u64) << 24) | ((((
    bits >> 32) & 0xff) as u8 as u64) << 32) | ((((bits >> 40) & 0xff) as u8 as u64) << 40) | ((((
    bits >> 48) & 0xff) as u8 as u64) << 48) | ((((bits >> 56) & 0xff) as u8 as u64) << 56)
        == bits) by (bit_vector);
}

// ---------------------------------------------------------------------------
// Action codes
// ---------------------------------------------------------------------------
/// The wire code of a Counter action. Zero stays reserved for "unset".
pub open spec fn spec_counter_code(a: CounterAction) -> u64 {
    match a {
        CounterAction::Inc => 1,
        CounterAction::Add => 2,
        CounterAction::Reset => 3,
        CounterAction::Remove => 4,
    }
}

/// The Counter action of a wire code, if the code is assigned.
pub open spec fn spec_counter_action(code: u64) -> Option<CounterAction> {
    if code == 1 {
        Some(CounterAction::Inc)
    } else if code == 2 {
        Some(CounterAction::Add)
    } else if code == 3 {
        Some(CounterAction::Reset)
    } else if code == 4 {
        Some(CounterAction::Remove)
    } else {
        None
    }
}

/// The wire code of a Gauge action. Zero stays reserved for "unset".
pub open spec fn spec_gauge_code(a: GaugeAction) -> u64 {
    match a {
        GaugeAction::SetValue => 1,
        GaugeAction::Inc => 2,
        GaugeAction::Dec => 3,
        GaugeAction::Add => 4,
        GaugeAction::Sub => 5,
        GaugeAction::SetToCurrentTime => 6,
        GaugeAction::Reset => 7,
        GaugeAction::Remove => 8,
    }
}

/// The Gauge action of a wire code, if the code is assigned.
pub open spec fn spec_gauge_action(code: u64) -> Option<GaugeAction> {
    if code == 1 {
        Some(GaugeAction::SetValue)
    } else if code == 2 {
        Some(GaugeAction::Inc)
    } else if code == 3 {
        Some(GaugeAction::Dec)
    } else if code == 4 {
        Some(GaugeAction::Add)
    } else if code == 5 {
        Some(GaugeAction::Sub)
    } else if code == 6 {
        Some(GaugeAction::SetToCurrentTime)
    } else if code == 7 {
        Some(GaugeAction::Reset)
    } else if code == 8 {
        Some(GaugeAction::Remove)
    } else {
        None
    }
}

/// The wire code of a Histogram action. Zero stays reserved for "unset".
pub open spec fn spec_histogram_code(a: HistogramAction) -> u64 {
    match a {
        HistogramAction::Observe => 1,
        HistogramAction::StartTimer => 2,
        HistogramAction::Zero => 3,
        HistogramAction::Reset => 4,
        HistogramAction::Remove => 5,
    }
}

/// The Histogram action of a wire code, if the code is assigned.
pub open spec fn spec_histogram_action(code: u64) -> Option<HistogramAction> {
    if code == 1 {
        Some(HistogramAction::Observe)
    } else if code == 2 {
        Some(HistogramAction::StartTimer)
    } else if code == 3 {
        Some(HistogramAction::Zero)
    } else if code == 4 {
        Some(HistogramAction::Reset)
    } else if code == 5 {
        Some(HistogramAction::Remove)
    } else {
        None
    }
}

/// The wire code of a Summary action. Zero stays reserved for "unset".
pub open spec fn spec_summary_code(a: SummaryAction) -> u64 {
    match a {
        SummaryAction::Observe => 1,
        SummaryAction::StartTimer => 2,
        SummaryAction::Reset => 3,
        SummaryAction::Remove => 4,
    }
}

/// The Summary action of a wire code, if the code is assigned.
pub open spec fn spec_summary_action(code: u64) -> Option<SummaryAction> {
    if code == 1 {
        Some(SummaryAction::Observe)
    } else if code == 2 {
        Some(SummaryAction::StartTimer)
    } else if code == 3 {
        Some(SummaryAction::Reset)
    } else if code == 4 {
        Some(SummaryAction::Remove)
    } else {
        None
    }
}

// ---------------------------------------------------------------------------
// Payload messages
// ---------------------------------------------------------------------------
/// The field key under which a payload's kind travels.
pub open spec fn spec_payload_key(p: OperationPayload) -> u8 {
    match p {
        OperationPayload::Counter(_) => KEY_COUNTER,
        OperationPayload::Gauge(_) => KEY_GAUGE,
        OperationPayload::Histogram(_) => KEY_HISTOGRAM,
        OperationPayload::Summary(_) => KEY_SUMMARY,
    }
}

/// The action code a payload carries.
pub open spec fn spec_payload_code(p: OperationPayload) -> u64 {
    match p {
        OperationPayload::Counter(op) => spec_counter_code(op.action),
        OperationPayload::Gauge(op) => spec_gauge_code(op.action),
        OperationPayload::Histogram(op) => spec_histogram_code(op.action),
        OperationPayload::Summary(op) => spec_summary_code(op.action),
    }
}

/// The numeric argument a payload carries, as its bit pattern.
pub open spec fn spec_payload_bits(p: OperationPayload) -> u64 {
    match p {
        OperationPayload::Counter(op) => op.value.bits,
        OperationPayload::Gauge(op) => op.value.bits,
        OperationPayload::Histogram(op) => op.value.bits,
        OperationPayload::Summary(op) => op.value.bits,
    }
}

/// The payload a kind key, an action code and a bit pattern denote, if the
/// key names a kind and the code is assigned in that kind's table.
pub open spec fn spec_payload_of(key: u8, code: u64, bits: u64) -> Option<OperationPayload> {
    if key == KEY_COUNTER {
        match spec_counter_action(code) {
            Some(a) => Some(
                OperationPayload::Counter(CounterOp { action: a, value: Value { bits } }),
            ),
            None => None,
        }
    } else if key == KEY_GAUGE {
        match spec_gauge_action(code) {
            Some(a) => Some(OperationPayload::Gauge(GaugeOp { action: a, value: Value { bits } })),
            None => None,
        }
    } else if key == KEY_HISTOGRAM {
        match spec_histogram_action(code) {
            Some(a) => Some(
                OperationPayload::Histogram(HistogramOp { action: a, value: Value { bits } }),
            ),
            None => None,
        }
    } else if key == KEY_SUMMARY {
        match spec_summary_action(code) {
            Some(a) => Some(
                OperationPayload::Summary(SummaryOp { action: a, value: Value { bits } }),
            ),
            None => None,
        }
    } else {
        None
    }
}

/// The body of a payload message: the action code under field 1, then the
/// eight value bytes under field 2.
pub open spec fn spec_encode_payload_msg(p: OperationPayload) -> Seq<u8> {
    seq![KEY_ACTION] + spec_varint(spec_payload_code(p) as nat) + seq![KEY_VALUE] + spec_le8(
        spec_payload_bits(p),
    )
}

/// The payload whose message body is exactly `s`, under the kind key `key`.
pub open spec fn spec_parse_payload_msg(key: u8, s: Seq<u8>) -> Option<OperationPayload> {
    if s.len() == 0 || s[0] != KEY_ACTION {
        None
    } else {
        match spec_parse_varint(s.drop_first()) {
            Some((code, clen)) => {
                let rest = s.drop_first().skip(clen);
                if rest.len() == 9 && rest[0] == KEY_VALUE {
                    spec_payload_of(key, code, spec_le8_val(rest.drop_first()))
                } else {
                    None
                }
            },
            None => None,
        }
    }
}

/// Parsing a payload message under its own kind key reads back the payload
/// that was encoded.
pub proof fn lemma_parse_payload_msg_encode(p: OperationPayload)
    ensures
        spec_parse_payload_msg(spec_payload_key(p), spec_encode_payload_msg(p)) == Some(p),
{
    let s = spec_encode_payload_msg(p);
    let code = spec_payload_code(p);
    let bits = spec_payload_bits(p);
    let tail = seq![KEY_VALUE] + spec_le8(bits);
    assert(s[0] == KEY_ACTION);
    assert(s.drop_first() =~= spec_varint(code as nat) + tail);
    lemma_parse_varint_encode(code, tail);
    let clen = spec_varint(code as nat).len() as int;
    assert(s.drop_first().skip(clen) =~= tail);
    assert(tail.len() == 9);
    assert(tail[0] == KEY_VALUE);
    assert(tail.drop_first() =~= spec_le8(bits));
    lemma_le8_round_trip(bits);
    assert(spec_payload_of(spec_payload_key(p), code, bits) == Some(p));
}

// ---------------------------------------------------------------------------
// Length-delimited fields
// ---------------------------------------------------------------------------
/// A length-delimited field: the key byte, the body's length as a varint,
/// then the body.
pub open spec fn spec_encode_len_field(key: u8, body: Seq<u8>) -> Seq<u8> {
    seq![key] + spec_varint(body.len()) + body
}

/// The body and consumed byte count of the length-delimited content at the
/// head of `s` (after its key byte): a length varint, then that many bytes.
pub open spec fn spec_parse_len_body(s: Seq<u8>) -> Option<(Seq<u8>, int)> {
    match spec_parse_varint(s) {
        Some((n, vlen)) => {
            if n <= s.len() - vlen {
                Some((s.subrange(vlen, vlen + n), vlen + n))
            } else {
                None
            }
        },
        None => None,
    }
}

/// Parsing reads back exactly the body that was framed, whatever follows it.
pub proof fn lemma_parse_len_body_encode(body: Seq<u8>, rest: Seq<u8>)
    requires
        body.len() <= u64::MAX,
    ensures
        spec_parse_len_body(spec_varint(body.len()) + body + rest) == Some(
            (body, spec_varint(body.len()).len() + body.len() as int),
        ),
{
    let n = body.len() as u64;
    let s = spec_varint(body.len()) + body + rest;
    assert(n as nat == body.len());
    assert(s =~= spec_varint(n as nat) + (body + rest));
    lemma_parse_varint_encode(n, body + rest);
    let vlen = spec_varint(n as nat).len() as int;
    assert(s.subrange(vlen, vlen + n) =~= body);
}

// ---------------------------------------------------------------------------
// Label pairs
// ---------------------------------------------------------------------------
/// One label pair as a message body: its key under field 1, its value under
/// field 2.
pub open spec fn spec_encode_label_msg(kv: (Seq<u8>, Seq<u8>)) -> Seq<u8> {
    spec_encode_len_field(KEY1_LEN, kv.0) + spec_encode_len_field(KEY2_LEN, kv.1)
}

/// The label pair whose message body is exactly `s`.
pub open spec fn spec_parse_label_msg(s: Seq<u8>) -> Option<(Seq<u8>, Seq<u8>)> {
    if s.len() == 0 || s[0] != KEY1_LEN {
        None
    } else {
        match spec_parse_len_body(s.drop_first()) {
            Some((k, c1)) => {
                let rest = s.drop_first().skip(c1);
                if rest.len() == 0 || rest[0] != KEY2_LEN {
                    None
                } else {
                    match spec_parse_len_body(rest.drop_first()) {
                        Some((v, c2)) => {
                            if c2 == rest.len() - 1 {
                                Some((k, v))
                            } else {
                                None
                            }
                        },
                        None => None,
                    }
                }
            },
            None => None,
        }
    }
}

/// A label pair is wire-representable when its key, its value and its whole
/// message body have lengths a varint can carry.
pub open spec fn spec_label_fits(kv: (Seq<u8>, Seq<u8>)) -> bool {
    kv.0.len() <= u64::MAX && kv.1.len() <= u64::MAX && spec_encode_label_msg(kv).len()
        <= u64::MAX
}

/// Parsing a label message reads back the pair that was encoded.
pub proof fn lemma_parse_label_msg_encode(kv: (Seq<u8>, Seq<u8>))
    requires
        kv.0.len() <= u64::MAX,
        kv.1.len() <= u64::MAX,
    ensures
        spec_parse_label_msg(spec_encode_label_msg(kv)) == Some(kv),
{
    let s = spec_encode_label_msg(kv);
    let f2 = spec_encode_len_field(KEY2_LEN, kv.1);
    assert(s[0] == KEY1_LEN);
    assert(s.drop_first() =~= spec_varint(kv.0.len()) + kv.0 + f2);
    lemma_parse_len_body_encode(kv.0, f2);
    let c1 = spec_varint(kv.0.len()).len() + kv.0.len();
    let rest = s.drop_first().skip(c1 as int);
    assert(rest =~= f2);
    assert(rest[0] == KEY2_LEN);
    assert(rest.drop_first() =~= spec_varint(kv.1.len()) + kv.1 + Seq::<u8>::empty());
    lemma_parse_len_body_encode(kv.1, Seq::<u8>::empty());
    assert(spec_parse_len_body(rest.drop_first()) == Some(
        (kv.1, spec_varint(kv.1.len()).len() + kv.1.len() as int),
    ));
}

/// The label fields of an operation, one length-delimited field per pair, in
/// order.
pub open spec fn spec_encode_labels(ls: Seq<(Seq<u8>, Seq<u8>)>) -> Seq<u8>
    decreases ls.len(),
{
    if ls.len() == 0 {
        Seq::empty()
    } else {
        spec_encode_len_field(KEY2_LEN, spec_encode_label_msg(ls[0])) + spec_encode_labels(
            ls.drop_first(),
        )
    }
}

/// Sequence concatenation is associative.
proof fn lemma_concat_assoc<T>(a: Seq<T>, b: Seq<T>, c: Seq<T>)
    ensures
        (a + b) + c == a + (b + c),
{
    assert((a + b) + c =~= a + (b + c));
}

/// Encoding a label list one pair longer appends that pair's field.
pub proof fn lemma_encode_labels_push(ls: Seq<(Seq<u8>, Seq<u8>)>, kv: (Seq<u8>, Seq<u8>))
    ensures
        spec_encode_labels(ls.push(kv)) == spec_encode_labels(ls) + spec_encode_len_field(
            KEY2_LEN,
            spec_encode_label_msg(kv),
        ),
    decreases ls.len(),
{
    let field = spec_encode_len_field(KEY2_LEN, spec_encode_label_msg(kv));
    if ls.len() == 0 {
        reveal_with_fuel(spec_encode_labels, 2);
        assert(ls.push(kv)[0] == kv);
        assert(ls.push(kv).drop_first() =~= Seq::<(Seq<u8>, Seq<u8>)>::empty());
        assert(spec_encode_labels(ls.push(kv)) == field + Seq::<u8>::empty());
        assert(field + Seq::<u8>::empty() =~= field);
        assert(Seq::<u8>::empty() + field =~= field);
    } else {
        let head = spec_encode_len_field(KEY2_LEN, spec_encode_label_msg(ls[0]));
        assert(ls.push(kv)[0] == ls[0]);
        assert(ls.push(kv).drop_first() =~= ls.drop_first().push(kv));
        lemma_encode_labels_push(ls.drop_first(), kv);
        assert(spec_encode_labels(ls.push(kv)) == head + (spec_encode_labels(ls.drop_first())
            + field));
        assert(spec_encode_labels(ls) == head + spec_encode_labels(ls.drop_first()));
        lemma_concat_assoc(head, spec_encode_labels(ls.drop_first()), field);
    }
}

/// The label pairs and consumed byte count at the head of `s`: every leading
/// field keyed `KEY2_LEN`, in order. The list ends at the first byte that is
/// no label key; a malformed label field fails the parse.
pub open spec fn spec_parse_labels(s: Seq<u8>) -> Option<(Seq<(Seq<u8>, Seq<u8>)>, int)>
    decreases s.len(),
{
    if s.len() == 0 || s[0] != KEY2_LEN {
        Some((Seq::empty(), 0))
    } else {
        match spec_parse_len_body(s.drop_first()) {
            Some((body, c)) => {
                match spec_parse_label_msg(body) {
                    Some(kv) => {
                        if 0 <= c && 1 + c <= s.len() {
                            match spec_parse_labels(s.skip(1 + c)) {
                                Some((tail, c2)) => Some((seq![kv] + tail, 1 + c + c2)),
                                None => None,
                            }
                        } else {
                            None
                        }
                    },
                    None => None,
                }
            },
            None => None,
        }
    }
}

/// Parsing reads back exactly the label list that was encoded, provided what
/// follows does not begin with another label key.
#[verifier::rlimit(50)]
pub proof fn lemma_parse_labels_encode(ls: Seq<(Seq<u8>, Seq<u8>)>, rest: Seq<u8>)
    requires
        forall|i: int| 0 <= i < ls.len() ==> spec_label_fits(#[trigger] ls[i]),
        rest.len() == 0 || rest[0] != KEY2_LEN,
    ensures
        spec_parse_labels(spec_encode_labels(ls) + rest) == Some(
            (ls, spec_encode_labels(ls).len() as int),
        ),
    decreases ls.len(),
{
    let s = spec_encode_labels(ls) + rest;
    if ls.len() == 0 {
        assert(s =~= rest);
        assert(spec_parse_labels(s) == Some((Seq::<(Seq<u8>, Seq<u8>)>::empty(), 0int)));
        assert(Seq::<(Seq<u8>, Seq<u8>)>::empty() =~= ls);
    } else {
        let msg0 = spec_encode_label_msg(ls[0]);
        let tail_bytes = spec_encode_labels(ls.drop_first()) + rest;
        assert(spec_label_fits(ls[0]));
        assert(s[0] == KEY2_LEN);
        assert(s.drop_first() =~= spec_varint(msg0.len()) + msg0 + tail_bytes);
        lemma_parse_len_body_encode(msg0, tail_bytes);
        let c = spec_varint(msg0.len()).len() + msg0.len();
        lemma_parse_label_msg_encode(ls[0]);
        assert(1 + c <= s.len());
        assert(s.skip(1 + c as int) =~= tail_bytes);
        assert(forall|i: int|
            0 <= i < ls.drop_first().len() ==> spec_label_fits(#[trigger] ls.drop_first()[i]));
        lemma_parse_labels_encode(ls.drop_first(), rest);
        assert(seq![ls[0]] + ls.drop_first() =~= ls);
        assert(1 + c + spec_encode_labels(ls.drop_first()).len() == spec_encode_labels(ls).len());
    }
}

// ---------------------------------------------------------------------------
// Operations
// ---------------------------------------------------------------------------
/// The byte-level content of one operation message: name and labels as UTF-8
/// byte strings, the payload as plain data.
#[verifier::ext_equal]
pub struct WireOperation {
    pub name: Seq<u8>,
    pub labels: Seq<(Seq<u8>, Seq<u8>)>,
    pub payload: OperationPayload,
}

impl OperationView {
    /// The operation's wire content: its strings UTF-8 encoded.
    pub open spec fn to_wire(&self) -> WireOperation {
        WireOperation {
            name: encode_utf8(self.name),
            labels: self.labels.map_values(
                |kv: (Seq<char>, Seq<char>)| (encode_utf8(kv.0), encode_utf8(kv.1)),
            ),
            payload: self.payload,
        }
    }
}

/// Whether `key` opens one of the four payload fields.
pub open spec fn spec_is_payload_key(key: u8) -> bool {
    key == KEY_COUNTER || key == KEY_GAUGE || key == KEY_HISTOGRAM || key == KEY_SUMMARY
}

/// One operation as a message body: its name under field 1, its label pairs
/// under field 2 in order, then exactly one payload field for its kind.
pub open spec fn spec_encode_operation(w: WireOperation) -> Seq<u8> {
    spec_encode_len_field(KEY1_LEN, w.name) + spec_encode_labels(w.labels) + spec_encode_len_field(
        spec_payload_key(w.payload),
        spec_encode_payload_msg(w.payload),
    )
}

/// The operation whose message body is exactly `s`.
pub open spec fn spec_parse_operation(s: Seq<u8>) -> Option<WireOperation> {
    if s.len() == 0 || s[0] != KEY1_LEN {
        None
    } else {
        match spec_parse_len_body(s.drop_first()) {
            Some((name, c1)) => {
                let rest = s.drop_first().skip(c1);
                match spec_parse_labels(rest) {
                    Some((labels, c2)) => {
                        let rest2 = rest.skip(c2);
                        if rest2.len() == 0 || !spec_is_payload_key(rest2[0]) {
                            None
                        } else {
                            match spec_parse_len_body(rest2.drop_first()) {
                                Some((pbody, c3)) => {
                                    if c3 == rest2.len() - 1 {
                                        match spec_parse_payload_msg(rest2[0], pbody) {
                                            Some(p) => Some(
                                                WireOperation { name, labels, payload: p },
                                            ),
                                            None => None,
                                        }
                                    } else {
                                        None
                                    }
                                },
                                None => None,
                            }
                        }
                    },
                    None => None,
                }
            },
            None => None,
        }
    }
}

/// An operation is wire-representable when its name and each of its label
/// pairs have lengths a varint can carry.
pub open spec fn spec_operation_fits(w: WireOperation) -> bool {
    w.name.len() <= u64::MAX && forall|i: int|
        0 <= i < w.labels.len() ==> spec_label_fits(#[trigger] w.labels[i])
}

/// Every payload message is eleven bytes: key and code, key and eight value
/// bytes.
pub proof fn lemma_payload_msg_len(p: OperationPayload)
    ensures
        spec_payload_code(p) < 128,
        spec_encode_payload_msg(p).len() == 11,
{
    assert(spec_payload_code(p) < 128);
    assert(spec_varint(spec_payload_code(p) as nat).len() == 1);
}

/// Parsing reads back exactly the operation that was encoded.
#[verifier::rlimit(50)]
pub proof fn lemma_parse_operation_encode(w: WireOperation)
    requires
        spec_operation_fits(w),
    ensures
        spec_parse_operation(spec_encode_operation(w)) == Some(w),
{
    let s = spec_encode_operation(w);
    let lbytes = spec_encode_labels(w.labels);
    let pkey = spec_payload_key(w.payload);
    let pmsg = spec_encode_payload_msg(w.payload);
    let fpay = spec_encode_len_field(pkey, pmsg);
    lemma_payload_msg_len(w.payload);
    assert(s[0] == KEY1_LEN);
    assert(s.drop_first() =~= spec_varint(w.name.len()) + w.name + (lbytes + fpay));
    lemma_parse_len_body_encode(w.name, lbytes + fpay);
    let c1 = spec_varint(w.name.len()).len() + w.name.len();
    let rest = s.drop_first().skip(c1 as int);
    assert(rest =~= lbytes + fpay);
    assert(fpay[0] == pkey);
    assert(pkey != KEY2_LEN);
    assert((lbytes + fpay).len() == 0 || (lbytes + fpay)[0] != KEY2_LEN || lbytes.len() != 0);
    if lbytes.len() == 0 {
        assert((lbytes + fpay)[0] == pkey);
    }
    lemma_parse_labels_encode(w.labels, fpay);
    assert(spec_parse_labels(rest) == Some((w.labels, lbytes.len() as int)));
    let rest2 = rest.skip(lbytes.len() as int);
    assert(rest2 =~= fpay);
    assert(rest2[0] == pkey);
    assert(spec_is_payload_key(pkey));
    assert(rest2.drop_first() =~= spec_varint(pmsg.len()) + pmsg + Seq::<u8>::empty());
    lemma_parse_len_body_encode(pmsg, Seq::<u8>::empty());
    let c3 = spec_varint(pmsg.len()).len() + pmsg.len();
    assert(spec_parse_len_body(rest2.drop_first()) == Some((pmsg, c3 as int)));
    assert(c3 == rest2.len() - 1);
    lemma_parse_payload_msg_encode(w.payload);
    assert(spec_parse_operation(s) == Some(
        WireOperation { name: w.name, labels: w.labels, payload: w.payload },
    ));
    assert(WireOperation { name: w.name, labels: w.labels, payload: w.payload } =~= w);
}

// ---------------------------------------------------------------------------
// Batches
// ---------------------------------------------------------------------------
/// A batch as a message body: one length-delimited field per operation, in
/// order.
pub open spec fn spec_encode_operations(ws: Seq<WireOperation>) -> Seq<u8>
    decreases ws.len(),
{
    if ws.len() == 0 {
        Seq::empty()
    } else {
        spec_encode_len_field(KEY1_LEN, spec_encode_operation(ws[0])) + spec_encode_operations(
            ws.drop_first(),
        )
    }
}

/// The operations whose message body is exactly `s`: framed operation fields
/// back to back until the input ends.
pub open spec fn spec_parse_operations(s: Seq<u8>) -> Option<Seq<WireOperation>>
    decreases s.len(),
{
    if s.len() == 0 {
        Some(Seq::empty())
    } else if s[0] != KEY1_LEN {
        None
    } else {
        match spec_parse_len_body(s.drop_first()) {
            Some((body, c)) => {
                match spec_parse_operation(body) {
                    Some(w) => {
                        if 0 <= c && 1 + c <= s.len() {
                            match spec_parse_operations(s.skip(1 + c)) {
                                Some(tail) => Some(seq![w] + tail),
                                None => None,
                            }
                        } else {
                            None
                        }
                    },
                    None => None,
                }
            },
            None => None,
        }
    }
}

/// Encoding a batch one operation longer appends that operation's field.
pub proof fn lemma_encode_operations_push(ws: Seq<WireOperation>, w: WireOperation)
    ensures
        spec_encode_operations(ws.push(w)) == spec_encode_operations(ws) + spec_encode_len_field(
            KEY1_LEN,
            spec_encode_operation(w),
        ),
    decreases ws.len(),
{
    let field = spec_encode_len_field(KEY1_LEN, spec_encode_operation(w));
    if ws.len() == 0 {
        reveal_with_fuel(spec_encode_operations, 2);
        assert(ws.push(w)[0] == w);
        assert(ws.push(w).drop_first() =~= Seq::<WireOperation>::empty());
        assert(spec_encode_operations(ws.push(w)) == field + Seq::<u8>::empty());
        assert(field + Seq::<u8>::empty() =~= field);
        assert(Seq::<u8>::empty() + field =~= field);
    } else {
        let head = spec_encode_len_field(KEY1_LEN, spec_encode_operation(ws[0]));
        assert(ws.push(w)[0] == ws[0]);
        assert(ws.push(w).drop_first() =~= ws.drop_first().push(w));
        lemma_encode_operations_push(ws.drop_first(), w);
        assert(spec_encode_operations(ws.push(w)) == head + (spec_encode_operations(
            ws.drop_first(),
        ) + field));
        assert(spec_encode_operations(ws) == head + spec_encode_operations(ws.drop_first()));
        lemma_concat_assoc(head, spec_encode_operations(ws.drop_first()), field);
    }
}

/// The wire content of each view in `vs`, in order.
pub open spec fn spec_wire_of_views(vs: Seq<OperationView>) -> Seq<WireOperation> {
    vs.map_values(|v: OperationView| v.to_wire())
}

/// Wire content determines the operation: two views with one wire content are
/// one view, because UTF-8 encoding loses nothing.
pub proof fn lemma_to_wire_injective(a: OperationView, b: OperationView)
    requires
        a.to_wire() == b.to_wire(),
    ensures
        a == b,
{
    broadcast use vstd::utf8::encode_utf8_decode_utf8;

    assert(decode_utf8(encode_utf8(a.name)) == a.name);
    assert(decode_utf8(encode_utf8(b.name)) == b.name);
    let la = a.labels;
    let lb = b.labels;
    assert(a.to_wire().labels.len() == la.len());
    assert(b.to_wire().labels.len() == lb.len());
    assert forall|i: int| 0 <= i < la.len() implies la[i] == lb[i] by {
        assert(a.to_wire().labels[i] == (encode_utf8(la[i].0), encode_utf8(la[i].1)));
        assert(b.to_wire().labels[i] == (encode_utf8(lb[i].0), encode_utf8(lb[i].1)));
        assert(decode_utf8(encode_utf8(la[i].0)) == la[i].0);
        assert(decode_utf8(encode_utf8(la[i].1)) == la[i].1);
        assert(decode_utf8(encode_utf8(lb[i].0)) == lb[i].0);
        assert(decode_utf8(encode_utf8(lb[i].1)) == lb[i].1);
        assert(la[i].0 == lb[i].0);
        assert(la[i].1 == lb[i].1);
        assert(la[i] =~= lb[i]);
    }
    assert(la =~= lb);
    assert(a =~= b);
}

/// A batch is wire-representable when each of its operations is and each
/// operation's encoding has a length a varint can carry.
pub open spec fn spec_operations_fit(ws: Seq<WireOperation>) -> bool {
    forall|i: int|
        0 <= i < ws.len() ==> spec_operation_fits(#[trigger] ws[i]) && spec_encode_operation(
            ws[i],
        ).len() <= u64::MAX
}

/// Parsing reads back exactly the batch that was encoded.
#[verifier::rlimit(50)]
pub proof fn lemma_parse_operations_encode(ws: Seq<WireOperation>)
    requires
        spec_operations_fit(ws),
    ensures
        spec_parse_operations(spec_encode_operations(ws)) == Some(ws),
    decreases ws.len(),
{
    let s = spec_encode_operations(ws);
    if ws.len() == 0 {
        assert(s =~= Seq::<u8>::empty());
        assert(Seq::<WireOperation>::empty() =~= ws);
    } else {
        let body0 = spec_encode_operation(ws[0]);
        let tail_bytes = spec_encode_operations(ws.drop_first());
        assert(spec_operation_fits(ws[0]) && body0.len() <= u64::MAX);
        assert(s[0] == KEY1_LEN);
        assert(s.drop_first() =~= spec_varint(body0.len()) + body0 + tail_bytes);
        lemma_parse_len_body_encode(body0, tail_bytes);
        let c = spec_varint(body0.len()).len() + body0.len();
        lemma_parse_operation_encode(ws[0]);
        assert(1 + c <= s.len());
        assert(s.skip(1 + c as int) =~= tail_bytes);
        assert(forall|i: int|
            0 <= i < ws.drop_first().len() ==> spec_operation_fits(#[trigger] ws.drop_first()[i])
                && spec_encode_operation(ws.drop_first()[i]).len() <= u64::MAX);
        lemma_parse_operations_encode(ws.drop_first());
        assert(seq![ws[0]] + ws.drop_first() =~= ws);
    }
}

} // verus!

