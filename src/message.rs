use vstd::prelude::*;
use vstd::utf8::{decode_utf8, encode_scalar, encode_utf8, valid_utf8};
use crate::codec::{
    decimal, escape, escape_byte, is_digit, lemma_decimal, lemma_escape_concat, lemma_string_body,
    number_at, push_decimal,
    push_escaped, read_number, read_string, string_body,
};

verus! {

/// A wall-clock instant as seconds and nanoseconds since the Unix epoch.
#[derive(Clone, Copy, Debug, PartialEq, Eq)]
pub struct Timestamp {
    pub secs: u64,
    pub nanos: u32,
}

/// The echo payload: sequence number, send time and owning client.
#[derive(Clone, Debug)]
pub struct TestMessage {
    pub id: usize,
    pub time: Timestamp,
    pub client: String,
}

/// Why a payload could not be read.
#[derive(Clone, Copy, Debug, PartialEq, Eq)]
pub enum DecodeError {
    /// The bytes are not an echo payload object.
    Malformed,
    /// The client field does not hold UTF-8 text.
    InvalidText,
}

pub open spec fn lit_id() -> Seq<u8> {
    seq![123u8, 34, 105, 100, 34, 58]
}

pub open spec fn lit_secs() -> Seq<u8> {
    seq![44u8, 34, 116, 105, 109, 101, 34, 58, 123, 34, 115, 101, 99, 115, 95, 115, 105, 110, 99, 101, 95, 101, 112, 111, 99, 104, 34, 58]
}

pub open spec fn lit_nanos() -> Seq<u8> {
    seq![44u8, 34, 110, 97, 110, 111, 115, 95, 115, 105, 110, 99, 101, 95, 101, 112, 111, 99, 104, 34, 58]
}

pub open spec fn lit_client() -> Seq<u8> {
    seq![125u8, 44, 34, 99, 108, 105, 101, 110, 116, 34, 58, 34]
}

pub open spec fn lit_end() -> Seq<u8> {
    seq![34u8, 125]
}

/// The JSON object `{"id":..,"time":{"secs_since_epoch":..,"nanos_since_epoch":..},"client":".."}`.
pub open spec fn wire(id: nat, secs: nat, nanos: nat, client: Seq<u8>) -> Seq<u8> {
    lit_id() + decimal(id) + lit_secs() + decimal(secs) + lit_nanos() + decimal(nanos)
        + lit_client() + escape(client) + lit_end()
}

pub open spec fn has_lit(s: Seq<u8>, i: int, lit: Seq<u8>) -> bool {
    0 <= i && i + lit.len() <= s.len() && s.subrange(i, i + lit.len()) == lit
}

/// Fields of a payload object: id, seconds, nanoseconds and the client's bytes.
pub open spec fn parse_wire(s: Seq<u8>) -> Option<(nat, nat, nat, Seq<u8>)> {
    if !has_lit(s, 0, lit_id()) {
        None
    } else {
        match number_at(s, lit_id().len() as int, usize::MAX as nat) {
            None => None,
            Some((id, i1)) => if !has_lit(s, i1, lit_secs()) {
                None
            } else {
                match number_at(s, i1 + lit_secs().len(), u64::MAX as nat) {
                    None => None,
                    Some((secs, i2)) => if !has_lit(s, i2, lit_nanos()) {
                        None
                    } else {
                        match number_at(s, i2 + lit_nanos().len(), u32::MAX as nat) {
                            None => None,
                            Some((nanos, i3)) => if !has_lit(s, i3, lit_client()) {
                                None
                            } else {
                                match string_body(s, i3 + lit_client().len(), Seq::empty()) {
                                    None => None,
                                    Some((c, i4)) => if i4 + 1 == s.len() && s[i4] == 125 {
                                        Some((id, secs, nanos, c))
                                    } else {
                                        None
                                    },
                                }
                            },
                        }
                    },
                }
            },
        }
    }
}

/// A payload read back: id, seconds, nanoseconds and client text.
pub open spec fn decoded(s: Seq<u8>) -> Option<(nat, nat, nat, Seq<char>)> {
    match parse_wire(s) {
        Some((id, secs, nanos, c)) => if valid_utf8(c) {
            Some((id, secs, nanos, decode_utf8(c)))
        } else {
            None
        },
        None => None,
    }
}

impl TestMessage {
    pub open spec fn wire_bytes(&self) -> Seq<u8> {
        wire(self.id as nat, self.time.secs as nat, self.time.nanos as nat, encode_utf8(self.client@))
    }
}

proof fn lemma_number_in(s: Seq<u8>, i: int, n: nat, max: nat)
    requires
        0 <= i,
        i + decimal(n).len() < s.len(),
        s.subrange(i, i + decimal(n).len()) == decimal(n),
        !is_digit(s[i + decimal(n).len()]),
        n <= max,
    ensures
        number_at(s, i, max) == Some((n, i + decimal(n).len())),
{
    lemma_decimal(n);
    let e = i + decimal(n).len();
    assert forall|k: int| i <= k < e implies is_digit(#[trigger] s[k]) by {
        assert(s.subrange(i, e)[k - i] == decimal(n)[k - i]);
    }
    crate::codec::lemma_digit_run_end_of(s, i, e);
}

/// Reading back the bytes of a payload gives its id, time and client.
#[verifier::rlimit(100)]
#[verifier::spinoff_prover]
pub proof fn lemma_round_trip(m: TestMessage)
    ensures
        decoded(m.wire_bytes()) == Some(
            (m.id as nat, m.time.secs as nat, m.time.nanos as nat, m.client@),
        ),
{
    let c = encode_utf8(m.client@);
    let s = m.wire_bytes();
    let d1 = decimal(m.id as nat);
    let d2 = decimal(m.time.secs as nat);
    let d3 = decimal(m.time.nanos as nat);
    let p1 = lit_id().len() as int;
    let q1 = p1 + d1.len();
    let p2 = q1 + lit_secs().len();
    let q2 = p2 + d2.len();
    let p3 = q2 + lit_nanos().len();
    let q3 = p3 + d3.len();
    let p4 = q3 + lit_client().len();
    let q4 = p4 + escape(c).len();
    assert(s.len() == q4 + 2);
    assert(s.subrange(0, p1) =~= lit_id());
    assert(s.subrange(p1, q1) =~= d1);
    assert(s.subrange(q1, p2) =~= lit_secs());
    assert(s.subrange(p2, q2) =~= d2);
    assert(s.subrange(q2, p3) =~= lit_nanos());
    assert(s.subrange(p3, q3) =~= d3);
    assert(s.subrange(q3, p4) =~= lit_client());
    assert(s.subrange(p4, q4) =~= escape(c));
    assert(s[q1] == 44);
    assert(s[q2] == 44);
    assert(s[q3] == 125);
    assert(s[q4] == 34);
    assert(s[q4 + 1] == 125);
    lemma_number_in(s, p1, m.id as nat, usize::MAX as nat);
    lemma_number_in(s, p2, m.time.secs as nat, u64::MAX as nat);
    lemma_number_in(s, p3, m.time.nanos as nat, u32::MAX as nat);
    lemma_string_body(s, p4, Seq::empty(), c);
    assert(Seq::<u8>::empty() + c =~= c);
    vstd::utf8::encode_utf8_valid_utf8(m.client@);
    vstd::utf8::encode_utf8_decode_utf8(m.client@);
}

pub open spec fn all_ascii(s: Seq<u8>) -> bool {
    forall|i: int| 0 <= i < s.len() ==> #[trigger] s[i] <= 0x7f
}

proof fn lemma_ascii_valid(s: Seq<u8>)
    requires
        all_ascii(s),
    ensures
        valid_utf8(s),
{
    assert(s.subrange(0, 0) =~= Seq::<u8>::empty());
    vstd::utf8::partial_valid_utf8_extend_ascii_block(s, 0, s.len() as int);
    assert(s.subrange(0, s.len() as int) =~= s);
}

proof fn lemma_escape_keeps_high_bytes(s: Seq<u8>)
    requires
        forall|i: int| 0 <= i < s.len() ==> #[trigger] s[i] >= 0x80,
    ensures
        escape(s) == s,
    decreases s.len(),
{
    if s.len() > 0 {
        lemma_escape_keeps_high_bytes(s.drop_last());
        assert(s.drop_last().push(s.last()) =~= s);
        assert(escape_byte(s.last()) =~= seq![s.last()]);
    }
}

proof fn lemma_high_lead(b: u8)
    ensures
        (0x80u8 | b) >= 0x80u8,
        (0xC0u8 | b) >= 0x80u8,
        (0xE0u8 | b) >= 0x80u8,
        (0xF0u8 | b) >= 0x80u8,
{
    assert((0x80u8 | b) >= 0x80u8) by (bit_vector);
    assert((0xC0u8 | b) >= 0x80u8) by (bit_vector);
    assert((0xE0u8 | b) >= 0x80u8) by (bit_vector);
    assert((0xF0u8 | b) >= 0x80u8) by (bit_vector);
}

/// The escaped UTF-8 bytes of any text are themselves UTF-8.
proof fn lemma_escaped_text_valid(c: Seq<char>)
    ensures
        valid_utf8(escape(encode_utf8(c))),
    decreases c.len(),
{
    broadcast use vstd::utf8::valid_utf8_concat;

    if c.len() == 0 {
        assert(escape(encode_utf8(c)) =~= Seq::<u8>::empty());
    } else {
        let v = c[0] as u32;
        let es = encode_scalar(v);
        let rest = encode_utf8(c.drop_first());
        assert(encode_utf8(c) == es + rest);
        lemma_escape_concat(es, rest);
        lemma_escaped_text_valid(c.drop_first());
        if v <= 0x7f {
            let b = (v & 0x7f) as u8;
            assert(b <= 0x7f) by (bit_vector)
                requires
                    b == (v & 0x7f) as u8,
            ;
            assert(es == seq![b]);
            assert(seq![b].drop_last() =~= Seq::<u8>::empty());
            assert(seq![b].last() == b);
            assert(escape(Seq::<u8>::empty()) =~= Seq::<u8>::empty());
            assert(escape(seq![b]) == escape(seq![b].drop_last()) + escape_byte(seq![b].last()));
            assert(escape(es) =~= escape_byte(b));
            lemma_ascii_valid(escape(es));
        } else {
            lemma_high_lead(((v >> 6) & 0x1F) as u8);
            lemma_high_lead(((v >> 12) & 0x0F) as u8);
            lemma_high_lead(((v >> 18) & 0x7) as u8);
            lemma_high_lead((v & 0x3F) as u8);
            lemma_high_lead(((v >> 6) & 0x3F) as u8);
            lemma_high_lead(((v >> 12) & 0x3F) as u8);
            assert(forall|i: int| 0 <= i < es.len() ==> #[trigger] es[i] >= 0x80);
            lemma_escape_keeps_high_bytes(es);
            vstd::utf8::encode_utf8_valid_utf8(seq![c[0]]);
            assert(seq![c[0]].drop_first() =~= Seq::<char>::empty());
            assert(encode_utf8(Seq::<char>::empty()) =~= Seq::<u8>::empty());
            assert(seq![c[0]][0] == c[0]);
            assert(encode_utf8(seq![c[0]]) == encode_scalar(seq![c[0]][0] as u32) + encode_utf8(
                seq![c[0]].drop_first(),
            ));
            assert(encode_utf8(seq![c[0]]) =~= es);
        }
    }
}

proof fn lemma_decimal_ascii(n: nat)
    ensures
        valid_utf8(decimal(n)),
{
    lemma_decimal(n);
    lemma_ascii_valid(decimal(n));
}

/// The bytes of a payload are UTF-8 text.
pub proof fn lemma_wire_valid(m: TestMessage)
    ensures
        valid_utf8(m.wire_bytes()),
{
    broadcast use vstd::utf8::valid_utf8_concat;

    lemma_ascii_valid(lit_id());
    lemma_ascii_valid(lit_secs());
    lemma_ascii_valid(lit_nanos());
    lemma_ascii_valid(lit_client());
    lemma_ascii_valid(lit_end());
    lemma_decimal_ascii(m.id as nat);
    lemma_decimal_ascii(m.time.secs as nat);
    lemma_decimal_ascii(m.time.nanos as nat);
    lemma_escaped_text_valid(m.client@);
    let a1 = lit_id() + decimal(m.id as nat);
    let a2 = a1 + lit_secs();
    let a3 = a2 + decimal(m.time.secs as nat);
    let a4 = a3 + lit_nanos();
    let a5 = a4 + decimal(m.time.nanos as nat);
    let a6 = a5 + lit_client();
    let a7 = a6 + escape(encode_utf8(m.client@));
    vstd::utf8::valid_utf8_concat(lit_id(), decimal(m.id as nat));
    vstd::utf8::valid_utf8_concat(a1, lit_secs());
    vstd::utf8::valid_utf8_concat(a2, decimal(m.time.secs as nat));
    vstd::utf8::valid_utf8_concat(a3, lit_nanos());
    vstd::utf8::valid_utf8_concat(a4, decimal(m.time.nanos as nat));
    vstd::utf8::valid_utf8_concat(a5, lit_client());
    vstd::utf8::valid_utf8_concat(a6, escape(encode_utf8(m.client@)));
    vstd::utf8::valid_utf8_concat(a7, lit_end());
}

fn lit_id_bytes() -> (r: Vec<u8>)
    ensures
        r@ == lit_id(),
{
    let r: Vec<u8> = vec![123u8, 34, 105, 100, 34, 58];
    assert(r@ =~= lit_id());
    r
}

fn lit_secs_bytes() -> (r: Vec<u8>)
    ensures
        r@ == lit_secs(),
{
    let r: Vec<u8> = vec![44u8, 34, 116, 105, 109, 101, 34, 58, 123, 34, 115, 101, 99, 115, 95, 115, 105, 110, 99, 101, 95, 101, 112, 111, 99, 104, 34, 58];
    assert(r@ =~= lit_secs());
    r
}

fn lit_nanos_bytes() -> (r: Vec<u8>)
    ensures
        r@ == lit_nanos(),
{
    let r: Vec<u8> = vec![44u8, 34, 110, 97, 110, 111, 115, 95, 115, 105, 110, 99, 101, 95, 101, 112, 111, 99, 104, 34, 58];
    assert(r@ =~= lit_nanos());
    r
}

fn lit_client_bytes() -> (r: Vec<u8>)
    ensures
        r@ == lit_client(),
{
    let r: Vec<u8> = vec![125u8, 44, 34, 99, 108, 105, 101, 110, 116, 34, 58, 34];
    assert(r@ =~= lit_client());
    r
}

fn lit_end_bytes() -> (r: Vec<u8>)
    ensures
        r@ == lit_end(),
{
    let r: Vec<u8> = vec![34u8, 125];
    assert(r@ =~= lit_end());
    r
}

fn push_bytes(out: &mut Vec<u8>, b: &Vec<u8>)
    ensures
        final(out)@ == old(out)@ + b@,
{
    let mut i: usize = 0;
    while i < b.len()
        invariant
            i <= b@.len(),
            out@ == old(out)@ + b@.subrange(0, i as int),
        decreases b@.len() - i,
    {
        out.push(b[i]);
        assert(out@ =~= old(out)@ + b@.subrange(0, i + 1));
        i = i + 1;
    }
    assert(b@.subrange(0, b@.len() as int) =~= b@);
}

fn expect_lit(s: &[u8], i: usize, lit: &Vec<u8>) -> (r: bool)
    ensures
        r == has_lit(s@, i as int, lit@),
{
    if i > s.len() || s.len() - i < lit.len() {
        return false;
    }
    let mut k: usize = 0;
    while k < lit.len()
        invariant
            i + lit@.len() <= s.len(),
            k <= lit@.len(),
            forall|j: int| 0 <= j < k ==> s@[i + j] == lit@[j],
        decreases lit@.len() - k,
    {
        if s[i + k] != lit[k] {
            assert(s@.subrange(i as int, i + lit@.len())[k as int] != lit@[k as int]);
            return false;
        }
        k = k + 1;
    }
    assert(s@.subrange(i as int, i + lit@.len()) =~= lit@);
    true
}

/// Relies on std's `String::from_utf8`: it succeeds exactly on UTF-8 bytes, and the text is
/// what they encode.
#[verifier::external_body]
fn text_from_bytes(v: Vec<u8>) -> (r: Option<String>)
    ensures
        match r {
            Some(t) => valid_utf8(v@) && t@ == decode_utf8(v@),
            None => !valid_utf8(v@),
        },
{
    String::from_utf8(v).ok()
}

/// Relies on std's `SystemTime::now` and `duration_since`: the time since the Unix epoch, with
/// its fraction of a second below one second, or `None` for a clock set before the epoch.
#[verifier::external_body]
fn now_since_epoch() -> (r: Option<Timestamp>)
    ensures
        r matches Some(t) ==> t.nanos < 1_000_000_000,
{
    match std::time::SystemTime::now().duration_since(std::time::UNIX_EPOCH) {
        Ok(d) => Some(Timestamp { secs: d.as_secs(), nanos: d.subsec_nanos() }),
        Err(_) => None,
    }
}

impl TestMessage {
    /// A payload with sequence number `id` for `client`, stamped with the time now (the epoch
    /// itself when the clock reads earlier).
    pub fn new(id: usize, client: &String) -> (r: TestMessage)
        ensures
            r.id == id,
            r.client@ == client@,
            r.time.nanos < 1_000_000_000,
    {
        let time = match now_since_epoch() {
            Some(t) => t,
            None => Timestamp { secs: 0, nanos: 0 },
        };
        TestMessage { id, client: client.clone(), time }
    }

    /// The payload as the bytes that go on the wire.
    pub fn to_bytes(&self) -> (r: Vec<u8>)
        ensures
            r@ == self.wire_bytes(),
    {
        let mut out: Vec<u8> = Vec::new();
        push_bytes(&mut out, &lit_id_bytes());
        push_decimal(&mut out, self.id as u64);
        push_bytes(&mut out, &lit_secs_bytes());
        push_decimal(&mut out, self.time.secs);
        push_bytes(&mut out, &lit_nanos_bytes());
        push_decimal(&mut out, self.time.nanos as u64);
        push_bytes(&mut out, &lit_client_bytes());
        push_escaped(&mut out, self.client.as_str().as_bytes());
        push_bytes(&mut out, &lit_end_bytes());
        assert(out@ =~= self.wire_bytes());
        out
    }

    /// The payload as text.
    pub fn to_string(&self) -> (r: String)
        ensures
            r@ == decode_utf8(self.wire_bytes()),
    {
        let bytes = self.to_bytes();
        proof {
            lemma_wire_valid(*self);
        }
        match text_from_bytes(bytes) {
            Some(t) => t,
            None => String::new(),
        }
    }

    /// Reads a payload from the bytes of a reply.
    pub fn from_utf8(data: &[u8]) -> (r: Result<TestMessage, DecodeError>)
        ensures
            match r {
                Ok(m) => decoded(data@) == Some(
                    (m.id as nat, m.time.secs as nat, m.time.nanos as nat, m.client@),
                ),
                Err(DecodeError::Malformed) => parse_wire(data@) is None,
                Err(DecodeError::InvalidText) => parse_wire(data@) is Some && decoded(data@) is None,
            },
    {
        let s = data;
        let n = s.len();
        let l1 = lit_id_bytes();
        if !expect_lit(s, 0, &l1) {
            return Err(DecodeError::Malformed);
        }
        let (id, i1) = match read_number(s, l1.len(), usize::MAX as u64) {
            Some(x) => x,
            None => {
                return Err(DecodeError::Malformed);
            },
        };
        let l2 = lit_secs_bytes();
        if !expect_lit(s, i1, &l2) {
            return Err(DecodeError::Malformed);
        }
        let (secs, i2) = match read_number(s, i1 + l2.len(), u64::MAX) {
            Some(x) => x,
            None => {
                return Err(DecodeError::Malformed);
            },
        };
        let l3 = lit_nanos_bytes();
        if !expect_lit(s, i2, &l3) {
            return Err(DecodeError::Malformed);
        }
        let (nanos, i3) = match read_number(s, i2 + l3.len(), u32::MAX as u64) {
            Some(x) => x,
            None => {
                return Err(DecodeError::Malformed);
            },
        };
        let l4 = lit_client_bytes();
        if !expect_lit(s, i3, &l4) {
            return Err(DecodeError::Malformed);
        }
        let (text, i4) = match read_string(s, i3 + l4.len()) {
            Some(x) => x,
            None => {
                return Err(DecodeError::Malformed);
            },
        };
        if !(i4 < s.len() && s.len() - i4 == 1 && s[i4] == 125) {
            return Err(DecodeError::Malformed);
        }
        match text_from_bytes(text) {
            Some(client) => Ok(
                TestMessage {
                    id: id as usize,
                    time: Timestamp { secs, nanos: nanos as u32 },
                    client,
                },
            ),
            None => Err(DecodeError::InvalidText),
        }
    }
}

} // verus!
