//! ICMP Echo Request construction, the RFC 1071 checksum and the parsing of
//! the replies a raw ICMP socket receives (Echo Reply, Time Exceeded,
//! Destination Unreachable).

use vstd::prelude::*;

verus! {

// ─── Specification of the Internet checksum ──────────────────────────────────

/// Sum of the first `k` complete 16-bit big-endian words of `data`.
pub open spec fn pair_sum(data: Seq<u8>, k: nat) -> nat
    decreases k,
{
    if k == 0 {
        0
    } else {
        pair_sum(data, (k - 1) as nat) + data[2 * k - 2] as nat * 256 + data[2 * k - 1] as nat
    }
}

/// Sum of the 16-bit big-endian words of `data`; a trailing odd byte counts
/// as the high byte of a last word.
pub open spec fn word_sum(data: Seq<u8>) -> nat {
    if data.len() % 2 == 1 {
        pair_sum(data, data.len() / 2) + data[data.len() - 1] as nat * 256
    } else {
        pair_sum(data, data.len() / 2)
    }
}

/// One folding step shrinks a value of at least 2^16 and keeps it modulo 2^16 - 1.
pub proof fn lemma_fold_step(x: nat)
    requires
        x >= 0x10000,
    ensures
        x % 0x10000 + x / 0x10000 < x,
        (x % 0x10000 + x / 0x10000) % 0xffff == x % 0xffff,
        x / 0x10000 >= 1,
{
    let q = x / 0x10000;
    let r = x % 0x10000;
    assert(x == 0x10000 * q + r);
    assert(x == 0xffff * q + (q + r));
    vstd::arithmetic::div_mod::lemma_mod_multiples_vanish(q as int, (q + r) as int, 0xffff);
}

/// One's-complement folding of a sum into 16 bits: carries above bit 15 are
/// added back until the value fits.
pub open spec fn fold16(x: nat) -> nat
    decreases x,
{
    if x < 0x10000 {
        x
    } else {
        proof {
            lemma_fold_step(x);
        }
        fold16(x % 0x10000 + x / 0x10000)
    }
}

/// The checksum that the executable checksum computes: the word sum is taken modulo
/// 2^32 (it is accumulated in a wrapping 32-bit register), folded, and
/// complemented.
pub open spec fn internet_checksum(data: Seq<u8>) -> int {
    0xffff - fold16(word_sum(data) % 0x1_0000_0000)
}

proof fn lemma_fold16_props(x: nat)
    ensures
        fold16(x) <= 0xffff,
        fold16(x) % 0xffff == x % 0xffff,
        x > 0 ==> fold16(x) > 0,
    decreases x,
{
    if x >= 0x10000 {
        lemma_fold_step(x);
        lemma_fold16_props(x % 0x10000 + x / 0x10000);
    }
}

proof fn lemma_pair_sum_step(data: Seq<u8>, k: nat)
    requires
        2 * k + 2 <= data.len(),
    ensures
        pair_sum(data, k + 1) == pair_sum(data, k) + data[2 * k as int] as nat * 256 + data[(2 * k
            + 1) as int] as nat,
{
}

// ─── Executable checksum ─────────────────────────────────────────────────────

/// The 16-bit big-endian word made of `hi` and `lo`.
fn be_word(hi: u8, lo: u8) -> (w: u32)
    ensures
        w == hi * 256 + lo,
{
    (hi as u32) * 256 + (lo as u32)
}

/// Word sum of `data`, accumulated with wrapping 32-bit additions.
fn wrapping_word_sum(data: &[u8]) -> (sum: u32)
    ensures
        sum == word_sum(data@) % 0x1_0000_0000,
{
    let mut sum: u32 = 0;
    let mut i: usize = 0;
    while data.len() - i >= 2
        invariant
            i <= data.len(),
            i % 2 == 0,
            sum == pair_sum(data@, (i / 2) as nat) % 0x1_0000_0000,
        decreases data.len() - i,
    {
        let word = be_word(data[i], data[i + 1]);
        proof {
            lemma_pair_sum_step(data@, (i / 2) as nat);
        }
        sum = sum.wrapping_add(word);
        i = i + 2;
    }
    if i < data.len() {
        sum = sum.wrapping_add(be_word(data[i], 0));
    }
    sum
}

/// Folds the carries of `sum` back into 16 bits.
fn fold_carries(sum: u32) -> (r: u16)
    ensures
        r == fold16(sum as nat),
{
    let mut s = sum;
    while s >= 0x10000
        invariant
            fold16(s as nat) == fold16(sum as nat),
        decreases s,
    {
        proof {
            lemma_fold_step(s as nat);
        }
        s = (s % 0x10000) + (s / 0x10000);
    }
    s as u16
}

/// Internet checksum (RFC 1071) of `data`.
pub fn icmp_checksum(data: &[u8]) -> (r: u16)
    ensures
        r == internet_checksum(data@),
{
    let folded = fold_carries(wrapping_word_sum(data));
    0xffff - folded
}

// ─── Echo Request construction ───────────────────────────────────────────────

/// The Echo Request before its checksum is filled in: type 8, code 0, a zero
/// checksum field, identifier and sequence in network order, then the payload
/// bytes 0, 1, 2, … (modulo 256).
pub open spec fn echo_request_template(identifier: u16, sequence: u16, payload_size: nat) -> Seq<
    u8,
> {
    seq![
        8u8,
        0u8,
        0u8,
        0u8,
        (identifier / 256) as u8,
        (identifier % 256) as u8,
        (sequence / 256) as u8,
        (sequence % 256) as u8,
    ] + Seq::new(payload_size, |i: int| (i % 256) as u8)
}

/// The complete Echo Request: the template with its checksum in bytes 2 and 3.
pub open spec fn spec_echo_request(identifier: u16, sequence: u16, payload_size: usize) -> Seq<u8> {
    let t = echo_request_template(identifier, sequence, payload_size as nat);
    let c = internet_checksum(t);
    t.update(2, (c / 256) as u8).update(3, (c % 256) as u8)
}

fn high_byte(x: u16) -> (b: u8)
    ensures
        b == x / 256,
{
    (x / 256) as u8
}

fn low_byte(x: u16) -> (b: u8)
    ensures
        b == x % 256,
{
    (x % 256) as u8
}

/// The Echo Request with a zero checksum field.
fn echo_request_unsummed(identifier: u16, sequence: u16, payload_size: usize) -> (packet: Vec<u8>)
    requires
        payload_size <= usize::MAX - 8,
    ensures
        packet@ == echo_request_template(identifier, sequence, payload_size as nat),
{
    let mut packet: Vec<u8> = Vec::with_capacity(8 + payload_size);
    packet.push(8);
    packet.push(0);
    packet.push(0);
    packet.push(0);
    packet.push(high_byte(identifier));
    packet.push(low_byte(identifier));
    packet.push(high_byte(sequence));
    packet.push(low_byte(sequence));
    let ghost head = packet@;
    let mut i: usize = 0;
    while i < payload_size
        invariant
            i <= payload_size,
            packet@ == head + Seq::new(i as nat, |j: int| (j % 256) as u8),
        decreases payload_size - i,
    {
        packet.push((i % 256) as u8);
        i = i + 1;
        assert(packet@ =~= head + Seq::new(i as nat, |j: int| (j % 256) as u8));
    }
    assert(packet@ =~= echo_request_template(identifier, sequence, payload_size as nat));
    packet
}

/// Builds a complete ICMP Echo Request (type 8, code 0) with its checksum.
pub fn build_icmp_echo_request(identifier: u16, sequence: u16, payload_size: usize) -> (packet: Vec<
    u8,
>)
    requires
        payload_size <= usize::MAX - 8,
    ensures
        packet@ == spec_echo_request(identifier, sequence, payload_size),
{
    let mut packet = echo_request_unsummed(identifier, sequence, payload_size);
    let checksum = icmp_checksum(packet.as_slice());
    packet.set(2, high_byte(checksum));
    packet.set(3, low_byte(checksum));
    packet
}

// ─── Checksum laws ───────────────────────────────────────────────────────────

proof fn lemma_pair_sum_update(data: Seq<u8>, a: u8, b: u8, k: nat)
    requires
        data.len() >= 4,
        2 * k <= data.len(),
    ensures
        pair_sum(data.update(2, a).update(3, b), k) == if k >= 2 {
            pair_sum(data, k) + a * 256 + b - data[2] * 256 - data[3]
        } else {
            pair_sum(data, k) as int
        },
    decreases k,
{
    if k > 0 {
        lemma_pair_sum_update(data, a, b, (k - 1) as nat);
    }
}

proof fn lemma_pair_sum_update_at(data: Seq<u8>, p: int, a: u8, b: u8, k: nat)
    requires
        0 <= p,
        p % 2 == 0,
        p + 1 < data.len(),
        2 * k <= data.len(),
    ensures
        pair_sum(data.update(p, a).update(p + 1, b), k) == if k > p / 2 {
            pair_sum(data, k) + a * 256 + b - data[p] * 256 - data[p + 1]
        } else {
            pair_sum(data, k) as int
        },
    decreases k,
{
    if k > 0 {
        lemma_pair_sum_update_at(data, p, a, b, (k - 1) as nat);
    }
}

proof fn lemma_pair_sum_bound(data: Seq<u8>, k: nat)
    requires
        2 * k <= data.len(),
    ensures
        pair_sum(data, k) <= 0xffff * k,
    decreases k,
{
    if k > 0 {
        lemma_pair_sum_bound(data, (k - 1) as nat);
    }
}

proof fn lemma_word_sum_bound(data: Seq<u8>)
    ensures
        word_sum(data) <= 0xffff * (data.len() / 2) + 0xff00,
{
    lemma_pair_sum_bound(data, data.len() / 2);
}

/// The checksum is a 16-bit value.
pub proof fn lemma_checksum_range(data: Seq<u8>)
    ensures
        0 <= internet_checksum(data) <= 0xffff,
{
    lemma_fold16_props(word_sum(data) % 0x1_0000_0000);
}

/// Writing the checksum of a packet whose checksum field (bytes 2 and 3)
/// is zero into that field gives a packet whose checksum is zero, provided the
/// word sum of the filled packet does not wrap the 32-bit accumulator.
pub proof fn lemma_filled_checksum_is_zero(data: Seq<u8>)
    requires
        data.len() >= 4,
        data[2] == 0,
        data[3] == 0,
        word_sum(data) + 0xffff < 0x1_0000_0000,
    ensures
        ({
            let c = internet_checksum(data);
            internet_checksum(data.update(2, (c / 256) as u8).update(3, (c % 256) as u8)) == 0
        }),
{
    let s = word_sum(data);
    let f = fold16(s);
    lemma_fold16_props(s);
    assert(s % 0x1_0000_0000 == s);
    let c = internet_checksum(data);
    assert(c == 0xffff - f);
    let a = (c / 256) as u8;
    let b = (c % 256) as u8;
    assert(a * 256 + b == c);
    let d = data.update(2, a).update(3, b);
    lemma_pair_sum_update(data, a, b, data.len() / 2);
    assert(word_sum(d) == s + c);
    let s2 = s + c;
    assert(s2 % 0x1_0000_0000 == s2);
    lemma_fold16_props(s2 as nat);
    let r = s % 0xffff;
    assert(s == 0xffff * (s / 0xffff) + r);
    assert(f == 0xffff * (f / 0xffff) + r);
    assert(s2 == 0xffff * (s / 0xffff - f / 0xffff + 1));
    vstd::arithmetic::div_mod::lemma_mod_multiples_basic(s / 0xffff - f / 0xffff + 1, 0xffff);
    assert(s2 % 0xffff == 0);
    assert(s2 > 0);
    assert(fold16(s2 as nat) == 0xffff);
}

/// Writing the checksum of a packet into a zeroed 16-bit field at any even
/// offset `p` gives a packet whose checksum is zero (for packets of at most
/// 65535 bytes, whose word sum cannot wrap the 32-bit accumulator).
pub proof fn lemma_checksum_round_trip_at(data: Seq<u8>, p: int)
    requires
        data.len() <= 65535,
        0 <= p,
        p % 2 == 0,
        p + 1 < data.len(),
        data[p] == 0,
        data[p + 1] == 0,
    ensures
        ({
            let c = internet_checksum(data);
            internet_checksum(data.update(p, (c / 256) as u8).update(p + 1, (c % 256) as u8)) == 0
        }),
{
    lemma_word_sum_bound(data);
    let s = word_sum(data);
    assert(s + 0xffff < 0x1_0000_0000);
    let f = fold16(s);
    lemma_fold16_props(s);
    assert(s % 0x1_0000_0000 == s);
    let c = internet_checksum(data);
    assert(c == 0xffff - f);
    let a = (c / 256) as u8;
    let b = (c % 256) as u8;
    assert(a * 256 + b == c);
    let d = data.update(p, a).update(p + 1, b);
    lemma_pair_sum_update_at(data, p, a, b, data.len() / 2);
    if data.len() % 2 == 1 {
        assert(d[d.len() - 1] == data[data.len() - 1]);
    }
    assert(word_sum(d) == s + c);
    let s2 = s + c;
    assert(s2 % 0x1_0000_0000 == s2);
    lemma_fold16_props(s2 as nat);
    let r = s % 0xffff;
    assert(s == 0xffff * (s / 0xffff) + r);
    assert(f == 0xffff * (f / 0xffff) + r);
    assert(s2 == 0xffff * (s / 0xffff - f / 0xffff + 1));
    vstd::arithmetic::div_mod::lemma_mod_multiples_basic(s / 0xffff - f / 0xffff + 1, 0xffff);
    assert(s2 % 0xffff == 0);
    assert(s2 > 0);
    assert(fold16(s2 as nat) == 0xffff);
}

/// Every Echo Request that `build_icmp_echo_request` produces carries a
/// valid checksum, i.e. its own checksum is zero (payloads up to 131000 bytes,
/// below which the word sum cannot wrap the 32-bit accumulator).
pub proof fn lemma_echo_request_checksum_is_zero(identifier: u16, sequence: u16, payload_size: usize)
    requires
        payload_size <= 131000,
    ensures
        internet_checksum(spec_echo_request(identifier, sequence, payload_size)) == 0,
{
    let t = echo_request_template(identifier, sequence, payload_size as nat);
    lemma_word_sum_bound(t);
    assert(t[2] == 0 && t[3] == 0);
    lemma_filled_checksum_is_zero(t);
}

// ─── Parsing of received packets ─────────────────────────────────────────────

/// What a packet received on the raw socket is, for a probe with a given
/// identifier and sequence.
#[derive(Debug, Clone, Copy, PartialEq, Eq, Structural)]
pub enum ProbeReply {
    /// Echo Reply to our probe: the target was reached.
    EchoReply,
    /// Time Exceeded quoting our probe: an intermediate router answered.
    TimeExceeded,
    /// Destination Unreachable quoting our probe.
    DestUnreachable,
    /// An ICMP packet that does not answer our probe.
    NotForUs,
}

/// Big-endian 16-bit value at `pos`.
pub open spec fn be16_at(data: Seq<u8>, pos: int) -> int {
    data[pos] * 256 + data[pos + 1]
}

/// Classification of the ICMP message that starts at offset `skip`.
pub open spec fn response_at(data: Seq<u8>, skip: int, expect_id: u16, expect_seq: u16) -> ProbeReply {
    let kind = data[skip];
    if kind == 0 {
        if be16_at(data, skip + 4) == expect_id && be16_at(data, skip + 6) == expect_seq {
            ProbeReply::EchoReply
        } else {
            ProbeReply::NotForUs
        }
    } else if kind == 11 || kind == 3 {
        if data.len() - skip < 36 {
            ProbeReply::NotForUs
        } else if be16_at(data, skip + 32) == expect_id && be16_at(data, skip + 34) == expect_seq {
            if kind == 11 {
                ProbeReply::TimeExceeded
            } else {
                ProbeReply::DestUnreachable
            }
        } else {
            ProbeReply::NotForUs
        }
    } else {
        ProbeReply::NotForUs
    }
}

/// A raw socket hands over the IP header (20 bytes) before the ICMP message on
/// most systems, the bare ICMP message on some: both offsets are tried, 20
/// first, then 0 when the message at offset 20 is not an answer to the probe
/// (or the packet is too short for it). The answer to the probe found at
/// either offset is returned; a packet long enough for one offset but
/// answering at neither is `NotForUs`; packets too short for both are not ICMP
/// answers.
pub open spec fn spec_parse_reply(data: Seq<u8>, expect_id: u16, expect_seq: u16) -> Option<
    ProbeReply,
> {
    let at20 = if data.len() >= 28 {
        response_at(data, 20, expect_id, expect_seq)
    } else {
        ProbeReply::NotForUs
    };
    if at20 != ProbeReply::NotForUs {
        Some(at20)
    } else if data.len() >= 8 {
        Some(response_at(data, 0, expect_id, expect_seq))
    } else {
        None
    }
}

fn be16_at_exec(data: &[u8], pos: usize) -> (v: u16)
    requires
        pos + 1 < data.len(),
    ensures
        v == be16_at(data@, pos as int),
{
    (data[pos] as u16) * 256 + (data[pos + 1] as u16)
}

fn response_at_exec(data: &[u8], skip: usize, expect_id: u16, expect_seq: u16) -> (r: ProbeReply)
    requires
        skip + 8 <= data.len(),
    ensures
        r == response_at(data@, skip as int, expect_id, expect_seq),
{
    let kind = data[skip];
    if kind == 0 {
        if be16_at_exec(data, skip + 4) == expect_id && be16_at_exec(data, skip + 6) == expect_seq {
            ProbeReply::EchoReply
        } else {
            ProbeReply::NotForUs
        }
    } else if kind == 11 || kind == 3 {
        if data.len() - skip < 36 {
            ProbeReply::NotForUs
        } else if be16_at_exec(data, skip + 32) == expect_id && be16_at_exec(data, skip + 34)
            == expect_seq {
            if kind == 11 {
                ProbeReply::TimeExceeded
            } else {
                ProbeReply::DestUnreachable
            }
        } else {
            ProbeReply::NotForUs
        }
    } else {
        ProbeReply::NotForUs
    }
}

/// Classifies a packet received on the raw ICMP socket for the probe
/// `(expect_id, expect_seq)`.
pub fn parse_icmp_response(data: &[u8], expect_id: u16, expect_seq: u16) -> (r: Option<ProbeReply>)
    ensures
        r == spec_parse_reply(data@, expect_id, expect_seq),
{
    if data.len() >= 28 {
        let at20 = response_at_exec(data, 20, expect_id, expect_seq);
        if at20 != ProbeReply::NotForUs {
            return Some(at20);
        }
    }
    if data.len() >= 8 {
        Some(response_at_exec(data, 0, expect_id, expect_seq))
    } else {
        None
    }
}

/// The 16-bit big-endian word at `p`, from the bytes themselves.
pub open spec fn word_at(data: Seq<u8>, p: int) -> int {
    256 * data[p] + data[p + 1]
}

/// The ICMP message at offset `k` answers the probe `(id, seq)` with type
/// `t`: an Echo Reply (type 0) carries the probe's identifier and sequence
/// at bytes 4-7; a Time Exceeded (11) or Destination Unreachable (3), long
/// enough to quote the probe (its 8-byte header after a 20-byte IP header),
/// carries them at bytes 32-35.
pub open spec fn answers_at(data: Seq<u8>, k: int, t: u8, id: u16, seq: u16) -> bool {
    &&& k + 8 <= data.len()
    &&& data[k] == t
    &&& if t == 0 {
        word_at(data, k + 4) == id && word_at(data, k + 6) == seq
    } else {
        k + 36 <= data.len() && word_at(data, k + 32) == id && word_at(data, k + 34) == seq
    }
}

/// The message at offset 20 is of no kind that can answer a probe (or the
/// packet is too short to hold one there).
pub open spec fn no_answer_kind_at_20(data: Seq<u8>) -> bool {
    data.len() < 28 || (data[20] != 0 && data[20] != 3 && data[20] != 11)
}

/// How a received packet is classified for the probe `(id, seq)`: an answer
/// of each kind after a 20-byte IP header is recognised as that kind; so is a
/// bare answer (no IP header) when nothing at offset 20 can be one; a kind is
/// reported only for a packet that carries such an answer at offset 20 or 0;
/// packets shorter than 8 bytes are no ICMP answer at all.
pub proof fn lemma_reply_classification(data: Seq<u8>, id: u16, seq: u16)
    ensures
        answers_at(data, 20, 0, id, seq) ==> spec_parse_reply(data, id, seq) == Some(ProbeReply::EchoReply),
        answers_at(data, 20, 11, id, seq) ==> spec_parse_reply(data, id, seq) == Some(ProbeReply::TimeExceeded),
        answers_at(data, 20, 3, id, seq) ==> spec_parse_reply(data, id, seq) == Some(ProbeReply::DestUnreachable),
        no_answer_kind_at_20(data) && answers_at(data, 0, 0, id, seq) ==> spec_parse_reply(data, id, seq) == Some(
            ProbeReply::EchoReply,
        ),
        no_answer_kind_at_20(data) && answers_at(data, 0, 11, id, seq) ==> spec_parse_reply(data, id, seq) == Some(
            ProbeReply::TimeExceeded,
        ),
        no_answer_kind_at_20(data) && answers_at(data, 0, 3, id, seq) ==> spec_parse_reply(data, id, seq) == Some(
            ProbeReply::DestUnreachable,
        ),
        spec_parse_reply(data, id, seq) == Some(ProbeReply::EchoReply) ==> answers_at(data, 20, 0, id, seq)
            || answers_at(data, 0, 0, id, seq),
        spec_parse_reply(data, id, seq) == Some(ProbeReply::TimeExceeded) ==> answers_at(data, 20, 11, id, seq)
            || answers_at(data, 0, 11, id, seq),
        spec_parse_reply(data, id, seq) == Some(ProbeReply::DestUnreachable) ==> answers_at(data, 20, 3, id, seq)
            || answers_at(data, 0, 3, id, seq),
        data.len() < 8 <==> spec_parse_reply(data, id, seq) is None,
{
}

/// The layout of an Echo Request: 8 header bytes then the payload; type 8,
/// code 0, the identifier and the sequence number big-endian in bytes 4-7,
/// payload byte `k` equal to `k mod 256`, and bytes 2-3 holding the
/// checksum of the packet with those bytes zeroed.
pub proof fn lemma_echo_request_layout(identifier: u16, sequence: u16, payload_size: usize)
    ensures
        ({
            let p = spec_echo_request(identifier, sequence, payload_size);
            &&& p.len() == 8 + payload_size
            &&& p[0] == 8 && p[1] == 0
            &&& word_at(p, 4) == identifier && word_at(p, 6) == sequence
            &&& forall|k: int| 0 <= k < payload_size ==> #[trigger] p[8 + k] == k % 256
            &&& word_at(p, 2) == internet_checksum(p.update(2, 0).update(3, 0))
        }),
{
    let t = echo_request_template(identifier, sequence, payload_size as nat);
    let p = spec_echo_request(identifier, sequence, payload_size);
    lemma_checksum_range(t);
    assert(p.update(2, 0).update(3, 0) =~= t);
    assert forall|k: int| 0 <= k < payload_size implies #[trigger] p[8 + k] == k % 256 by {
        assert(p[8 + k] == t[8 + k]);
    }
}

/// The checksum is the one's complement of the one's-complement sum of the
/// 16-bit big-endian words: a 16-bit value that, added to that word sum,
/// gives a multiple of 0xffff (for packets of at most 65535 bytes, whose sum
/// cannot wrap the 32-bit accumulator), and that is 0xffff exactly when the
/// word sum is 0.
pub proof fn lemma_checksum_complements_sum(data: Seq<u8>)
    requires
        data.len() <= 65535,
    ensures
        0 <= internet_checksum(data) <= 0xffff,
        (word_sum(data) + internet_checksum(data)) % 0xffff == 0,
        internet_checksum(data) == 0xffff <==> word_sum(data) == 0,
{
    lemma_word_sum_bound(data);
    let s = word_sum(data);
    assert(s % 0x1_0000_0000 == s);
    lemma_fold16_props(s);
    let f = fold16(s);
    let r = s % 0xffff;
    assert(s == 0xffff * (s / 0xffff) + r);
    assert(f == 0xffff * (f / 0xffff) + r);
    assert(s + (0xffff - f) == 0xffff * (s / 0xffff - f / 0xffff + 1));
    vstd::arithmetic::div_mod::lemma_mod_multiples_basic(s / 0xffff - f / 0xffff + 1, 0xffff);
    if s == 0 {
        assert(fold16(0) == 0);
    }
}

} // verus!
