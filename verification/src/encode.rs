//! Building outbound query packets: wire encoding of names and single-question
//! messages, stream framing, and the public query builder.

use vstd::prelude::*;
use vstd::string::StringSliceAdditionalSpecFns;
use rand::Rng;
use rand::SeedableRng;
use crate::name::{label_ok, labels_of, parse_domain_name, valid_hostname_bytes, valid_labels};
use crate::types::{DnsError, DnsName};

verus! {

/// The two big-endian bytes of a 16-bit value.
pub open spec fn spec_u16_be(v: u16) -> Seq<u8> {
    seq![(v / 256) as u8, (v % 256) as u8]
}

/// The wire bytes of a label sequence: each label preceded by its length,
/// without the root terminator.
pub open spec fn spec_labels_bytes(ls: Seq<Seq<u8>>) -> Seq<u8>
    decreases ls.len(),
{
    if ls.len() == 0 {
        Seq::empty()
    } else {
        seq![ls[0].len() as u8] + ls[0] + spec_labels_bytes(ls.drop_first())
    }
}

/// The wire bytes of a whole name: its labels followed by the root terminator.
pub open spec fn spec_encode_name(ls: Seq<Seq<u8>>) -> Seq<u8> {
    spec_labels_bytes(ls) + seq![0u8]
}

/// The wire bytes of a single-question query message: a 12-byte header with
/// transaction id `id`, opcode 0, message type query, recursion desired, and
/// response code 0, then one question with the given name and record type in
/// the Internet class.
pub open spec fn spec_encode_query(id: u16, ls: Seq<Seq<u8>>, qtype: u16) -> Seq<u8> {
    spec_u16_be(id) + seq![1u8, 0u8]
        + spec_u16_be(1) + spec_u16_be(0) + spec_u16_be(0) + spec_u16_be(0)
        + spec_encode_name(ls) + spec_u16_be(qtype) + spec_u16_be(1)
}

/// The bytes `build_dns_query` produces for transaction id `id`: the encoded
/// query, length-prefixed when stream framing is requested.
pub open spec fn spec_query_bytes(id: u16, ls: Seq<Seq<u8>>, qtype: u16, framed: bool) -> Seq<u8> {
    let m = spec_encode_query(id, ls, qtype);
    if framed {
        spec_u16_be(m.len() as u16) + m
    } else {
        m
    }
}

pub proof fn lemma_labels_bytes_concat(a: Seq<Seq<u8>>, b: Seq<Seq<u8>>)
    ensures
        spec_labels_bytes(a + b) == spec_labels_bytes(a) + spec_labels_bytes(b),
    decreases a.len(),
{
    if a.len() == 0 {
        assert(a + b =~= b);
        assert(spec_labels_bytes(a + b) =~= spec_labels_bytes(a) + spec_labels_bytes(b));
    } else {
        lemma_labels_bytes_concat(a.drop_first(), b);
        assert((a + b).drop_first() =~= a.drop_first() + b);
        assert((a + b)[0] == a[0]);
        assert(spec_labels_bytes(a + b) =~= spec_labels_bytes(a) + spec_labels_bytes(b));
    }
}

pub proof fn lemma_labels_bytes_push(ls: Seq<Seq<u8>>, l: Seq<u8>)
    ensures
        spec_labels_bytes(ls.push(l)) == spec_labels_bytes(ls) + seq![l.len() as u8] + l,
{
    lemma_labels_bytes_concat(ls, seq![l]);
    assert(ls.push(l) =~~= ls + seq![l]);
    assert(seq![l].len() == 1 && seq![l][0] == l);
    assert(seq![l].drop_first() =~~= Seq::<Seq<u8>>::empty());
    assert(spec_labels_bytes(Seq::<Seq<u8>>::empty()) == Seq::<u8>::empty());
    assert(spec_labels_bytes(seq![l]) =~= seq![l.len() as u8] + l);
    assert(spec_labels_bytes(ls.push(l)) =~= spec_labels_bytes(ls) + seq![l.len() as u8] + l);
}

fn push_u16_be(buf: &mut Vec<u8>, v: u16)
    ensures
        final(buf)@ == old(buf)@ + spec_u16_be(v),
{
    buf.push((v / 256) as u8);
    buf.push((v % 256) as u8);
    assert(buf@ =~= old(buf)@ + spec_u16_be(v));
}

/// Encodes a single-question query message with a caller-chosen transaction
/// id: deterministic, so its bytes are exactly `spec_encode_query`.
#[verifier::loop_isolation(false)]
pub fn encode_query_with_id(id: u16, name: &DnsName, qtype: u16) -> (r: Vec<u8>)
    requires
        valid_labels(name@),
    ensures
        r@ == spec_encode_query(id, name@, qtype),
        r@.len() <= 271,
{
    let mut buf: Vec<u8> = Vec::new();
    push_u16_be(&mut buf, id);
    buf.push(1u8);
    buf.push(0u8);
    push_u16_be(&mut buf, 1);
    push_u16_be(&mut buf, 0);
    push_u16_be(&mut buf, 0);
    push_u16_be(&mut buf, 0);
    let ghost header = buf@;
    let k = name.labels.len();
    let mut i: usize = 0;
    while i < k
        invariant
            i <= k,
            k == name.labels.len(),
            valid_labels(name@),
            buf@ == header + spec_labels_bytes(name@.take(i as int)),
            buf@.len() <= 12 + 254,
        decreases k - i,
    {
        let lab = &name.labels[i];
        proof {
            assert(lab@ =~= name@[i as int]);
            assert(label_ok(name@[i as int]));
            lemma_labels_bytes_push(name@.take(i as int), name@[i as int]);
            assert(name@.take(i + 1) =~~= name@.take(i as int).push(name@[i as int]));
            lemma_labels_bytes_take_len(name@, i + 1);
        }
        buf.push(lab.len() as u8);
        let m = lab.len();
        let mut j: usize = 0;
        while j < m
            invariant
                j <= m,
                i < k == name.labels.len(),
                m == lab.len(),
                lab@ == name@[i as int],
                buf@ == header + spec_labels_bytes(name@.take(i as int))
                    + seq![m as u8] + lab@.take(j as int),
                buf@.len() <= 12 + 255,
            decreases m - j,
        {
            buf.push(lab[j]);
            proof {
                assert(lab@.take(j + 1) =~= lab@.take(j as int).push(lab@[j as int]));
                assert(buf@ =~= header + spec_labels_bytes(name@.take(i as int))
                    + seq![m as u8] + lab@.take(j + 1));
            }
            j += 1;
        }
        proof {
            assert(lab@.take(m as int) =~= lab@);
            assert(buf@ =~= header + spec_labels_bytes(name@.take(i + 1)));
        }
        i += 1;
    }
    proof {
        assert(name@.take(k as int) =~= name@);
    }
    buf.push(0u8);
    push_u16_be(&mut buf, qtype);
    push_u16_be(&mut buf, 1);
    assert(buf@ =~= spec_encode_query(id, name@, qtype));
    buf
}

/// The wire length of a prefix of a valid name stays within the name bound.
pub proof fn lemma_labels_bytes_take_len(ls: Seq<Seq<u8>>, i: int)
    requires
        0 <= i <= ls.len(),
        spec_labels_bytes(ls).len() <= 254,
    ensures
        spec_labels_bytes(ls.take(i)).len() <= 254,
{
    lemma_labels_bytes_concat(ls.take(i), ls.skip(i));
    assert(ls.take(i) + ls.skip(i) =~= ls);
}

/// Prepends the 2-byte big-endian length prefix required on stream
/// transports. Succeeds exactly when the message fits the 16-bit prefix.
#[verifier::loop_isolation(false)]
pub fn frame_message(payload: &Vec<u8>) -> (r: Result<Vec<u8>, DnsError>)
    ensures
        match r {
            Ok(b) => payload@.len() <= 65535
                && b@ == spec_u16_be(payload@.len() as u16) + payload@,
            Err(e) => e == DnsError::MessageTooLarge && payload@.len() > 65535,
        },
{
    if payload.len() > 65535 {
        return Err(DnsError::MessageTooLarge);
    }
    let len = payload.len() as u16;
    let mut buf: Vec<u8> = Vec::new();
    push_u16_be(&mut buf, len);
    let n = payload.len();
    let mut i: usize = 0;
    while i < n
        invariant
            i <= n,
            n == payload.len(),
            buf@ == spec_u16_be(n as u16) + payload@.take(i as int),
        decreases n - i,
    {
        buf.push(payload[i]);
        proof {
            assert(payload@.take(i + 1) =~= payload@.take(i as int).push(payload@[i as int]));
            assert(buf@ =~= spec_u16_be(n as u16) + payload@.take(i + 1));
        }
        i += 1;
    }
    proof {
        assert(payload@.take(n as int) =~= payload@);
    }
    Ok(buf)
}

/// Relies on `rand::rngs::StdRng` (`from_entropy`, `Rng::gen`): returns a
/// fresh pseudo-random 16-bit transaction id; nothing is promised of its
/// value.
#[verifier::external_body]
fn random_transaction_id() -> u16 {
    rand::rngs::StdRng::from_entropy().gen()
}

/// Builds an outbound query packet for the given hostname and record type:
/// a single-question query message with a random transaction id, length-
/// prefixed when the transport is a stream (`used_by_tcp`).
///
/// Succeeds exactly on syntactically valid hostnames; a query message never
/// exceeds the stream frame limit, so no other failure is possible.
pub fn build_dns_query(domain: &str, query_type: u16, used_by_tcp: bool) -> (r: Result<
    Vec<u8>,
    DnsError,
>)
    ensures
        match r {
            Ok(buf) => valid_hostname_bytes(domain.spec_bytes()) && exists|id: u16|
                buf@ == spec_query_bytes(
                    id,
                    labels_of(domain.spec_bytes()),
                    query_type,
                    used_by_tcp,
                ),
            Err(e) => e == DnsError::InvalidDomainName
                && !valid_hostname_bytes(domain.spec_bytes()),
        },
{
    let name = match parse_domain_name(domain) {
        Ok(n) => n,
        Err(e) => {
            return Err(e);
        },
    };
    let id = random_transaction_id();
    let msg = encode_query_with_id(id, &name, query_type);
    if used_by_tcp {
        match frame_message(&msg) {
            Ok(framed) => {
                proof {
                    assert(framed@ == spec_query_bytes(
                        id,
                        labels_of(domain.spec_bytes()),
                        query_type,
                        true,
                    ));
                }
                Ok(framed)
            },
            Err(e) => Err(e),
        }
    } else {
        proof {
            assert(msg@ == spec_query_bytes(
                id,
                labels_of(domain.spec_bytes()),
                query_type,
                false,
            ));
        }
        Ok(msg)
    }
}

} // verus!
