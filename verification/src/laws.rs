//! Laws relating the codec operations, proved once and for all inputs:
//! encode/decode round-tripping, framing idempotence, truncation detection,
//! and the precedence rules of the address extractor.

use vstd::prelude::*;
use crate::decode::{
    be16, spec_decode, spec_decode_message, spec_parse_name, spec_parse_question,
    spec_parse_questions, spec_parse_records, MAX_NAME_JUMPS,
};
use crate::encode::{
    spec_encode_name, spec_encode_query, spec_labels_bytes, spec_u16_be,
};
use crate::extract::{
    alias_name, first_address, last_alias, rdata_address, spec_extract_address,
    SpecExtractOutcome,
};
use crate::name::{label_ok, valid_labels};
use crate::types::{DnsError, MessageType, SpecMessage, SpecQuestion, SpecRecord};

verus! {

/// Reading back the two big-endian bytes of a 16-bit value recovers it.
pub proof fn lemma_be16_round(v: u16)
    ensures
        be16(spec_u16_be(v)[0], spec_u16_be(v)[1]) == v,
{
    assert(v as int == (v as int / 256) * 256 + (v as int % 256)) by {
        vstd::arithmetic::div_mod::lemma_fundamental_div_mod(v as int, 256);
    }
}

/// A name encoded at `pos` parses back to exactly its labels, ending right
/// after its root terminator, whatever the rest of the buffer holds.
pub proof fn lemma_parse_encoded_name(data: Seq<u8>, pos: int, labels: Seq<Seq<u8>>, jumps: nat)
    requires
        forall|i: int| 0 <= i < labels.len() ==> 1 <= (#[trigger] labels[i]).len() <= 63,
        0 <= pos,
        pos + spec_encode_name(labels).len() <= data.len(),
        data.subrange(pos, pos + spec_encode_name(labels).len()) == spec_encode_name(labels),
    ensures
        spec_parse_name(data, pos, jumps) == Some(
            (labels, pos + spec_encode_name(labels).len()),
        ),
    decreases labels.len(),
{
    let enc = spec_encode_name(labels);
    assert(forall|k: int| 0 <= k < enc.len() ==> data[pos + k] == enc[k]) by {
        assert(forall|k: int| #![trigger enc[k]]
            0 <= k < enc.len() ==> data.subrange(pos, pos + enc.len())[k] == data[pos + k]);
    }
    if labels.len() == 0 {
        assert(spec_labels_bytes(labels) =~= Seq::<u8>::empty());
        assert(enc =~= seq![0u8]);
        assert(enc[0] == 0u8);
        assert(data[pos] == enc[0]);
        assert(labels =~= Seq::<Seq<u8>>::empty());
        assert(spec_parse_name(data, pos, jumps) == Some((labels, pos + enc.len())));
    } else {
        let l0 = labels[0];
        let rest = labels.drop_first();
        let enc_rest = spec_encode_name(rest);
        assert(spec_labels_bytes(labels) == seq![l0.len() as u8] + l0 + spec_labels_bytes(rest));
        assert(enc =~= seq![l0.len() as u8] + l0 + enc_rest);
        assert(enc[0] == l0.len() as u8);
        assert(data[pos] == enc[0]);
        let b = data[pos];
        assert(b as int == l0.len());
        assert(b != 0 && b < 64);
        assert(enc.len() == 1 + l0.len() + enc_rest.len());
        assert(pos + 1 + b <= data.len());
        assert(data.subrange(pos + 1, pos + 1 + b) =~= l0) by {
            assert(forall|k: int| #![trigger l0[k]] 0 <= k < l0.len()
                ==> data[pos + 1 + k] == enc[1 + k] && enc[1 + k] == l0[k]);
        }
        let pos2 = pos + 1 + l0.len();
        assert(data.subrange(pos2, pos2 + enc_rest.len()) =~= enc_rest) by {
            assert(forall|k: int| #![trigger enc_rest[k]] 0 <= k < enc_rest.len()
                ==> data[pos2 + k] == enc[1 + l0.len() + k]
                    && enc[1 + l0.len() + k] == enc_rest[k]);
        }
        assert(forall|i: int| 0 <= i < rest.len() ==> 1 <= (#[trigger] rest[i]).len() <= 63)
            by {
            assert(forall|i: int| 0 <= i < rest.len() ==> rest[i] == labels[i + 1]);
        }
        lemma_parse_encoded_name(data, pos2, rest, jumps);
        assert(spec_parse_name(data, pos + 1 + b, jumps) == Some(
            (rest, pos2 + enc_rest.len()),
        ));
        assert(seq![data.subrange(pos + 1, pos + 1 + b)] + rest =~~= labels);
        assert(pos2 + enc_rest.len() == pos + enc.len());
        assert(spec_parse_name(data, pos, jumps) == Some((labels, pos + enc.len())));
    }
}

/// Round trip: an encoded single-question query decodes (unframed) to
/// exactly the message that was encoded — same transaction id, a query with
/// recursion desired and response code zero, one question carrying the
/// encoded name and record type, and no answers.
pub proof fn lemma_encode_decode_round_trip(id: u16, labels: Seq<Seq<u8>>, qtype: u16)
    requires
        valid_labels(labels),
    ensures
        spec_decode(spec_encode_query(id, labels, qtype), false) == Ok::<SpecMessage, DnsError>(
            SpecMessage {
                id,
                message_type: MessageType::Query,
                op_code: 0,
                recursion_desired: true,
                response_code: 0,
                queries: seq![SpecQuestion { name: labels, qtype }],
                answers: Seq::empty(),
            },
        ),
{
    let data = spec_encode_query(id, labels, qtype);
    let enc = spec_encode_name(labels);
    let hdr = spec_u16_be(id) + seq![1u8, 0u8] + spec_u16_be(1) + spec_u16_be(0) + spec_u16_be(0)
        + spec_u16_be(0);
    assert(hdr.len() == 12);
    assert(data =~= hdr + enc + spec_u16_be(qtype) + spec_u16_be(1));
    assert(data.len() == 12 + enc.len() + 4);
    assert(data[0] == (id / 256) as u8 && data[1] == (id % 256) as u8);
    assert(data[2] == 1u8 && data[3] == 0u8);
    assert(data[4] == 0u8 && data[5] == 1u8);
    assert(data[6] == 0u8 && data[7] == 0u8);
    assert(data[8] == 0u8 && data[9] == 0u8);
    assert(data[10] == 0u8 && data[11] == 0u8);
    lemma_be16_round(id);
    assert(be16(data[0], data[1]) == id);
    assert(be16(data[4], data[5]) == 1);
    assert(be16(data[6], data[7]) == 0);
    assert(be16(data[8], data[9]) == 0);
    assert(be16(data[10], data[11]) == 0);

    assert(forall|i: int| 0 <= i < labels.len() ==> 1 <= (#[trigger] labels[i]).len() <= 63)
        by {
        assert(forall|i: int| 0 <= i < labels.len() ==> label_ok(#[trigger] labels[i]));
    }
    let qend: int = 12 + enc.len() as int;
    assert(data.subrange(12, qend) =~= enc) by {
        assert(forall|k: int| #![trigger enc[k]] 0 <= k < enc.len() ==> data[12 + k] == enc[k]);
    }
    lemma_parse_encoded_name(data, 12, labels, MAX_NAME_JUMPS as nat);
    assert(spec_parse_name(data, 12, MAX_NAME_JUMPS as nat) == Some((labels, qend)));
    assert(data[qend] == (qtype / 256) as u8 && data[qend + 1] == (qtype % 256) as u8);
    lemma_be16_round(qtype);
    assert(be16(data[qend], data[qend + 1]) == qtype);
    assert(qend + 4 <= data.len());
    let q = SpecQuestion { name: labels, qtype };
    assert(spec_parse_question(data, 12) == Some((q, qend + 4)));
    assert(spec_parse_questions(data, qend + 4, 0) == Some(
        (Seq::<SpecQuestion>::empty(), qend + 4),
    ));
    assert(seq![q] + Seq::<SpecQuestion>::empty() =~= seq![q]);
    assert(spec_parse_questions(data, 12, 1) == Some((seq![q], qend + 4)));
    assert(spec_parse_records(data, qend + 4, 0) == Some(
        (Seq::<SpecRecord>::empty(), qend + 4),
    ));
    assert(qend + 4 == data.len());
    assert(spec_decode_message(data) == Ok::<SpecMessage, DnsError>(
        SpecMessage {
            id,
            message_type: MessageType::Query,
            op_code: 0,
            recursion_desired: true,
            response_code: 0,
            queries: seq![q],
            answers: Seq::empty(),
        },
    ));
}

/// Framing idempotence: a message wrapped in its exact length prefix decodes
/// on a stream transport to whatever it decodes to on a datagram transport.
pub proof fn lemma_framing_idempotent(msg: Seq<u8>)
    requires
        msg.len() <= 65535,
    ensures
        spec_decode(spec_u16_be(msg.len() as u16) + msg, true) == spec_decode(msg, false),
{
    let framed = spec_u16_be(msg.len() as u16) + msg;
    assert(framed.len() == 2 + msg.len());
    lemma_be16_round(msg.len() as u16);
    assert(framed[0] == spec_u16_be(msg.len() as u16)[0]);
    assert(framed[1] == spec_u16_be(msg.len() as u16)[1]);
    assert(be16(framed[0], framed[1]) == msg.len() as u16);
    assert(framed.subrange(2, 2 + msg.len() as int) =~= msg);
}

/// Truncation detection: a well-formed 2-byte length prefix followed by
/// fewer than the declared number of bytes always decodes to
/// `TruncatedFrame`, never to a partial parse.
pub proof fn lemma_truncation_detected(declared: u16, payload: Seq<u8>)
    requires
        payload.len() < declared,
    ensures
        spec_decode(spec_u16_be(declared) + payload, true) == Err::<SpecMessage, DnsError>(
            DnsError::TruncatedFrame,
        ),
{
    let framed = spec_u16_be(declared) + payload;
    assert(framed.len() == 2 + payload.len());
    lemma_be16_round(declared);
    assert(framed[0] == spec_u16_be(declared)[0]);
    assert(framed[1] == spec_u16_be(declared)[1]);
    assert(be16(framed[0], framed[1]) == declared);
}

/// An answer sequence has no address exactly when no record of it carries
/// an address payload.
pub proof fn lemma_first_address_none(s: Seq<SpecRecord>)
    ensures
        first_address(s) is None <==> (forall|k: int|
            0 <= k < s.len() ==> rdata_address(#[trigger] s[k].data) is None),
    decreases s.len(),
{
    if s.len() == 0 {
    } else {
        let d = s.drop_first();
        lemma_first_address_none(d);
        if first_address(s) is None {
            assert(rdata_address(s[0].data) is None);
            assert(first_address(d) is None);
            assert forall|k: int| 0 <= k < s.len() implies rdata_address(
                #[trigger] s[k].data,
            ) is None by {
                if k > 0 {
                    assert(d[k - 1] == s[k]);
                    assert(rdata_address(d[k - 1].data) is None);
                }
            }
        } else {
            if rdata_address(s[0].data) is None {
                assert(first_address(d) is Some);
                if forall|k: int| 0 <= k < s.len() ==> rdata_address(
                    #[trigger] s[k].data,
                ) is None {
                    assert forall|k: int| 0 <= k < d.len() implies rdata_address(
                        #[trigger] d[k].data,
                    ) is None by {
                        assert(d[k] == s[k + 1]);
                        assert(rdata_address(s[k + 1].data) is None);
                    }
                    assert(first_address(d) is None);
                    assert(false);
                }
            }
        }
    }
}

/// The alias an answer scan remembers is the last alias record, whatever
/// stands before it.
pub proof fn lemma_last_alias_at(s: Seq<SpecRecord>, i: int)
    requires
        0 <= i < s.len(),
        s[i].data is CName,
        forall|k: int| i < k < s.len() ==> !((#[trigger] s[k].data) is CName),
    ensures
        last_alias(s) == Some(alias_name(s[i].data)),
    decreases s.len(),
{
    if i == s.len() - 1 {
    } else {
        assert(!(s.last().data is CName));
        assert(forall|k: int| #![trigger s.drop_last()[k]]
            0 <= k < s.drop_last().len() ==> s.drop_last()[k] == s[k]);
        lemma_last_alias_at(s.drop_last(), i);
    }
}

/// Response-code precedence: a message whose response code reports a server
/// failure yields `ProtocolError`, never an address, whatever its answers.
pub proof fn lemma_response_code_precedence(m: SpecMessage)
    requires
        m.response_code != 0,
    ensures
        spec_extract_address(m) == SpecExtractOutcome::Protocol(m.response_code),
{
}

/// Alias precedence: when an alias answer is followed by an address answer,
/// extraction yields the first address of the scan, not `UnresolvedAlias`.
pub proof fn lemma_alias_then_address(m: SpecMessage, i: int, j: int)
    requires
        m.response_code == 0,
        0 <= i < j < m.answers.len(),
        m.answers[i].data is CName,
        rdata_address(m.answers[j].data) is Some,
    ensures
        match spec_extract_address(m) {
            SpecExtractOutcome::Address(a) => first_address(m.answers) == Some(a),
            _ => false,
        },
{
    lemma_first_address_none(m.answers);
    assert(first_address(m.answers) is Some);
}

/// Alias-only case: when the answers hold exactly one alias and no address,
/// extraction yields `UnresolvedAlias` of that alias's name.
pub proof fn lemma_alias_only(m: SpecMessage, i: int)
    requires
        m.response_code == 0,
        0 <= i < m.answers.len(),
        m.answers[i].data is CName,
        forall|k: int| 0 <= k < m.answers.len() && k != i
            ==> !((#[trigger] m.answers[k].data) is CName),
        forall|k: int| 0 <= k < m.answers.len()
            ==> rdata_address(#[trigger] m.answers[k].data) is None,
    ensures
        spec_extract_address(m) == SpecExtractOutcome::Alias(alias_name(m.answers[i].data)),
{
    lemma_first_address_none(m.answers);
    lemma_last_alias_at(m.answers, i);
}

/// Empty-answer case: a no-error response with no answers at all yields
/// `NoUsableAnswer`.
pub proof fn lemma_no_usable_answer(m: SpecMessage)
    requires
        m.response_code == 0,
        m.answers.len() == 0,
    ensures
        spec_extract_address(m) == SpecExtractOutcome::NoAnswer,
{
}

} // verus!
