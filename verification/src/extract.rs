//! Extracting what callers need from a parsed message: the first usable
//! address of the answer section, or the queried name of a request.

use vstd::prelude::*;
use crate::name::{name_to_string, spec_name_chars};
use crate::types::{DnsError, DnsMessage, DnsRData, IpAddress, SpecMessage, SpecRData, SpecRecord};

verus! {

/// The address an answer payload carries, if it is an address record.
pub open spec fn rdata_address(d: SpecRData) -> Option<IpAddress> {
    match d {
        SpecRData::A(a) => Some(IpAddress::V4(a)),
        SpecRData::Aaaa(a) => Some(IpAddress::V6(a)),
        SpecRData::CName(_) => None,
        SpecRData::Other(_) => None,
    }
}

/// The name an alias payload carries.
pub open spec fn alias_name(d: SpecRData) -> Seq<Seq<u8>>
    recommends
        d is CName,
{
    match d {
        SpecRData::CName(n) => n,
        _ => arbitrary(),
    }
}

/// The first address of an answer sequence, scanning in message order.
pub open spec fn first_address(s: Seq<SpecRecord>) -> Option<IpAddress>
    decreases s.len(),
{
    if s.len() == 0 {
        None
    } else if rdata_address(s[0].data) is Some {
        rdata_address(s[0].data)
    } else {
        first_address(s.drop_first())
    }
}

/// The most recently seen alias name of an answer sequence.
pub open spec fn last_alias(s: Seq<SpecRecord>) -> Option<Seq<Seq<u8>>>
    decreases s.len(),
{
    if s.len() == 0 {
        None
    } else if s.last().data is CName {
        Some(alias_name(s.last().data))
    } else {
        last_alias(s.drop_last())
    }
}

/// The outcome the address extractor owes for a message: a server-reported
/// failure takes precedence over any answer content; otherwise the first
/// address wins; otherwise the last alias; otherwise nothing usable.
pub ghost enum SpecExtractOutcome {
    Address(IpAddress),
    Protocol(u8),
    Alias(Seq<Seq<u8>>),
    NoAnswer,
}

pub open spec fn spec_extract_address(m: SpecMessage) -> SpecExtractOutcome {
    if m.response_code != 0 {
        SpecExtractOutcome::Protocol(m.response_code)
    } else {
        match first_address(m.answers) {
            Some(a) => SpecExtractOutcome::Address(a),
            None => match last_alias(m.answers) {
                Some(n) => SpecExtractOutcome::Alias(n),
                None => SpecExtractOutcome::NoAnswer,
            },
        }
    }
}

/// Returns the first usable address of the answer section, or the structured
/// failure `spec_extract_address` assigns to the message: a non-zero response
/// code as `ProtocolError` before anything else, an answer-less scan as
/// `UnresolvedAlias` of the last alias seen, and `NoUsableAnswer` otherwise.
#[verifier::loop_isolation(false)]
pub fn extract_ipaddr_from_dns_message(message: &DnsMessage) -> (r: Result<IpAddress, DnsError>)
    ensures
        match spec_extract_address(message@) {
            SpecExtractOutcome::Address(a) => r == Ok::<IpAddress, DnsError>(a),
            SpecExtractOutcome::Protocol(c) => r == Err::<IpAddress, DnsError>(
                DnsError::ProtocolError(c),
            ),
            SpecExtractOutcome::Alias(n) => r matches Err(DnsError::UnresolvedAlias(s))
                && s@ == spec_name_chars(n),
            SpecExtractOutcome::NoAnswer => r == Err::<IpAddress, DnsError>(
                DnsError::NoUsableAnswer,
            ),
        },
{
    if message.response_code != 0 {
        return Err(DnsError::ProtocolError(message.response_code));
    }
    let ghost ans = message@.answers;
    let n = message.answers.len();
    let mut cname_idx: Option<usize> = None;
    let mut i: usize = 0;
    proof {
        assert(ans.skip(0) =~= ans);
        assert(ans.take(0) =~= Seq::<SpecRecord>::empty());
    }
    while i < n
        invariant
            i <= n,
            n == message.answers.len(),
            ans == message@.answers,
            first_address(ans) == first_address(ans.skip(i as int)),
            match cname_idx {
                Some(k) => k < i && ans[k as int].data is CName && last_alias(
                    ans.take(i as int),
                ) == Some(alias_name(ans[k as int].data)),
                None => last_alias(ans.take(i as int)) is None,
            },
        decreases n - i,
    {
        let rec = &message.answers[i];
        proof {
            assert(rec@ == ans[i as int]);
            assert(ans.skip(i as int)[0] == ans[i as int]);
            assert(ans.skip(i as int).drop_first() =~= ans.skip(i + 1));
            assert(ans.take(i + 1).last() == ans[i as int]);
            assert(ans.take(i + 1).drop_last() =~= ans.take(i as int));
        }
        match &rec.data {
            DnsRData::A(a) => {
                return Ok(IpAddress::V4(*a));
            },
            DnsRData::Aaaa(a) => {
                return Ok(IpAddress::V6(*a));
            },
            DnsRData::CName(_) => {
                cname_idx = Some(i);
            },
            DnsRData::Other(_) => {},
        }
        i += 1;
    }
    proof {
        assert(ans.skip(n as int) =~= Seq::<SpecRecord>::empty());
        assert(ans.take(n as int) =~= ans);
    }
    match cname_idx {
        Some(k) => {
            let rec = &message.answers[k];
            match &rec.data {
                DnsRData::CName(nm) => {
                    let s = name_to_string(nm);
                    Err(DnsError::UnresolvedAlias(s))
                },
                _ => {
                    proof {
                        assert(false);
                    }
                    Err(DnsError::NoUsableAnswer)
                },
            }
        },
        None => Err(DnsError::NoUsableAnswer),
    }
}

/// Returns the queried domain name of a request in dotted display form (with
/// the trailing root dot), from the first entry of the query section; any
/// further queries are ignored. Fails only on an empty query section.
pub fn extract_domain_from_dns_message(message: &DnsMessage) -> (r: Result<String, DnsError>)
    ensures
        match r {
            Ok(s) => message@.queries.len() > 0 && s@ == spec_name_chars(
                message@.queries[0].name,
            ),
            Err(e) => e == DnsError::NoQueryPresent && message@.queries.len() == 0,
        },
{
    if message.queries.len() == 0 {
        return Err(DnsError::NoQueryPresent);
    }
    let q = &message.queries[0];
    proof {
        assert(q@ == message@.queries[0]);
    }
    Ok(name_to_string(&q.name))
}

} // verus!

