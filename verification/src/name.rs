//! Domain names: hostname validation, splitting a dotted string into wire
//! labels, and rendering a name back as a dotted string.

use vstd::prelude::*;
use vstd::string::StringSliceAdditionalSpecFns;
use crate::types::{DnsError, DnsName};

verus! {

/// The bytes a hostname label may contain: ASCII letters, digits, hyphen,
/// and underscore.
pub open spec fn is_hostname_byte(b: u8) -> bool {
    ||| 97 <= b <= 122
    ||| 65 <= b <= 90
    ||| 48 <= b <= 57
    ||| b == 45
    ||| b == 95
}

/// Splits a byte string at every dot. The result always has at least one
/// (possibly empty) segment; `n` dots give `n + 1` segments.
pub open spec fn spec_split(s: Seq<u8>) -> Seq<Seq<u8>>
    decreases s.len(),
{
    if s.len() == 0 {
        seq![Seq::<u8>::empty()]
    } else if s[0] == 46u8 {
        seq![Seq::<u8>::empty()] + spec_split(s.drop_first())
    } else {
        let rest = spec_split(s.drop_first());
        seq![seq![s[0]] + rest[0]] + rest.drop_first()
    }
}

pub proof fn lemma_split_nonempty(s: Seq<u8>)
    ensures
        spec_split(s).len() >= 1,
    decreases s.len(),
{
    if s.len() == 0 {
    } else if s[0] == 46u8 {
    } else {
        lemma_split_nonempty(s.drop_first());
    }
}

/// The labels a dotted byte string stands for: its dot-separated segments,
/// with one trailing empty segment (an absolute name's final dot) dropped.
pub open spec fn labels_of(s: Seq<u8>) -> Seq<Seq<u8>> {
    let v = spec_split(s);
    if v.len() > 1 && v.last().len() == 0 {
        v.drop_last()
    } else {
        v
    }
}

/// A single wire label: between 1 and 63 hostname bytes.
pub open spec fn label_ok(l: Seq<u8>) -> bool {
    &&& 1 <= l.len() <= 63
    &&& forall|j: int| 0 <= j < l.len() ==> is_hostname_byte(#[trigger] l[j])
}

/// A syntactically valid wire name: at least one label, every label valid,
/// and the whole encoded name at most 255 bytes.
pub open spec fn valid_labels(ls: Seq<Seq<u8>>) -> bool {
    &&& ls.len() >= 1
    &&& forall|i: int| 0 <= i < ls.len() ==> label_ok(#[trigger] ls[i])
    &&& crate::encode::spec_encode_name(ls).len() <= 255
}

/// A byte string is a valid hostname when the labels it stands for are valid.
pub open spec fn valid_hostname_bytes(s: Seq<u8>) -> bool {
    valid_labels(labels_of(s))
}

/// The dotted display form of a name, each label followed by a dot, so an
/// absolute name ends in the root dot: `example.com.`.
pub open spec fn spec_name_chars(ls: Seq<Seq<u8>>) -> Seq<char>
    decreases ls.len(),
{
    if ls.len() == 0 {
        Seq::empty()
    } else {
        label_chars(ls[0]).push('.') + spec_name_chars(ls.drop_first())
    }
}

pub open spec fn label_chars(l: Seq<u8>) -> Seq<char> {
    l.map_values(|b: u8| b as char)
}

fn hostname_byte(b: u8) -> (r: bool)
    ensures
        r == is_hostname_byte(b),
{
    (97 <= b && b <= 122) || (65 <= b && b <= 90) || (48 <= b && b <= 57) || b == 45 || b == 95
}

/// Parses a dotted hostname string into its wire-name labels.
///
/// Succeeds exactly on syntactically valid hostnames; every other string is
/// rejected with `InvalidDomainName`.
#[verifier::loop_isolation(false)]
pub fn parse_domain_name(domain: &str) -> (r: Result<DnsName, DnsError>)
    ensures
        match r {
            Ok(n) => valid_hostname_bytes(domain.spec_bytes())
                && n@ == labels_of(domain.spec_bytes()),
            Err(e) => e == DnsError::InvalidDomainName
                && !valid_hostname_bytes(domain.spec_bytes()),
        },
{
    let bytes = domain.as_bytes();
    let ghost s = domain.spec_bytes();
    let n = bytes.len();
    let mut labels: Vec<Vec<u8>> = Vec::new();
    let mut cur: Vec<u8> = Vec::new();
    let mut i: usize = 0;
    proof {
        lemma_split_nonempty(s);
        assert(s.subrange(0, n as int) =~= s);
        assert(labels.deep_view() =~= Seq::<Seq<u8>>::empty());
        assert(spec_split(s) =~~= labels.deep_view()
            + seq![cur@ + spec_split(s.subrange(0, n as int))[0]]
            + spec_split(s.subrange(0, n as int)).drop_first());
    }
    while i < n
        invariant
            i <= n,
            n == s.len(),
            bytes@ == s,
            spec_split(s) == labels.deep_view()
                + seq![cur@ + spec_split(s.subrange(i as int, n as int))[0]]
                + spec_split(s.subrange(i as int, n as int)).drop_first(),
        decreases n - i,
    {
        proof {
            let rest = s.subrange(i as int, n as int);
            let rest2 = s.subrange(i + 1, n as int);
            assert(rest.drop_first() =~= rest2);
            assert(rest[0] == s[i as int]);
            lemma_split_nonempty(rest2);
            assert(spec_split(rest2) =~= seq![spec_split(rest2)[0]] + spec_split(rest2).drop_first());
        }
        let c = bytes[i];
        if c == 46 {
            let ghost old_labels = labels.deep_view();
            let ghost old_cur = cur@;
            labels.push(cur);
            cur = Vec::new();
            proof {
                assert(labels.deep_view() =~~= old_labels.push(old_cur));
                assert(spec_split(s) =~~= labels.deep_view()
                    + seq![cur@ + spec_split(s.subrange(i + 1, n as int))[0]]
                    + spec_split(s.subrange(i + 1, n as int)).drop_first());
            }
        } else {
            cur.push(c);
            proof {
                assert(spec_split(s) =~~= labels.deep_view()
                    + seq![cur@ + spec_split(s.subrange(i + 1, n as int))[0]]
                    + spec_split(s.subrange(i + 1, n as int)).drop_first());
            }
        }
        i += 1;
    }
    proof {
        assert(s.subrange(n as int, n as int) =~= Seq::<u8>::empty());
        assert(spec_split(s.subrange(n as int, n as int)) == seq![Seq::<u8>::empty()]);
    }
    let ghost old_labels = labels.deep_view();
    let ghost old_cur = cur@;
    labels.push(cur);
    proof {
        assert(labels.deep_view() =~~= old_labels.push(old_cur));
        assert(labels.deep_view() =~~= spec_split(s));
    }
    if labels.len() > 1 && labels[labels.len() - 1].len() == 0 {
        proof {
            assert(labels.deep_view().last().len() == 0);
        }
        let ghost before_pop = labels.deep_view();
        labels.pop();
        proof {
            assert(labels.deep_view() =~~= before_pop.drop_last());
        }
    }
    assert(labels.deep_view() == labels_of(s));

    // Validate the labels against `valid_labels`, accumulating the wire
    // length of the labels seen so far (each with its length prefix).
    let ghost ls = labels.deep_view();
    let k = labels.len();
    let mut total: usize = 0;
    let mut i: usize = 0;
    while i < k
        invariant
            i <= k,
            k == ls.len(),
            labels.deep_view() == ls,
            k == labels.len(),
            total == crate::encode::spec_labels_bytes(ls.take(i as int)).len(),
            total <= 254,
            forall|j: int| 0 <= j < i ==> label_ok(#[trigger] ls[j]),
        decreases k - i,
    {
        let lab = &labels[i];
        proof {
            assert(lab.deep_view() == ls[i as int]);
            assert(lab@ =~= ls[i as int]);
        }
        if lab.len() == 0 || lab.len() > 63 {
            return Err(DnsError::InvalidDomainName);
        }
        let m = lab.len();
        let mut j: usize = 0;
        while j < m
            invariant
                j <= m,
                m == lab.len(),
                lab@ =~= ls[i as int],
                i < k == ls.len() == labels.len(),
                labels.deep_view() == ls,
                forall|t: int| 0 <= t < j ==> is_hostname_byte(#[trigger] lab@[t]),
            decreases m - j,
        {
            if !hostname_byte(lab[j]) {
                assert(!label_ok(ls[i as int]));
                return Err(DnsError::InvalidDomainName);
            }
            j += 1;
        }
        assert(label_ok(ls[i as int]));
        proof {
            crate::encode::lemma_labels_bytes_push(ls.take(i as int), ls[i as int]);
            assert(ls.take(i + 1) =~= ls.take(i as int).push(ls[i as int]));
        }
        if total + 1 + lab.len() > 254 {
            proof {
                crate::encode::lemma_labels_bytes_concat(ls.take(i + 1), ls.skip(i + 1));
                assert(ls.take(i + 1) + ls.skip(i + 1) =~= ls);
                assert(crate::encode::spec_labels_bytes(ls).len() > 254);
            }
            return Err(DnsError::InvalidDomainName);
        }
        total = total + 1 + lab.len();
        i += 1;
    }
    proof {
        assert(ls.take(k as int) =~= ls);
        assert(crate::encode::spec_encode_name(ls).len() == total + 1 <= 255);
    }
    Ok(DnsName { labels })
}

/// Relies on `String::push`: appends the given character to the string.
#[verifier::external_body]
fn push_char(s: &mut String, c: char)
    ensures
        final(s)@ == old(s)@.push(c),
{
    s.push(c);
}

/// Renders a name as its dotted display form, with the trailing root dot.
#[verifier::loop_isolation(false)]
pub fn name_to_string(name: &DnsName) -> (r: String)
    ensures
        r@ == spec_name_chars(name@),
{
    let mut out = String::new();
    let k = name.labels.len();
    let mut i: usize = 0;
    while i < k
        invariant
            i <= k,
            k == name.labels.len(),
            out@ == spec_name_chars(name@.take(i as int)),
        decreases k - i,
    {
        let lab = &name.labels[i];
        proof {
            assert(lab@ =~= name@[i as int]);
        }
        let m = lab.len();
        let mut j: usize = 0;
        while j < m
            invariant
                j <= m,
                i < k == name.labels.len(),
                m == lab.len(),
                lab@ == name@[i as int],
                out@ == spec_name_chars(name@.take(i as int)) + label_chars(name@[i as int]).take(j as int),
            decreases m - j,
        {
            let b = lab[j];
            push_char(&mut out, b as char);
            proof {
                assert(label_chars(name@[i as int]).take(j + 1)
                    =~= label_chars(name@[i as int]).take(j as int).push(b as char));
                assert(out@ =~= spec_name_chars(name@.take(i as int))
                    + label_chars(name@[i as int]).take(j + 1));
            }
            j += 1;
        }
        push_char(&mut out, '.');
        proof {
            assert(label_chars(name@[i as int]).take(m as int) =~= label_chars(name@[i as int]));
            lemma_name_chars_push(name@.take(i as int), name@[i as int]);
            assert(name@.take(i + 1) =~= name@.take(i as int).push(name@[i as int]));
            assert(out@ =~= spec_name_chars(name@.take(i + 1)));
        }
        i += 1;
    }
    proof {
        assert(name@.take(k as int) =~= name@);
    }
    out
}

pub proof fn lemma_name_chars_push(ls: Seq<Seq<u8>>, l: Seq<u8>)
    ensures
        spec_name_chars(ls.push(l)) == spec_name_chars(ls) + label_chars(l).push('.'),
    decreases ls.len(),
{
    if ls.len() == 0 {
        assert(ls.push(l).drop_first() =~= ls);
        assert(spec_name_chars(ls.push(l)) =~= spec_name_chars(ls) + label_chars(l).push('.'));
    } else {
        lemma_name_chars_push(ls.drop_first(), l);
        assert(ls.push(l).drop_first() =~= ls.drop_first().push(l));
        assert(ls.push(l)[0] == ls[0]);
        assert(spec_name_chars(ls.push(l)) =~= spec_name_chars(ls) + label_chars(l).push('.'));
    }
}

} // verus!
