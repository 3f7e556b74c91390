//! Capture filters in the language of libpcap.
use crate::addr::IpAddr;
use crate::events;
use crate::events::TrafficFilter;
use crate::text;
use vstd::prelude::*;
use vstd::string::StringExecFns;

verus! {

/// The word for a protocol, if the language has one.
pub open spec fn protocol_word(protocol: Seq<char>) -> Option<Seq<char>> {
    let name = text::lower(protocol);
    if name == "tcp"@ || name == "udp"@ || name == "icmp"@ || name == "ip"@ || name == "ip6"@ {
        Some(name)
    } else if name == "icmp6"@ || name == "icmpv6"@ {
        Some("icmp6"@)
    } else {
        None
    }
}

/// The words for protocols, without those that have none.
pub open spec fn protocol_words(protocols: Seq<Seq<char>>) -> Seq<Seq<char>>
    decreases protocols.len(),
{
    if protocols.len() == 0 {
        Seq::empty()
    } else {
        match protocol_word(protocols.last()) {
            Some(word) => protocol_words(protocols.drop_last()).push(word),
            None => protocol_words(protocols.drop_last()),
        }
    }
}

/// The terms for ports.
pub open spec fn port_terms(ports: Seq<u16>) -> Seq<Seq<char>> {
    Seq::new(ports.len(), |i: int| "port "@ + text::decimal(ports[i] as nat))
}

/// The terms for hosts.
pub open spec fn host_terms(ips: Seq<IpAddr>) -> Seq<Seq<char>> {
    Seq::new(ips.len(), |i: int| "host "@ + ips[i].spec_text())
}

/// One of several terms, in brackets; no clause where there are no terms.
pub open spec fn clause(terms: Seq<Seq<char>>) -> Seq<Seq<char>> {
    if terms.len() == 0 {
        Seq::empty()
    } else {
        seq!["("@ + text::join(terms, " or "@) + ")"@]
    }
}

/// The clauses of a filter.
pub open spec fn clauses(filter: events::TrafficFilterView) -> Seq<Seq<char>> {
    clause(protocol_words(filter.protocols)) + clause(port_terms(filter.ports)) + clause(
        host_terms(filter.ips),
    )
}

/// The capture filter for a traffic filter; none where it admits everything.
pub open spec fn expression(filter: events::TrafficFilterView) -> Option<Seq<char>> {
    if clauses(filter).len() == 0 {
        None
    } else {
        Some(text::join(clauses(filter), " and "@))
    }
}

/// Finds the word for a protocol.
fn word_for(protocol: &str) -> (r: Option<String>)
    ensures
        text::opt_text(r) == protocol_word(protocol@),
{
    let name = text::lower_text(protocol);
    if text::text_eq(name.as_str(), "tcp") || text::text_eq(name.as_str(), "udp") || text::text_eq(
        name.as_str(),
        "icmp",
    ) || text::text_eq(name.as_str(), "ip") || text::text_eq(name.as_str(), "ip6") {
        Some(name)
    } else if text::text_eq(name.as_str(), "icmp6") || text::text_eq(name.as_str(), "icmpv6") {
        Some("icmp6".to_owned())
    } else {
        None
    }
}

/// Finds the words for protocols.
fn words_for(protocols: &Vec<String>) -> (r: Vec<String>)
    ensures
        text::texts(r@) == protocol_words(text::texts(protocols@)),
{
    let mut words: Vec<String> = Vec::new();
    let ghost all = text::texts(protocols@);
    let mut i: usize = 0;
    assert(all.take(0) =~= Seq::empty());
    while i < protocols.len()
        invariant
            i <= protocols@.len(),
            all == text::texts(protocols@),
            text::texts(words@) =~= protocol_words(all.take(i as int)),
        decreases protocols@.len() - i,
    {
        assert(all.take(i + 1).drop_last() =~= all.take(i as int));
        assert(all.take(i + 1).last() == protocols@[i as int]@);
        let ghost before = words@;
        if let Some(word) = word_for(protocols[i].as_str()) {
            words.push(word);
            assert(text::texts(words@) =~= text::texts(before).push(word@));
        }
        i += 1;
    }
    assert(all.take(i as int) =~= all);
    words
}

/// Writes the terms for ports.
fn terms_for_ports(ports: &Vec<u16>) -> (r: Vec<String>)
    ensures
        text::texts(r@) == port_terms(ports@),
{
    let mut terms: Vec<String> = Vec::new();
    let mut i: usize = 0;
    while i < ports.len()
        invariant
            i <= ports@.len(),
            text::texts(terms@) =~= port_terms(ports@).take(i as int),
        decreases ports@.len() - i,
    {
        let ghost before = terms@;
        let mut term = "port ".to_owned();
        text::push_decimal(&mut term, ports[i] as u128);
        terms.push(term);
        assert(text::texts(terms@) =~= text::texts(before).push(term@));
        assert(port_terms(ports@)[i as int] == term@);
        i += 1;
    }
    assert(text::texts(terms@) =~= port_terms(ports@));
    terms
}

/// Writes the terms for hosts.
fn terms_for_hosts(ips: &Vec<IpAddr>) -> (r: Vec<String>)
    ensures
        text::texts(r@) == host_terms(ips@),
{
    let mut terms: Vec<String> = Vec::new();
    let mut i: usize = 0;
    while i < ips.len()
        invariant
            i <= ips@.len(),
            text::texts(terms@) =~= host_terms(ips@).take(i as int),
        decreases ips@.len() - i,
    {
        let ghost before = terms@;
        let mut term = "host ".to_owned();
        let host = ips[i].to_text();
        term.append(host.as_str());
        terms.push(term);
        assert(text::texts(terms@) =~= text::texts(before).push(term@));
        assert(host_terms(ips@)[i as int] == term@);
        i += 1;
    }
    assert(text::texts(terms@) =~= host_terms(ips@));
    terms
}

/// Appends a clause for terms.
fn push_clause(list: &mut Vec<String>, terms: &Vec<String>)
    ensures
        text::texts(final(list)@) == text::texts(old(list)@) + clause(text::texts(terms@)),
{
    let ghost before = list@;
    if terms.len() > 0 {
        let mut c = "(".to_owned();
        let inner = text::join_texts(terms, " or ");
        c.append(inner.as_str());
        c.append(")");
        list.push(c);
        assert(text::texts(list@) =~= text::texts(before).push(c@));
    }
    assert(text::texts(list@) =~= text::texts(before) + clause(text::texts(terms@)));
}

/// Writes the capture filter for a traffic filter.
pub fn bpf_filter(filter: &TrafficFilter) -> (r: Option<String>)
    ensures
        text::opt_text(r) == expression(filter@),
{
    let mut list: Vec<String> = Vec::new();
    push_clause(&mut list, &words_for(&filter.protocols));
    push_clause(&mut list, &terms_for_ports(&filter.ports));
    push_clause(&mut list, &terms_for_hosts(&filter.ips));
    assert(text::texts(list@) =~= clauses(filter@));
    if list.len() == 0 {
        None
    } else {
        Some(text::join_texts(&list, " and "))
    }
}

} // verus!
