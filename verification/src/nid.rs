//! From node numbers to node ids.
//!
//! A user names nodes by their numbers ("nids"), either as patterns that are
//! matched against the nodes' names or as a host list such as
//! `nid0000[01-15]`. What is worked out here is what the inventory has to be
//! asked, and which node ids its answer stands for.

use crate::outside::{
    expand_hostlist, hostlist_expansion, pattern_match, pattern_refusal, regex_is_match,
    regex_refusal,
};
use crate::text::{
    decimal, fields, join, joined, push_decimal, split_and_trim, trimmed, zeros,
};
use vstd::prelude::*;
use vstd::std_specs::iter::IteratorSpec;
use vstd::string::{StrSliceExecFns, StringExecFns};

verus! {

/// The name of the node with the number `nid`: the word `nid` and the number
/// in at least six digits, with zeros in front where it has fewer.
pub open spec fn nid_name(nid: nat) -> Seq<char> {
    let digits = decimal(nid);
    "nid"@ + zeros(
        if digits.len() < 6 {
            (6 - digits.len()) as nat
        } else {
            0
        },
    ) + digits
}

/// The name of the node with the number `nid`.
pub fn nid_long(nid: usize) -> (name: String)
    ensures
        name@ == nid_name(nid as nat),
{
    let mut digits = String::new();
    push_decimal(&mut digits, nid);
    assert(digits@ =~= decimal(nid as nat));
    let len = digits.as_str().unicode_len();
    let mut name = "nid".to_owned();
    let mut padded: usize = len;
    assert(name@ =~= "nid"@ + zeros(0));
    while padded < 6
        invariant
            len == digits@.len(),
            digits@ == decimal(nid as nat),
            len <= padded,
            len < 6 ==> padded <= 6,
            len >= 6 ==> padded == len,
            name@ == "nid"@ + zeros((padded - len) as nat),
        decreases 6 - padded,
    {
        proof {
            reveal_strlit("0");
        }
        name.append("0");
        assert(name@ =~= "nid"@ + zeros((padded + 1 - len) as nat));
        padded = padded + 1;
    }
    let ghost pad = (padded - len) as nat;
    assert(pad == if digits@.len() < 6 {
        (6 - digits@.len()) as nat
    } else {
        0
    });
    name.append(digits.as_str());
    assert(name@ =~= "nid"@ + zeros(pad) + decimal(nid as nat));
    name
}

/// What is read of a node of the inventory.
#[derive(Debug)]
pub struct NodeSummary {
    /// The node's id.
    pub id: Option<String>,
    /// The node's number.
    pub nid: Option<usize>,
}

/// What a [`NodeSummary`] holds, as plain values.
pub struct NodeSummaryView {
    pub id: Option<Seq<char>>,
    pub nid: Option<usize>,
}

impl DeepView for NodeSummary {
    type V = NodeSummaryView;

    open spec fn deep_view(&self) -> NodeSummaryView {
        NodeSummaryView { id: self.id.deep_view(), nid: self.nid }
    }
}

impl View for NodeSummary {
    type V = NodeSummaryView;

    open spec fn view(&self) -> NodeSummaryView {
        self.deep_view()
    }
}

/// Why node numbers could not be turned into node ids.
#[derive(Debug)]
pub enum NidError {
    /// A pattern is no regular expression; `message` says why.
    Pattern { message: String },
    /// The host list cannot be read; `message` says why.
    Hostlist { message: String },
    /// The host list names `nid`, which does not begin with the word `nid`.
    MissingPrefix { nid: String },
    /// A node of the inventory has no number.
    MissingNid,
    /// A node that is asked for has no id.
    MissingXname,
}

/// What a [`NidError`] holds, as plain values.
pub enum NidErrorView {
    Pattern { message: Seq<char> },
    Hostlist { message: Seq<char> },
    MissingPrefix { nid: Seq<char> },
    MissingNid,
    MissingXname,
}

impl View for NidError {
    type V = NidErrorView;

    open spec fn view(&self) -> NidErrorView {
        match self {
            NidError::Pattern { message } => NidErrorView::Pattern { message: message@ },
            NidError::Hostlist { message } => NidErrorView::Hostlist { message: message@ },
            NidError::MissingPrefix { nid } => NidErrorView::MissingPrefix { nid: nid@ },
            NidError::MissingNid => NidErrorView::MissingNid,
            NidError::MissingXname => NidErrorView::MissingXname,
        }
    }
}

/// The words in which a [`NidError`] is reported.
pub open spec fn nid_message_of(error: NidErrorView) -> Seq<char> {
    match error {
        NidErrorView::Pattern { message } => message,
        NidErrorView::Hostlist { message } =>
            "Could not parse list of nodes as a hostlist. Reason:\n"@ + message + "Exit"@,
        NidErrorView::MissingPrefix { nid } => "Nid '"@ + nid
            + "' not valid, 'nid' prefix missing"@,
        NidErrorView::MissingNid => "No NID found"@,
        NidErrorView::MissingXname => "No XName found"@,
    }
}

impl NidError {
    /// The words in which this error is reported.
    pub fn message(&self) -> (text: String)
        ensures
            text@ == nid_message_of(self@),
    {
        match self {
            NidError::Pattern { message } => message.clone(),
            NidError::Hostlist { message } => {
                let mut text = "Could not parse list of nodes as a hostlist. Reason:\n".to_owned();
                text.append(message.as_str());
                text.append("Exit");
                text
            },
            NidError::MissingPrefix { nid } => {
                let mut text = "Nid '".to_owned();
                text.append(nid.as_str());
                text.append("' not valid, 'nid' prefix missing");
                text
            },
            NidError::MissingNid => "No NID found".to_owned(),
            NidError::MissingXname => "No XName found".to_owned(),
        }
    }
}

/// A list of ids or an error, as plain values.
pub open spec fn ids_or_error(outcome: Result<Vec<String>, NidError>) -> Result<
    Seq<Seq<char>>,
    NidErrorView,
> {
    match outcome {
        Ok(ids) => Ok(ids.deep_view()),
        Err(error) => Err(error@),
    }
}

/// A text or an error, as plain values.
pub open spec fn text_or_error(outcome: Result<String, NidError>) -> Result<
    Seq<char>,
    NidErrorView,
> {
    match outcome {
        Ok(text) => Ok(text@),
        Err(error) => Err(error@),
    }
}

/// The patterns, where none of them was refused; else the first refusal.
pub open spec fn accepted(patterns: Seq<Seq<char>>, refusals: Seq<Option<Seq<char>>>) -> Result<
    Seq<Seq<char>>,
    NidErrorView,
>
    decreases refusals.len(),
{
    if refusals.len() == 0 {
        Ok(patterns)
    } else {
        match refusals[0] {
            Some(message) => Err(NidErrorView::Pattern { message }),
            None => accepted(patterns, refusals.drop_first()),
        }
    }
}

/// Hands the patterns on where none of them was refused, and the first
/// refusal as an error where one was.
pub fn accept_patterns(patterns: Vec<String>, refusals: Vec<Option<String>>) -> (outcome: Result<
    Vec<String>,
    NidError,
>)
    ensures
        ids_or_error(outcome) == accepted(patterns.deep_view(), refusals.deep_view()),
{
    let ghost all = refusals.deep_view();
    let mut n: usize = 0;
    assert(all.skip(0) =~= all);
    while n < refusals.len()
        invariant
            n <= refusals.len(),
            all == refusals.deep_view(),
            accepted(patterns.deep_view(), all) == accepted(
                patterns.deep_view(),
                all.skip(n as int),
            ),
        decreases refusals.len() - n,
    {
        proof {
            assert(all.skip(n as int)[0] == all[n as int]);
            assert(all.skip(n as int).drop_first() =~= all.skip(n as int + 1));
            assert(all[n as int] == refusals@[n as int].deep_view());
        }
        match &refusals[n] {
            Some(message) => {
                return Err(NidError::Pattern { message: message.clone() });
            },
            None => {},
        }
        n = n + 1;
    }
    assert(all.skip(refusals.len() as int) =~= Seq::empty());
    Ok(patterns)
}

/// Why each of `patterns` is no regular expression, or nothing where it is
/// one.
pub open spec fn refusals_of(patterns: Seq<Seq<char>>) -> Seq<Option<Seq<char>>> {
    patterns.map_values(|pattern: Seq<char>| regex_refusal(pattern))
}

/// The patterns that a user names in one text: the pieces between its commas,
/// each without the white space at its ends. Where one of them is no regular
/// expression the first such is the error.
pub fn nid_patterns(user_input_nid: &str) -> (outcome: Result<Vec<String>, NidError>)
    ensures
        ids_or_error(outcome) == accepted(
            fields(user_input_nid@).map_values(|field: Seq<char>| trimmed(field)),
            refusals_of(fields(user_input_nid@).map_values(|field: Seq<char>| trimmed(field))),
        ),
{
    let patterns = split_and_trim(user_input_nid);
    let ghost wanted = refusals_of(patterns.deep_view());
    let mut refusals: Vec<Option<String>> = Vec::new();
    let mut n: usize = 0;
    while n < patterns.len()
        invariant
            n <= patterns.len(),
            wanted == refusals_of(patterns.deep_view()),
            refusals.len() == n,
            forall|i: int| 0 <= i < n ==> #[trigger] refusals.deep_view()[i] == wanted[i],
        decreases patterns.len() - n,
    {
        let ghost before = refusals.deep_view();
        assert(patterns.deep_view()[n as int] == patterns@[n as int]@);
        let refusal = pattern_refusal(patterns[n].as_str());
        refusals.push(refusal);
        assert forall|i: int| 0 <= i < n + 1 implies #[trigger] refusals.deep_view()[i]
            == wanted[i] by {
            if i < n {
                assert(refusals.deep_view()[i] == before[i]);
            }
        }
        n = n + 1;
    }
    assert(refusals.deep_view() =~= wanted);
    accept_patterns(patterns, refusals)
}

/// The number of hits among `hits`.
pub open spec fn hit_count(hits: Seq<bool>) -> nat
    decreases hits.len(),
{
    if hits.len() == 0 {
        0
    } else {
        hit_count(hits.drop_last()) + if hits.last() {
            1nat
        } else {
            0nat
        }
    }
}

/// What one node adds to the ids that are asked for, where `hits` tells for
/// each pattern whether it matches the node's name: the node's id once for
/// each hit. A node without a number is an error, and so is one without an id
/// that some pattern matches.
pub open spec fn xnames_of_node(node: NodeSummaryView, hits: Seq<bool>) -> Result<
    Seq<Seq<char>>,
    NidErrorView,
> {
    if node.nid is None {
        Err(NidErrorView::MissingNid)
    } else if hit_count(hits) == 0 {
        Ok(Seq::empty())
    } else if node.id is None {
        Err(NidErrorView::MissingXname)
    } else {
        Ok(Seq::new(hit_count(hits), |i: int| node.id->0))
    }
}

/// The id of `node`, once for each hit among `hits`.
pub fn node_xnames(node: &NodeSummary, hits: &Vec<bool>) -> (outcome: Result<Vec<String>, NidError>)
    ensures
        ids_or_error(outcome) == xnames_of_node(node@, hits@),
{
    if node.nid.is_none() {
        return Err(NidError::MissingNid);
    }
    let mut found: Vec<String> = Vec::new();
    let mut n: usize = 0;
    assert(hits@.take(0) =~= Seq::empty());
    while n < hits.len()
        invariant
            n <= hits.len(),
            node.nid is Some,
            found.len() == hit_count(hits@.take(n as int)),
            found.len() > 0 ==> node.id is Some,
            forall|i: int| 0 <= i < found.len() ==> #[trigger] found.deep_view()[i] == node@.id->0,
        decreases hits.len() - n,
    {
        proof {
            assert(hits@.take(n as int + 1).drop_last() =~= hits@.take(n as int));
            assert(hits@.take(n as int + 1).last() == hits@[n as int]);
        }
        if hits[n] {
            match &node.id {
                Some(id) => {
                    let ghost before = found.deep_view();
                    found.push(id.clone());
                    assert forall|i: int| 0 <= i < found.len() implies #[trigger] found.deep_view()[i]
                        == node@.id->0 by {
                        if i < before.len() {
                            assert(found.deep_view()[i] == before[i]);
                        }
                    }
                },
                None => {
                    proof {
                        lemma_hit_count_grows(hits@, n as int + 1);
                        assert(hits@.take(n as int + 1).last() == hits@[n as int]);
                        assert(hit_count(hits@.take(n as int + 1)) > 0);
                    }
                    return Err(NidError::MissingXname);
                },
            }
        }
        n = n + 1;
    }
    assert(hits@.take(hits.len() as int) =~= hits@);
    proof {
        if hit_count(hits@) == 0 {
            assert(found.deep_view() =~= Seq::empty());
        } else {
            assert(found.deep_view() =~= Seq::new(hit_count(hits@), |i: int| node@.id->0));
        }
    }
    Ok(found)
}

/// The hits among the first `n` of `hits` are among the hits of all.
proof fn lemma_hit_count_grows(hits: Seq<bool>, n: int)
    requires
        0 <= n <= hits.len(),
    ensures
        hit_count(hits.take(n)) <= hit_count(hits),
    decreases hits.len() - n,
{
    if n < hits.len() {
        assert(hits.take(n + 1).drop_last() =~= hits.take(n));
        lemma_hit_count_grows(hits, n + 1);
    } else {
        assert(hits.take(n) =~= hits);
    }
}

/// For each of `patterns`, whether it is a regular expression that matches the
/// name of the node with the number `nid`.
pub open spec fn nid_hits(patterns: Seq<Seq<char>>, nid: nat) -> Seq<bool> {
    Seq::new(
        patterns.len(),
        |j: int| regex_refusal(patterns[j]) is None && regex_is_match(patterns[j], nid_name(nid)),
    )
}

/// The ids of the nodes whose names some pattern matches: the nodes in their
/// order, each node's id once for each pattern that matches. The first node
/// without a number, or without an id that is asked for, is the error.
pub open spec fn xnames_matched(patterns: Seq<Seq<char>>, nodes: Seq<NodeSummaryView>) -> Result<
    Seq<Seq<char>>,
    NidErrorView,
>
    decreases nodes.len(),
{
    if nodes.len() == 0 {
        Ok(Seq::empty())
    } else {
        match xnames_matched(patterns, nodes.drop_last()) {
            Err(error) => Err(error),
            Ok(front) => {
                let node = nodes.last();
                match xnames_of_node(
                    node,
                    nid_hits(
                        patterns,
                        match node.nid {
                            Some(nid) => nid as nat,
                            None => 0,
                        },
                    ),
                ) {
                    Err(error) => Err(error),
                    Ok(own) => Ok(front + own),
                }
            },
        }
    }
}

/// Adds the ids of `more` at the end of `ids`.
fn append_ids(ids: &mut Vec<String>, more: Vec<String>)
    ensures
        final(ids).deep_view() == old(ids).deep_view() + more.deep_view(),
{
    let ghost before = ids.deep_view();
    let ghost added = more.deep_view();
    let mut more = more;
    ids.append(&mut more);
    assert(ids.deep_view() =~= before + added);
}

/// The ids of the nodes of `nodes` whose names some of `patterns` matches.
pub fn xnames_matching(patterns: &Vec<String>, nodes: &Vec<NodeSummary>) -> (outcome: Result<
    Vec<String>,
    NidError,
>)
    ensures
        ids_or_error(outcome) == xnames_matched(patterns.deep_view(), nodes.deep_view()),
{
    let ghost all = nodes.deep_view();
    let mut found: Vec<String> = Vec::new();
    let mut n: usize = 0;
    assert(all.take(0) =~= Seq::empty());
    assert(found.deep_view() =~= Seq::empty());
    while n < nodes.len()
        invariant
            n <= nodes.len(),
            all == nodes.deep_view(),
            xnames_matched(patterns.deep_view(), all.take(n as int)) == Ok::<
                Seq<Seq<char>>,
                NidErrorView,
            >(found.deep_view()),
        decreases nodes.len() - n,
    {
        proof {
            assert(all.take(n as int + 1).drop_last() =~= all.take(n as int));
            assert(all.take(n as int + 1).last() == nodes@[n as int]@);
        }
        let node = &nodes[n];
        let name = match node.nid {
            Some(nid) => nid_long(nid),
            None => {
                proof {
                    lemma_xnames_matched_error(patterns.deep_view(), all, n as int + 1);
                }
                return Err(NidError::MissingNid);
            },
        };
        let ghost wanted = nid_hits(patterns.deep_view(), node.nid->0 as nat);
        let mut hits: Vec<bool> = Vec::new();
        let mut j: usize = 0;
        while j < patterns.len()
            invariant
                j <= patterns.len(),
                hits.len() == j,
                node.nid is Some,
                name@ == nid_name(node.nid->0 as nat),
                wanted == nid_hits(patterns.deep_view(), node.nid->0 as nat),
                forall|i: int| 0 <= i < j ==> #[trigger] hits@[i] == wanted[i],
            decreases patterns.len() - j,
        {
            assert(patterns.deep_view()[j as int] == patterns@[j as int]@);
            let hit = match pattern_match(patterns[j].as_str(), name.as_str()) {
                Some(matched) => matched,
                None => false,
            };
            hits.push(hit);
            j = j + 1;
        }
        assert(hits@ =~= wanted);
        match node_xnames(node, &hits) {
            Ok(own) => {
                append_ids(&mut found, own);
            },
            Err(error) => {
                proof {
                    lemma_xnames_matched_error(patterns.deep_view(), all, n as int + 1);
                }
                return Err(error);
            },
        }
        n = n + 1;
    }
    assert(all.take(nodes.len() as int) =~= all);
    Ok(found)
}

/// An error among the first `n` nodes is the error of all.
proof fn lemma_xnames_matched_error(
    patterns: Seq<Seq<char>>,
    nodes: Seq<NodeSummaryView>,
    n: int,
)
    requires
        0 <= n <= nodes.len(),
        xnames_matched(patterns, nodes.take(n)) is Err,
    ensures
        xnames_matched(patterns, nodes) == xnames_matched(patterns, nodes.take(n)),
    decreases nodes.len() - n,
{
    if n < nodes.len() {
        assert(nodes.take(n + 1).drop_last() =~= nodes.take(n));
        lemma_xnames_matched_error(patterns, nodes, n + 1);
    } else {
        assert(nodes.take(n) =~= nodes);
    }
}

/// The host name begins with the word `nid`.
pub open spec fn has_nid_prefix(host: Seq<char>) -> bool {
    host.len() >= 3 && host[0] == 'n' && host[1] == 'i' && host[2] == 'd'
}

/// `text` without the zeros with which it begins.
pub open spec fn without_leading_zeros(text: Seq<char>) -> Seq<char>
    decreases text.len(),
{
    if text.len() > 0 && text[0] == '0' {
        without_leading_zeros(text.drop_first())
    } else {
        text
    }
}

/// The number of a host as the inventory is asked for it: the host's name
/// without the word `nid` and without the zeros that follow the word.
pub open spec fn short_nid(host: Seq<char>) -> Seq<char> {
    without_leading_zeros(host.skip(3))
}

/// The numbers of `hosts` as the inventory is asked for them. The first host
/// whose name does not begin with the word `nid` is the error.
pub open spec fn short_nids(hosts: Seq<Seq<char>>) -> Result<Seq<Seq<char>>, NidErrorView>
    decreases hosts.len(),
{
    if hosts.len() == 0 {
        Ok(Seq::empty())
    } else {
        match short_nids(hosts.drop_last()) {
            Err(error) => Err(error),
            Ok(front) => if has_nid_prefix(hosts.last()) {
                Ok(front.push(short_nid(hosts.last())))
            } else {
                Err(NidErrorView::MissingPrefix { nid: hosts.last() })
            },
        }
    }
}

/// The numbers of `hosts` in one text, with commas between them.
pub open spec fn short_nid_text(hosts: Seq<Seq<char>>) -> Result<Seq<char>, NidErrorView> {
    match short_nids(hosts) {
        Ok(numbers) => Ok(joined(numbers, ","@)),
        Err(error) => Err(error),
    }
}

/// Where the first `n` characters are zeros and the next is not, the text
/// without its leading zeros is the text from place `n` on.
proof fn lemma_without_leading_zeros(text: Seq<char>, n: int)
    requires
        0 <= n <= text.len(),
        forall|i: int| 0 <= i < n ==> #[trigger] text[i] == '0',
        n < text.len() ==> text[n] != '0',
    ensures
        without_leading_zeros(text) == text.skip(n),
    decreases n,
{
    if n > 0 {
        let rest = text.drop_first();
        assert forall|i: int| 0 <= i < n - 1 implies #[trigger] rest[i] == '0' by {
            assert(rest[i] == text[i + 1]);
        }
        lemma_without_leading_zeros(rest, n - 1);
        assert(rest.skip(n - 1) =~= text.skip(n));
    } else {
        assert(text.skip(0) =~= text);
    }
}

/// An error among the first `n` hosts is the error of all.
proof fn lemma_short_nids_error(hosts: Seq<Seq<char>>, n: int)
    requires
        0 <= n <= hosts.len(),
        short_nids(hosts.take(n)) is Err,
    ensures
        short_nids(hosts) == short_nids(hosts.take(n)),
    decreases hosts.len() - n,
{
    if n < hosts.len() {
        assert(hosts.take(n + 1).drop_last() =~= hosts.take(n));
        lemma_short_nids_error(hosts, n + 1);
    } else {
        assert(hosts.take(n) =~= hosts);
    }
}

/// The number of one host as the inventory is asked for it, where the host's
/// name begins with the word `nid`.
pub fn short_nid_of(host: &str) -> (short: Option<&str>)
    ensures
        match short {
            Some(number) => has_nid_prefix(host@) && number@ == short_nid(host@),
            None => !has_nid_prefix(host@),
        },
{
    let n = host.unicode_len();
    if n < 3 {
        return None;
    }
    let mut rest = host.chars();
    let first = rest.next();
    assert(host@.skip(0)[0] == host@[0]);
    assert(rest.remaining() =~= host@.skip(1));
    let second = rest.next();
    assert(host@.skip(1)[0] == host@[1]);
    assert(rest.remaining() =~= host@.skip(2));
    let third = rest.next();
    assert(host@.skip(2)[0] == host@[2]);
    assert(rest.remaining() =~= host@.skip(3));
    if first != Some('n') || second != Some('i') || third != Some('d') {
        return None;
    }
    let ghost tail = host@.skip(3);
    let mut start: usize = 3;
    let mut going = true;
    while going && start < n
        invariant
            n == host@.len(),
            3 <= start <= n,
            tail == host@.skip(3),
            rest.obeys_prophetic_iter_laws(),
            going ==> rest.remaining() == host@.skip(start as int),
            forall|i: int| 0 <= i < start - 3 ==> #[trigger] tail[i] == '0',
            !going ==> start < n && tail[start - 3] != '0',
        decreases n - start + if going { 1int } else { 0int },
    {
        let next = rest.next();
        assert(host@.skip(start as int)[0] == host@[start as int]);
        assert(host@.skip(start as int).drop_first() =~= host@.skip(start as int + 1));
        assert(tail[start - 3] == host@[start as int]);
        match next {
            Some(c) => {
                if c == '0' {
                    start = start + 1;
                } else {
                    going = false;
                }
            },
            None => {
                going = false;
            },
        }
    }
    proof {
        lemma_without_leading_zeros(tail, start - 3);
        assert(tail.skip(start - 3) =~= host@.subrange(start as int, n as int));
    }
    Some(host.substring_char(start, n))
}

/// What the inventory is asked for `hosts`: their numbers in one text, with
/// commas between them.
pub fn short_nid_list(hosts: &Vec<String>) -> (outcome: Result<String, NidError>)
    ensures
        text_or_error(outcome) == short_nid_text(hosts.deep_view()),
{
    let ghost all = hosts.deep_view();
    let mut numbers: Vec<String> = Vec::new();
    let mut n: usize = 0;
    assert(all.take(0) =~= Seq::empty());
    assert(numbers.deep_view() =~= Seq::empty());
    while n < hosts.len()
        invariant
            n <= hosts.len(),
            all == hosts.deep_view(),
            short_nids(all.take(n as int)) == Ok::<Seq<Seq<char>>, NidErrorView>(
                numbers.deep_view(),
            ),
        decreases hosts.len() - n,
    {
        proof {
            assert(all.take(n as int + 1).drop_last() =~= all.take(n as int));
            assert(all.take(n as int + 1).last() == hosts@[n as int]@);
        }
        match short_nid_of(hosts[n].as_str()) {
            Some(number) => {
                let ghost before = numbers.deep_view();
                numbers.push(number.to_owned());
                assert(numbers.deep_view() =~= before.push(number@));
            },
            None => {
                proof {
                    lemma_short_nids_error(all, n as int + 1);
                }
                return Err(NidError::MissingPrefix { nid: hosts[n].clone() });
            },
        }
        n = n + 1;
    }
    assert(all.take(hosts.len() as int) =~= all);
    Ok(join(&numbers, ","))
}

/// What the inventory is asked for the host list `user_input_nid`.
pub open spec fn nid_query_of(user_input_nid: Seq<char>) -> Result<Seq<char>, NidErrorView> {
    match hostlist_expansion(user_input_nid) {
        Ok(hosts) => short_nid_text(hosts),
        Err(message) => Err(NidErrorView::Hostlist { message }),
    }
}

/// What the inventory is asked for the host list `user_input_nid`: the
/// numbers of the hosts for which the list stands.
pub fn nid_query(user_input_nid: &str) -> (outcome: Result<String, NidError>)
    ensures
        text_or_error(outcome) == nid_query_of(user_input_nid@),
{
    match expand_hostlist(user_input_nid) {
        Ok(hosts) => short_nid_list(&hosts),
        Err(message) => Err(NidError::Hostlist { message }),
    }
}

/// The ids of `nodes` in their order. The first node without an id is the
/// error.
pub open spec fn ids_of_nodes(nodes: Seq<NodeSummaryView>) -> Result<Seq<Seq<char>>, NidErrorView>
    decreases nodes.len(),
{
    if nodes.len() == 0 {
        Ok(Seq::empty())
    } else {
        match ids_of_nodes(nodes.drop_last()) {
            Err(error) => Err(error),
            Ok(front) => match nodes.last().id {
                Some(id) => Ok(front.push(id)),
                None => Err(NidErrorView::MissingXname),
            },
        }
    }
}

/// An error among the first `n` nodes is the error of all.
proof fn lemma_ids_of_nodes_error(nodes: Seq<NodeSummaryView>, n: int)
    requires
        0 <= n <= nodes.len(),
        ids_of_nodes(nodes.take(n)) is Err,
    ensures
        ids_of_nodes(nodes) == ids_of_nodes(nodes.take(n)),
    decreases nodes.len() - n,
{
    if n < nodes.len() {
        assert(nodes.take(n + 1).drop_last() =~= nodes.take(n));
        lemma_ids_of_nodes_error(nodes, n + 1);
    } else {
        assert(nodes.take(n) =~= nodes);
    }
}

/// The ids of the nodes with which the inventory answered.
pub fn xnames_of(nodes: &Vec<NodeSummary>) -> (outcome: Result<Vec<String>, NidError>)
    ensures
        ids_or_error(outcome) == ids_of_nodes(nodes.deep_view()),
{
    let ghost all = nodes.deep_view();
    let mut ids: Vec<String> = Vec::new();
    let mut n: usize = 0;
    assert(all.take(0) =~= Seq::empty());
    assert(ids.deep_view() =~= Seq::empty());
    while n < nodes.len()
        invariant
            n <= nodes.len(),
            all == nodes.deep_view(),
            ids_of_nodes(all.take(n as int)) == Ok::<Seq<Seq<char>>, NidErrorView>(
                ids.deep_view(),
            ),
        decreases nodes.len() - n,
    {
        proof {
            assert(all.take(n as int + 1).drop_last() =~= all.take(n as int));
            assert(all.take(n as int + 1).last() == nodes@[n as int]@);
        }
        match &nodes[n].id {
            Some(id) => {
                let ghost before = ids.deep_view();
                ids.push(id.clone());
                assert(ids.deep_view() =~= before.push(id@));
            },
            None => {
                proof {
                    lemma_ids_of_nodes_error(all, n as int + 1);
                }
                return Err(NidError::MissingXname);
            },
        }
        n = n + 1;
    }
    assert(all.take(nodes.len() as int) =~= all);
    Ok(ids)
}

} // verus!
