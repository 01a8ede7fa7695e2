//! Parsing of the info-protocol "services" response, which describes the
//! peers of a cluster node:
//! `generation,port,[[node_id,tls_name,[endpoint,...]],...]`.
use vstd::prelude::*;

use crate::errors::{bad_response, Error};
use crate::text::{
    decimal_text, decimal_value, is_digit, lemma_decimal_round_trip, parse_decimal,
    split_fields, split_on, split_str, str_views,
};

verus! {

/// One peer as the parser sees it: its id, its TLS name and its endpoints.
pub struct NodeView {
    pub node_id: Seq<char>,
    pub tls_name: Option<Seq<char>>,
    pub endpoints: Seq<Seq<char>>,
}

/// One topology snapshot as the parser sees it.
pub struct ServicesView {
    pub peers_generation: u32,
    pub port: u16,
    pub nodes: Seq<NodeView>,
}

/// One topology snapshot as reported by a single node.
#[derive(Clone, Debug, PartialEq, Eq)]
pub struct ServicesResponse<'a> {
    pub peers_generation: u32,
    pub port: u16,
    pub nodes: Vec<NodeResponse<'a>>,
}

/// One peer of a topology snapshot; its fields are slices of the response text.
#[derive(Clone, Debug, PartialEq, Eq)]
pub struct NodeResponse<'a> {
    pub node_id: &'a str,
    pub tls_name: Option<&'a str>,
    pub endpoints: Vec<&'a str>,
}

impl<'a> View for NodeResponse<'a> {
    type V = NodeView;

    open spec fn view(&self) -> NodeView {
        NodeView {
            node_id: self.node_id@,
            tls_name: match self.tls_name {
                Some(t) => Some(t@),
                None => None,
            },
            endpoints: str_views(self.endpoints@),
        }
    }
}

pub open spec fn node_views<'a>(v: Seq<NodeResponse<'a>>) -> Seq<NodeView> {
    v.map_values(|n: NodeResponse<'a>| n@)
}

impl<'a> View for ServicesResponse<'a> {
    type V = ServicesView;

    open spec fn view(&self) -> ServicesView {
        ServicesView {
            peers_generation: self.peers_generation,
            port: self.port,
            nodes: node_views(self.nodes@),
        }
    }
}

/// The first comma of `s` at or after position `from`.
pub open spec fn find_comma(s: Seq<char>, from: int) -> Option<int>
    decreases s.len() - from,
{
    if from < 0 || from >= s.len() {
        None
    } else if s[from] == ',' {
        Some(from)
    } else {
        find_comma(s, from + 1)
    }
}

/// The text inside one outer pair of brackets, if `s` has them.
pub open spec fn strip_brackets(s: Seq<char>) -> Option<Seq<char>> {
    if s.len() >= 2 && s[0] == '[' && s[s.len() - 1] == ']' {
        Some(s.subrange(1, s.len() - 1))
    } else {
        None
    }
}

/// The comma-separated fields of `s` (one empty field when `s` is empty).
pub open spec fn split_commas(s: Seq<char>) -> Seq<Seq<char>> {
    split_on(s, ',')
}

/// One bracketed node record `[node_id,tls_name,[endpoint,...]]`.
pub open spec fn node_of(s: Seq<char>) -> Option<NodeView> {
    match strip_brackets(s) {
        None => None,
        Some(inner) => match find_comma(inner, 0) {
            None => None,
            Some(c1) => match find_comma(inner, c1 + 1) {
                None => None,
                Some(c2) => match strip_brackets(inner.subrange(c2 + 1, inner.len() as int)) {
                    None => None,
                    Some(eps) => Some(
                        NodeView {
                            node_id: inner.subrange(0, c1),
                            tls_name: if c2 == c1 + 1 {
                                None
                            } else {
                                Some(inner.subrange(c1 + 1, c2))
                            },
                            endpoints: split_commas(eps),
                        },
                    ),
                },
            },
        },
    }
}

/// The node records of a node list from `pos` on, at bracket depth `depth`,
/// with the record in progress opened at `open`. A record ends where the
/// depth comes back to zero; a closing bracket at depth zero is an error.
pub open spec fn nodes_from(s: Seq<char>, pos: int, depth: nat, open: Option<int>) -> Option<
    Seq<NodeView>,
>
    decreases s.len() - pos,
{
    if pos < 0 || pos >= s.len() {
        Some(seq![])
    } else if s[pos] == '[' {
        nodes_from(
            s,
            pos + 1,
            depth + 1,
            if open is None {
                Some(pos)
            } else {
                open
            },
        )
    } else if s[pos] == ']' {
        if depth == 0 {
            None
        } else if depth == 1 {
            match open {
                None => None,
                Some(o) => match node_of(s.subrange(o, pos + 1)) {
                    None => None,
                    Some(n) => match nodes_from(s, pos + 1, 0, None) {
                        None => None,
                        Some(rest) => Some(seq![n] + rest),
                    },
                },
            }
        } else {
            nodes_from(s, pos + 1, (depth - 1) as nat, open)
        }
    } else {
        nodes_from(s, pos + 1, depth, open)
    }
}

/// A bracketed list of node records.
pub open spec fn node_list_of(s: Seq<char>) -> Option<Seq<NodeView>> {
    match strip_brackets(s) {
        None => None,
        Some(inner) => nodes_from(inner, 0, 0, None),
    }
}

/// What a services response denotes: `None` where it is malformed.
pub open spec fn services_of(s: Seq<char>) -> Option<ServicesView> {
    match find_comma(s, 0) {
        None => None,
        Some(c1) => match decimal_value(s.subrange(0, c1), u32::MAX as int) {
            None => None,
            Some(g) => match find_comma(s, c1 + 1) {
                None => None,
                Some(c2) => match decimal_value(s.subrange(c1 + 1, c2), u16::MAX as int) {
                    None => None,
                    Some(p) => match node_list_of(s.subrange(c2 + 1, s.len() as int)) {
                        None => None,
                        Some(nodes) => Some(
                            ServicesView { peers_generation: g as u32, port: p as u16, nodes },
                        ),
                    },
                },
            },
        },
    }
}

proof fn lemma_find_comma_bounds(s: Seq<char>, from: int)
    ensures
        find_comma(s, from) matches Some(i) ==> from <= i < s.len() && s[i] == ',',
    decreases s.len() - from,
{
    if 0 <= from < s.len() && s[from] != ',' {
        lemma_find_comma_bounds(s, from + 1);
    }
}

fn find_comma_from(s: &str, from: usize) -> (r: Option<usize>)
    requires
        from <= s@.len(),
    ensures
        match r {
            Some(i) => find_comma(s@, from as int) == Some(i as int),
            None => find_comma(s@, from as int) is None,
        },
{
    let n = s.unicode_len();
    let mut i = from;
    while i < n
        invariant
            from <= i <= n,
            n == s@.len(),
            find_comma(s@, from as int) == find_comma(s@, i as int),
        decreases n - i,
    {
        if s.get_char(i) == ',' {
            return Some(i);
        }
        i = i + 1;
    }
    None
}

fn remove_outer_brackets<'a>(s: &'a str) -> (r: Result<&'a str, Error>)
    ensures
        match r {
            Ok(t) => strip_brackets(s@) == Some(t@),
            Err(e) => strip_brackets(s@) is None && e is BadResponse,
        },
{
    let n = s.unicode_len();
    if n >= 2 && s.get_char(0) == '[' && s.get_char(n - 1) == ']' {
        Ok(s.substring_char(1, n - 1))
    } else {
        Err(bad_response("Missing outer brackets"))
    }
}

fn read_node<'a>(node: &'a str) -> (r: Result<NodeResponse<'a>, Error>)
    ensures
        match r {
            Ok(n) => node_of(node@) == Some(n@),
            Err(e) => node_of(node@) is None && e is BadResponse,
        },
{
    let inner = remove_outer_brackets(node)?;
    let n = inner.unicode_len();
    let first = match find_comma_from(inner, 0) {
        Some(c) => c,
        None => {
            return Err(bad_response("Missing section after node id"));
        },
    };
    proof {
        lemma_find_comma_bounds(inner@, 0);
    }
    let second = match find_comma_from(inner, first + 1) {
        Some(c) => c,
        None => {
            return Err(bad_response("Missing section after tls name"));
        },
    };
    proof {
        lemma_find_comma_bounds(inner@, first + 1);
    }
    let node_id = inner.substring_char(0, first);
    let tls_name = if second == first + 1 {
        None
    } else {
        Some(inner.substring_char(first + 1, second))
    };
    let endpoints_text = remove_outer_brackets(inner.substring_char(second + 1, n))?;
    let endpoints = split_str(endpoints_text, ',');
    Ok(NodeResponse { node_id, tls_name, endpoints })
}

pub open spec fn prepend(acc: Seq<NodeView>, rest: Option<Seq<NodeView>>) -> Option<Seq<NodeView>> {
    match rest {
        None => None,
        Some(r) => Some(acc + r),
    }
}

fn read_nodes<'a>(list: &'a str) -> (r: Result<Vec<NodeResponse<'a>>, Error>)
    ensures
        match r {
            Ok(v) => node_list_of(list@) == Some(node_views(v@)),
            Err(e) => node_list_of(list@) is None && e is BadResponse,
        },
{
    let nodes = remove_outer_brackets(list)?;
    let n = nodes.unicode_len();
    let mut result: Vec<NodeResponse<'a>> = Vec::new();
    let mut depth: usize = 0;
    let mut open: Option<usize> = None;
    let mut i: usize = 0;
    while i < n
        invariant
            i <= n,
            n == nodes@.len(),
            depth <= i,
            strip_brackets(list@) == Some(nodes@),
            open matches Some(o) ==> o < i,
            nodes_from(nodes@, 0, 0, None) == prepend(
                node_views(result@),
                nodes_from(
                    nodes@,
                    i as int,
                    depth as nat,
                    match open {
                        Some(o) => Some(o as int),
                        None => None,
                    },
                ),
            ),
        decreases n - i,
    {
        let c = nodes.get_char(i);
        if c == '[' {
            if open.is_none() {
                open = Some(i);
            }
            depth = depth + 1;
        } else if c == ']' {
            if depth == 0 {
                return Err(bad_response("Malformed nodes list"));
            }
            depth = depth - 1;
            if depth == 0 {
                let o = match open {
                    Some(o) => o,
                    None => {
                        return Err(bad_response("Wrong node list parser state"));
                    },
                };
                let node = read_node(nodes.substring_char(o, i + 1))?;
                proof {
                    assert(node_views(result@.push(node)) =~= node_views(result@) + seq![node@]);
                    assert(node_views(result@) + (seq![node@] + nodes_from(nodes@, i + 1, 0, None)->0)
                        =~= node_views(result@.push(node)) + nodes_from(nodes@, i + 1, 0, None)->0);
                }
                result.push(node);
                open = None;
            }
        }
        i = i + 1;
    }
    assert(node_views(result@) + seq![] =~= node_views(result@));
    Ok(result)
}

/// Parses the info-protocol "services" response
/// `generation,port,[[node_id,tls_name,[endpoint,...]],...]`.
/// An empty TLS name stands for none. Every returned field is a slice of
/// `response`; any malformed text gives `BadResponse`.
pub fn parse_services_response<'a>(response: &'a str) -> (r: Result<ServicesResponse<'a>, Error>)
    ensures
        match r {
            Ok(v) => services_of(response@) == Some(v@),
            Err(e) => services_of(response@) is None && e is BadResponse,
        },
{
    let n = response.unicode_len();
    let first = match find_comma_from(response, 0) {
        Some(c) => c,
        None => {
            return Err(bad_response("Missing peers generation"));
        },
    };
    proof {
        lemma_find_comma_bounds(response@, 0);
    }
    let peers_generation = match parse_decimal(response.substring_char(0, first), 0xffff_ffff) {
        Some(g) => g as u32,
        None => {
            return Err(bad_response("Peers generation should be u32"));
        },
    };
    let second = match find_comma_from(response, first + 1) {
        Some(c) => c,
        None => {
            return Err(bad_response("Missing port"));
        },
    };
    proof {
        lemma_find_comma_bounds(response@, first + 1);
    }
    let port = match parse_decimal(response.substring_char(first + 1, second), 0xffff) {
        Some(p) => p as u16,
        None => {
            return Err(bad_response("TCP port should be u16"));
        },
    };
    let nodes = read_nodes(response.substring_char(second + 1, n))?;
    Ok(ServicesResponse { peers_generation, port, nodes })
}


/// A field holds no delimiter of the grammar.
pub open spec fn plain_field(f: Seq<char>) -> bool {
    forall|i: int| 0 <= i < f.len() ==> #[trigger] f[i] != ',' && f[i] != '[' && f[i] != ']'
}

pub open spec fn no_brackets(f: Seq<char>) -> bool {
    forall|i: int| 0 <= i < f.len() ==> #[trigger] f[i] != '[' && f[i] != ']'
}

/// `parts` separated by commas.
pub open spec fn join_fields(parts: Seq<Seq<char>>) -> Seq<char>
    decreases parts.len(),
{
    if parts.len() == 0 {
        seq![]
    } else if parts.len() == 1 {
        parts[0]
    } else {
        parts[0] + seq![','] + join_fields(parts.drop_first())
    }
}

pub open spec fn tls_text(t: Option<Seq<char>>) -> Seq<char> {
    match t {
        Some(x) => x,
        None => seq![],
    }
}

/// The text inside the brackets of one node record.
pub open spec fn node_inner(n: NodeView) -> Seq<char> {
    n.node_id + seq![','] + tls_text(n.tls_name) + seq![','] + seq!['['] + join_fields(n.endpoints)
        + seq![']']
}

/// The text of one node record.
pub open spec fn node_text(n: NodeView) -> Seq<char> {
    seq!['['] + node_inner(n) + seq![']']
}

pub open spec fn node_texts(ns: Seq<NodeView>) -> Seq<Seq<char>> {
    ns.map_values(|n: NodeView| node_text(n))
}

/// The text of a services response in the grammar that the parser reads.
pub open spec fn services_text(r: ServicesView) -> Seq<char> {
    decimal_text(r.peers_generation as nat) + seq![','] + decimal_text(r.port as nat) + seq![',']
        + seq!['['] + join_fields(node_texts(r.nodes)) + seq![']']
}

/// A node that the grammar can express: no field holds a delimiter, a
/// TLS name is never empty and there is at least one endpoint.
pub open spec fn node_well_formed(n: NodeView) -> bool {
    &&& plain_field(n.node_id)
    &&& (n.tls_name matches Some(t) ==> t.len() > 0 && plain_field(t))
    &&& n.endpoints.len() > 0
    &&& forall|i: int| 0 <= i < n.endpoints.len() ==> plain_field(#[trigger] n.endpoints[i])
}

pub open spec fn services_well_formed(r: ServicesView) -> bool {
    forall|i: int| 0 <= i < r.nodes.len() ==> node_well_formed(#[trigger] r.nodes[i])
}

proof fn lemma_find_comma_at(s: Seq<char>, from: int, k: int)
    requires
        0 <= from <= k < s.len(),
        s[k] == ',',
        forall|j: int| from <= j < k ==> s[j] != ',',
    ensures
        find_comma(s, from) == Some(k),
    decreases k - from,
{
    if from < k {
        lemma_find_comma_at(s, from + 1, k);
    }
}

proof fn lemma_join_no_brackets(parts: Seq<Seq<char>>)
    requires
        forall|i: int| 0 <= i < parts.len() ==> plain_field(#[trigger] parts[i]),
    ensures
        no_brackets(join_fields(parts)),
    decreases parts.len(),
{
    if parts.len() > 1 {
        let rest = parts.drop_first();
        assert forall|i: int| 0 <= i < rest.len() implies plain_field(#[trigger] rest[i]) by {
            assert(rest[i] == parts[i + 1]);
        }
        lemma_join_no_brackets(rest);
        let j = join_fields(parts);
        let p = parts[0];
        assert(plain_field(parts[0]));
        assert forall|i: int| 0 <= i < j.len() implies #[trigger] j[i] != '[' && j[i] != ']' by {
            if i < p.len() {
                assert(j[i] == p[i]);
            } else if i > p.len() {
                assert(j[i] == join_fields(rest)[i - p.len() - 1]);
            }
        }
    } else if parts.len() == 1 {
        assert(plain_field(parts[0]));
    }
}

proof fn lemma_split_skip(s: Seq<char>, start: int, pos: int, q: int)
    requires
        0 <= pos <= q <= s.len(),
        forall|j: int| pos <= j < q ==> s[j] != ',',
    ensures
        split_fields(s, ',', start, pos) == split_fields(s, ',', start, q),
    decreases q - pos,
{
    if pos < q {
        lemma_split_skip(s, start, pos + 1, q);
    }
}

proof fn lemma_split_join(s: Seq<char>, k: int, parts: Seq<Seq<char>>)
    requires
        0 <= k <= s.len(),
        s.subrange(k, s.len() as int) == join_fields(parts),
        parts.len() > 0,
        forall|i: int| 0 <= i < parts.len() ==> plain_field(#[trigger] parts[i]),
    ensures
        split_fields(s, ',', k, k) == parts,
    decreases parts.len(),
{
    let e = parts[0];
    let m = k + e.len();
    assert(plain_field(e));
    let sub = s.subrange(k, s.len() as int);
    if parts.len() > 1 {
        assert(sub == e + seq![','] + join_fields(parts.drop_first()));
    }
    assert(sub.len() >= e.len());
    assert forall|j: int| k <= j < m implies s[j] != ',' by {
        assert(s[j] == sub[j - k]);
        assert(sub[j - k] == e[j - k]);
    }
    if parts.len() == 1 {
        assert(m == s.len());
        lemma_split_skip(s, k, k, m);
        assert(s.subrange(k, m) =~= e);
        assert(parts =~= seq![e]);
    } else {
        let rest = parts.drop_first();
        assert(sub[e.len() as int] == ',');
        assert(s[m] == ',');
        lemma_split_skip(s, k, k, m);
        assert(s.subrange(k, m) =~= e);
        let jr = join_fields(rest);
        assert(sub == e + seq![','] + jr);
        assert forall|i: int| 0 <= i < jr.len() implies s[m + 1 + i] == jr[i] by {
            assert(s[m + 1 + i] == sub[e.len() + 1 + i]);
        }
        assert(s.subrange(m + 1, s.len() as int) =~= jr);
        assert forall|i: int| 0 <= i < rest.len() implies plain_field(#[trigger] rest[i]) by {
            assert(rest[i] == parts[i + 1]);
        }
        lemma_split_join(s, m + 1, rest);
        assert(parts =~= seq![e] + rest);
    }
}

proof fn lemma_node_round_trip(n: NodeView)
    requires
        node_well_formed(n),
    ensures
        node_of(node_text(n)) == Some(n),
{
    let id = n.node_id;
    let tt = tls_text(n.tls_name);
    let j = join_fields(n.endpoints);
    let t = node_text(n);
    let inner = node_inner(n);
    assert(t.subrange(1, t.len() - 1) =~= inner);
    assert(strip_brackets(t) == Some(inner));
    let c1 = id.len() as int;
    let c2 = c1 + 1 + tt.len();
    assert(plain_field(id));
    assert(inner[c1] == ',');
    assert forall|k: int| 0 <= k < c1 implies inner[k] != ',' by {
        assert(inner[k] == id[k]);
    }
    lemma_find_comma_at(inner, 0, c1);
    assert(inner[c2] == ',');
    assert(tt.len() > 0 ==> plain_field(tt));
    assert forall|k: int| c1 + 1 <= k < c2 implies inner[k] != ',' by {
        assert(inner[k] == tt[k - c1 - 1]);
    }
    lemma_find_comma_at(inner, c1 + 1, c2);
    let list = inner.subrange(c2 + 1, inner.len() as int);
    assert(list =~= seq!['['] + j + seq![']']);
    assert(list.subrange(1, list.len() - 1) =~= j);
    assert(strip_brackets(list) == Some(j));
    assert(j.subrange(0, j.len() as int) =~= j);
    lemma_split_join(j, 0, n.endpoints);
    assert(inner.subrange(0, c1) =~= id);
    assert(inner.subrange(c1 + 1, c2) =~= tt);
}

proof fn lemma_nodes_skip(s: Seq<char>, pos: int, q: int, depth: nat, open: Option<int>)
    requires
        0 <= pos <= q <= s.len(),
        forall|j: int| pos <= j < q ==> s[j] != '[' && s[j] != ']',
    ensures
        nodes_from(s, pos, depth, open) == nodes_from(s, q, depth, open),
    decreases q - pos,
{
    if pos < q {
        lemma_nodes_skip(s, pos + 1, q, depth, open);
    }
}

proof fn lemma_node_scan(s: Seq<char>, k: int, n: NodeView)
    requires
        0 <= k,
        k + node_text(n).len() <= s.len(),
        s.subrange(k, k + node_text(n).len()) == node_text(n),
        node_well_formed(n),
    ensures
        nodes_from(s, k, 0, None) == prepend(seq![n], nodes_from(s, k + node_text(n).len(), 0, None)),
{
    let t = node_text(n);
    let l = t.len() as int;
    assert forall|i: int| 0 <= i < l implies s[k + i] == t[i] by {
        assert(s[k + i] == s.subrange(k, k + l)[i]);
    }
    let id = n.node_id;
    let tt = tls_text(n.tls_name);
    let j = join_fields(n.endpoints);
    let a = (1 + id.len() + 1 + tt.len() + 1) as int;
    let b = a + 1 + j.len() as int;
    assert(t =~= seq!['['] + id + seq![','] + tt + seq![','] + seq!['['] + j + seq![']']
        + seq![']']);
    assert(l == b + 2);
    assert(s[k] == t[0]);
    assert(s[k + a] == t[a]);
    assert(s[k + b] == t[b]);
    assert(s[k + b + 1] == t[b + 1]);
    assert(plain_field(id));
    assert(tt.len() > 0 ==> plain_field(tt));
    assert forall|x: int| k + 1 <= x < k + a implies s[x] != '[' && s[x] != ']' by {
        let i = x - k;
        assert(s[x] == t[i]);
        if i <= id.len() {
            assert(t[i] == id[i - 1]);
        } else if 1 + id.len() + 1 <= i < 1 + id.len() + 1 + tt.len() {
            assert(t[i] == tt[i - 2 - id.len()]);
        }
    }
    lemma_join_no_brackets(n.endpoints);
    assert forall|x: int| k + a + 1 <= x < k + b implies s[x] != '[' && s[x] != ']' by {
        let i = x - k;
        assert(s[x] == t[i]);
        assert(t[i] == j[i - a - 1]);
    }
    lemma_nodes_skip(s, k + 1, k + a, 1, Some(k));
    lemma_nodes_skip(s, k + a + 1, k + b, 2, Some(k));
    lemma_node_round_trip(n);
    assert(t[0] == '[' && t[a] == '[' && t[b] == ']' && t[b + 1] == ']');
    assert(nodes_from(s, k, 0, None) == nodes_from(s, k + 1, 1, Some(k)));
    assert(nodes_from(s, k + a, 1, Some(k)) == nodes_from(s, k + a + 1, 2, Some(k)));
    assert(nodes_from(s, k + b, 2, Some(k)) == nodes_from(s, k + b + 1, 1, Some(k)));
    assert(nodes_from(s, k, 0, None) == prepend(seq![n], nodes_from(s, k + l, 0, None)));
}

proof fn lemma_nodes_join(s: Seq<char>, k: int, ns: Seq<NodeView>)
    requires
        0 <= k <= s.len(),
        s.subrange(k, s.len() as int) == join_fields(node_texts(ns)),
        forall|i: int| 0 <= i < ns.len() ==> node_well_formed(#[trigger] ns[i]),
    ensures
        nodes_from(s, k, 0, None) == Some(ns),
    decreases ns.len(),
{
    let sub = s.subrange(k, s.len() as int);
    if ns.len() == 0 {
        assert(sub.len() == 0);
        assert(ns =~= seq![]);
    } else {
        let n = ns[0];
        assert(node_well_formed(n));
        let t = node_text(n);
        assert(node_texts(ns)[0] == t);
        let rest = ns.drop_first();
        if ns.len() > 1 {
            assert(node_texts(ns).drop_first() =~= node_texts(rest));
            assert(sub == t + seq![','] + join_fields(node_texts(rest)));
        } else {
            assert(sub == t);
        }
        assert(sub.len() >= t.len());
        let l = t.len() as int;
        assert forall|i: int| 0 <= i < l implies s[k + i] == t[i] by {
            assert(s[k + i] == sub[i]);
        }
        assert(s.subrange(k, k + l) =~= t);
        lemma_node_scan(s, k, n);
        if ns.len() == 1 {
            assert(k + l == s.len());
            assert(ns =~= seq![n]);
        } else {
            let jr = join_fields(node_texts(rest));
            assert(s[k + l] == sub[l]);
            assert forall|i: int| 0 <= i < jr.len() implies s[k + l + 1 + i] == jr[i] by {
                assert(s[k + l + 1 + i] == sub[l + 1 + i]);
            }
            assert(s.subrange(k + l + 1, s.len() as int) =~= jr);
            assert forall|i: int| 0 <= i < rest.len() implies node_well_formed(#[trigger] rest[i]) by {
                assert(rest[i] == ns[i + 1]);
            }
            lemma_nodes_join(s, k + l + 1, rest);
            assert(ns =~= seq![n] + rest);
        }
    }
}

/// Parsing the text of a well-formed response gives the response back:
/// printing what was parsed and parsing it again yields an equal structure.
pub proof fn lemma_parse_round_trip(r: ServicesView)
    requires
        services_well_formed(r),
    ensures
        services_of(services_text(r)) == Some(r),
{
    let s = services_text(r);
    let g = decimal_text(r.peers_generation as nat);
    let p = decimal_text(r.port as nat);
    let j = join_fields(node_texts(r.nodes));
    let list = seq!['['] + j + seq![']'];
    assert(s =~= g + seq![','] + p + seq![','] + list);
    lemma_decimal_round_trip(r.peers_generation as nat, u32::MAX as int);
    lemma_decimal_round_trip(r.port as nat, u16::MAX as int);
    assert(is_digit(g[0]) && is_digit(p[0]));
    let c1 = g.len() as int;
    let c2 = c1 + 1 + p.len();
    assert(s[c1] == ',');
    assert forall|k: int| 0 <= k < c1 implies s[k] != ',' by {
        assert(s[k] == g[k]);
        assert(is_digit(g[k]));
    }
    lemma_find_comma_at(s, 0, c1);
    assert(s[c2] == ',');
    assert forall|k: int| c1 + 1 <= k < c2 implies s[k] != ',' by {
        assert(s[k] == p[k - c1 - 1]);
        assert(is_digit(p[k - c1 - 1]));
    }
    lemma_find_comma_at(s, c1 + 1, c2);
    assert(s.subrange(0, c1) =~= g);
    assert(s.subrange(c1 + 1, c2) =~= p);
    assert(s.subrange(c2 + 1, s.len() as int) =~= list);
    assert(list.subrange(1, list.len() - 1) =~= j);
    assert(j.subrange(0, j.len() as int) =~= j);
    lemma_nodes_join(j, 0, r.nodes);
}

/// A response whose node list, after the second comma, lacks its outer
/// brackets is rejected as a whole.
pub proof fn lemma_unbracketed_node_list_rejected(s: Seq<char>)
    requires
        find_comma(s, 0) is Some,
        find_comma(s, find_comma(s, 0)->0 + 1) is Some,
        strip_brackets(s.subrange(find_comma(s, find_comma(s, 0)->0 + 1)->0 + 1, s.len() as int))
            is None,
    ensures
        services_of(s) is None,
{
}

/// A node record whose endpoint list lacks its brackets is rejected.
pub proof fn lemma_unbracketed_endpoints_rejected(t: Seq<char>)
    requires
        strip_brackets(t) is Some,
        find_comma(strip_brackets(t)->0, 0) is Some,
        find_comma(strip_brackets(t)->0, find_comma(strip_brackets(t)->0, 0)->0 + 1) is Some,
        strip_brackets(
            strip_brackets(t)->0.subrange(
                find_comma(strip_brackets(t)->0, find_comma(strip_brackets(t)->0, 0)->0 + 1)->0 + 1,
                strip_brackets(t)->0.len() as int,
            ),
        ) is None,
    ensures
        node_of(t) is None,
{
}

/// A node list in which a complete record is rejected is rejected as a
/// whole: the parser never returns the records before it.
pub proof fn lemma_bad_record_rejects_list(s: Seq<char>, pos: int, open: int)
    requires
        0 <= open <= pos < s.len(),
        s[pos] == ']',
        node_of(s.subrange(open, pos + 1)) is None,
    ensures
        nodes_from(s, pos, 1, Some(open)) is None,
{
}

} // verus!
