//! The route trie: insertion, lookup, and enumeration of routes.
//!
//! Routes are held in a trie whose edges are path segments.  A node may
//! have many literal edges, at most one variable edge, and at most one
//! wildcard edge; a wildcard node is terminal.  Each node keys its
//! endpoints by upper-cased method name, and a method's endpoints are
//! distinguished by non-overlapping version predicates.  Lookup walks the
//! trie without backtracking, preferring literal edges to variable edges
//! and variable edges to wildcard edges, and classifies misses as
//! Bad-Request, Not-Found or Method-Not-Allowed.

use vstd::prelude::*;

use crate::endpoint::ApiEndpoint;
use crate::endpoint::EndpointView;
use crate::endpoint::LookupOkView;
use crate::endpoint::RequestEndpointMetadata;
use crate::endpoint::RouterLookupResult;
use crate::endpoint::ok_view_of;
use crate::path::InputError;
use crate::path::InputPath;
use crate::path::PathSegment;
use crate::path::PathSegmentView;
use crate::path::RouteError;
use crate::path::RouteErrorView;
use crate::path::seg_err_view;

use crate::path::input_path_to_segments;
use crate::path::input_segments_spec;
use crate::path::route_parts;
use crate::path::segment_view;
use crate::path::try_route_path;
use crate::path::try_segment;
use crate::path::valid_route_path;
use crate::path::valid_route_segment;
use crate::util::ascii_uppercase;
use crate::util::str_eq;
use crate::util::upper_str;
use crate::varmap::VarValueView;
use crate::varmap::VariableSet;
use crate::varmap::VariableValue;
use crate::varmap::lemma_seq_str_lt_irrefl;
use crate::varmap::lemma_seq_str_lt_trans;
use crate::varmap::seq_str_lt;
use crate::varmap::str_cmp;
use crate::version::ApiEndpointVersions;
use crate::version::Version;
use crate::version::opt_deref;
use crate::version::version_render;

verus! {

broadcast use vstd::std_specs::vec::group_vec_axioms;

// ---------------------------------------------------------------------
// The trie and its mathematical view
// ---------------------------------------------------------------------

/// A node of the route trie: the endpoints served at this position, and
/// the outgoing edges.  Literal edges and method buckets are kept sorted
/// by key.
#[derive(Debug)]
pub struct HttpRouterNode {
    /// endpoints for each method at this position, keyed by upper-cased
    /// method name
    pub methods: Vec<(String, Vec<ApiEndpoint>)>,
    /// edges for literal path segments
    pub literal_edges: Vec<(String, HttpRouterNode)>,
    /// the edge for a single-segment variable, at most one per node
    pub variable_edge: Option<Box<(String, HttpRouterNode)>>,
    /// the edge for a trailing wildcard variable, at most one per node
    pub rest_edge: Option<Box<(String, HttpRouterNode)>>,
}

/// A router: the root of the trie, and whether any registered endpoint is
/// constrained by version.
#[derive(Debug)]
pub struct HttpRouter {
    pub root: HttpRouterNode,
    pub has_versioned_routes: bool,
}

/// The mathematical value of a trie node.  The variable and wildcard
/// edges are sequences of length at most one.
#[verifier::ext_equal]
pub struct NodeView {
    pub methods: Seq<(Seq<char>, Seq<EndpointView>)>,
    pub literals: Seq<(Seq<char>, NodeView)>,
    pub variable: Seq<(Seq<char>, NodeView)>,
    pub rest: Seq<(Seq<char>, NodeView)>,
}

/// The mathematical value of a node.
pub open spec fn node_view(node: HttpRouterNode) -> NodeView
    decreases node,
{
    NodeView {
        methods: Seq::new(
            node.methods@.len(),
            |i: int|
                (
                    node.methods@[i].0@,
                    node.methods@[i].1@.map_values(|e: ApiEndpoint| e@),
                ),
        ),
        literals: literals_view(node, 0),
        variable: match node.variable_edge {
            Some(b) => seq![(b.0@, node_view(b.1))],
            None => Seq::empty(),
        },
        rest: match node.rest_edge {
            Some(b) => seq![(b.0@, node_view(b.1))],
            None => Seq::empty(),
        },
    }
}

/// The views of a node's literal edges from position `i` on.
pub open spec fn literals_view(node: HttpRouterNode, i: int) -> Seq<(Seq<char>, NodeView)>
    decreases node.literal_edges, node.literal_edges@.len() - i,
{
    if i < 0 || i >= node.literal_edges@.len() {
        Seq::empty()
    } else {
        seq![(node.literal_edges@[i].0@, node_view(node.literal_edges@[i].1))] + literals_view(
            node,
            i + 1,
        )
    }
}

/// How the view of the literal edges reads off the edges themselves.
pub proof fn lemma_literals_view_from(node: HttpRouterNode, i: int)
    requires
        0 <= i <= node.literal_edges@.len(),
    ensures
        literals_view(node, i).len() == node.literal_edges@.len() - i,
        forall|j: int|
            0 <= j < node.literal_edges@.len() - i ==> #[trigger] literals_view(node, i)[j] == (
                node.literal_edges@[i + j].0@,
                node_view(node.literal_edges@[i + j].1),
            ),
    decreases node.literal_edges@.len() - i,
{
    if i < node.literal_edges@.len() {
        lemma_literals_view_from(node, i + 1);
    }
}

/// The view of the literal edges, entry by entry.
pub proof fn lemma_literals_view(node: HttpRouterNode)
    ensures
        node_view(node).literals.len() == node.literal_edges@.len(),
        forall|j: int|
            0 <= j < node.literal_edges@.len() ==> #[trigger] node_view(node).literals[j] == (
                node.literal_edges@[j].0@,
                node_view(node.literal_edges@[j].1),
            ),
{
    lemma_literals_view_from(node, 0);
}

/// A node with nothing in it.
pub open spec fn empty_nv() -> NodeView {
    NodeView {
        methods: Seq::empty(),
        literals: Seq::empty(),
        variable: Seq::empty(),
        rest: Seq::empty(),
    }
}

impl HttpRouterNode {
    /// A node with no endpoints and no edges.
    pub fn new() -> (n: HttpRouterNode)
        ensures
            node_view(n) =~= empty_nv(),
    {
        let n = HttpRouterNode {
            methods: Vec::new(),
            literal_edges: Vec::new(),
            variable_edge: None,
            rest_edge: None,
        };
        proof {
            lemma_literals_view(n);
            assert(node_view(n).methods =~= Seq::<(Seq<char>, Seq<EndpointView>)>::empty());
            assert(node_view(n).literals =~= Seq::<(Seq<char>, NodeView)>::empty());
            assert(node_view(n).variable =~= Seq::<(Seq<char>, NodeView)>::empty());
            assert(node_view(n).rest =~= Seq::<(Seq<char>, NodeView)>::empty());
        }
        n
    }
}

// ---------------------------------------------------------------------
// Association lookups over view sequences
// ---------------------------------------------------------------------

/// The first value bound to key `k` in an association sequence, if any.
pub open spec fn assoc_get<V>(s: Seq<(Seq<char>, V)>, k: Seq<char>) -> Option<V>
    decreases s.len(),
{
    if s.len() == 0 {
        None
    } else if s[0].0 == k {
        Some(s[0].1)
    } else {
        assoc_get(s.drop_first(), k)
    }
}

/// Keys held in strictly increasing order, so each occurs once.
pub open spec fn sorted_keys<V>(s: Seq<(Seq<char>, V)>) -> bool {
    forall|i: int, j: int|
        0 <= i < j < s.len() ==> seq_str_lt(#[trigger] s[i].0, #[trigger] s[j].0)
}

/// Bind `k` to `v`: replace the entry holding `k`, or insert a new entry
/// at its place in key order.
pub open spec fn set_assoc<V>(s: Seq<(Seq<char>, V)>, k: Seq<char>, v: V) -> Seq<(Seq<char>, V)>
    decreases s.len(),
{
    if s.len() == 0 {
        seq![(k, v)]
    } else if s[0].0 == k {
        seq![(k, v)] + s.drop_first()
    } else if seq_str_lt(k, s[0].0) {
        seq![(k, v)] + s
    } else {
        seq![s[0]] + set_assoc(s.drop_first(), k, v)
    }
}

proof fn lemma_assoc_at<V>(s: Seq<(Seq<char>, V)>, k: Seq<char>, j: int)
    requires
        0 <= j < s.len(),
        s[j].0 == k,
        forall|t: int| 0 <= t < j ==> s[t].0 != k,
    ensures
        assoc_get(s, k) == Some(s[j].1),
    decreases j,
{
    if j > 0 {
        lemma_assoc_at(s.drop_first(), k, j - 1);
    }
}

proof fn lemma_assoc_missing<V>(s: Seq<(Seq<char>, V)>, k: Seq<char>)
    requires
        forall|t: int| 0 <= t < s.len() ==> s[t].0 != k,
    ensures
        assoc_get(s, k) is None,
    decreases s.len(),
{
    if s.len() > 0 {
        lemma_assoc_missing(s.drop_first(), k);
    }
}

/// Replacing the entry at the key's position is `set_assoc`.
proof fn lemma_set_assoc_replace<V>(s: Seq<(Seq<char>, V)>, k: Seq<char>, v: V, p: int)
    requires
        sorted_keys(s),
        0 <= p < s.len(),
        s[p].0 == k,
        forall|j: int| 0 <= j < p ==> seq_str_lt(#[trigger] s[j].0, k),
    ensures
        set_assoc(s, k, v) =~= s.update(p, (k, v)),
    decreases p,
{
    lemma_seq_str_lt_irrefl(k);
    if p > 0 {
        assert(forall|t: int| 0 <= t < s.len() - 1 ==> s.drop_first()[t] == s[t + 1]);
        lemma_set_assoc_replace(s.drop_first(), k, v, p - 1);
        assert(seq_str_lt(s[0].0, k));
        if seq_str_lt(k, s[0].0) {
            lemma_seq_str_lt_trans(s[0].0, k, s[0].0);
            lemma_seq_str_lt_irrefl(s[0].0);
        }
        assert(set_assoc(s, k, v) =~= seq![s[0]] + set_assoc(s.drop_first(), k, v));
    }
}

/// Inserting a fresh entry at its sorted position is `set_assoc`.
proof fn lemma_set_assoc_insert<V>(s: Seq<(Seq<char>, V)>, k: Seq<char>, v: V, p: int)
    requires
        sorted_keys(s),
        0 <= p <= s.len(),
        forall|j: int| 0 <= j < p ==> seq_str_lt(#[trigger] s[j].0, k),
        p < s.len() ==> seq_str_lt(k, s[p].0),
    ensures
        set_assoc(s, k, v) =~= s.insert(p, (k, v)),
    decreases p,
{
    lemma_seq_str_lt_irrefl(k);
    if p == 0 {
        if s.len() > 0 {
            assert(s[0].0 != k);
        }
    } else {
        assert(forall|t: int| 0 <= t < s.len() - 1 ==> s.drop_first()[t] == s[t + 1]);
        lemma_set_assoc_insert(s.drop_first(), k, v, p - 1);
        assert(seq_str_lt(s[0].0, k));
        if seq_str_lt(k, s[0].0) {
            lemma_seq_str_lt_trans(s[0].0, k, s[0].0);
            lemma_seq_str_lt_irrefl(s[0].0);
        }
        assert(set_assoc(s, k, v) =~= seq![s[0]] + set_assoc(s.drop_first(), k, v));
    }
}

/// What `set_assoc` does to the entries and to every association lookup.
proof fn lemma_set_assoc<V>(s: Seq<(Seq<char>, V)>, k: Seq<char>, v: V)
    requires
        sorted_keys(s),
    ensures
        sorted_keys(set_assoc(s, k, v)),
        assoc_get(set_assoc(s, k, v), k) == Some(v),
        forall|k2: Seq<char>| k2 != k ==> #[trigger] assoc_get(set_assoc(s, k, v), k2)
            == assoc_get(s, k2),
        exists|j: int| 0 <= j < set_assoc(s, k, v).len() && #[trigger] set_assoc(s, k, v)[j]
            == (k, v),
        forall|j: int|
            0 <= j < set_assoc(s, k, v).len() ==> #[trigger] set_assoc(s, k, v)[j] == (k, v) || (
            s.contains(set_assoc(s, k, v)[j]) && set_assoc(s, k, v)[j].0 != k),
        forall|j: int|
            0 <= j < s.len() && s[j].0 != k ==> set_assoc(s, k, v).contains(#[trigger] s[j]),
    decreases s.len(),
{
    lemma_seq_str_lt_irrefl(k);
    let r = set_assoc(s, k, v);
    if s.len() == 0 {
        assert(r[0] == (k, v));
        assert(assoc_get(r, k) == Some(v));
        assert forall|k2: Seq<char>| k2 != k implies #[trigger] assoc_get(r, k2) == assoc_get(
            s,
            k2,
        ) by {
            assert(r.drop_first() =~= Seq::<(Seq<char>, V)>::empty());
            assert(assoc_get(r, k2) == assoc_get(r.drop_first(), k2));
        };
    } else if s[0].0 == k {
        assert(r[0] == (k, v));
        assert(assoc_get(r, k) == Some(v));
        assert forall|j: int| 0 <= j < r.len() implies #[trigger] r[j] == (k, v) || (s.contains(
            r[j],
        ) && r[j].0 != k) by {
            if j > 0 {
                assert(r[j] == s[j]);
                lemma_seq_str_lt_irrefl(s[j].0);
            }
        };
        assert forall|j: int| 0 <= j < s.len() && s[j].0 != k implies r.contains(
            #[trigger] s[j],
        ) by {
            assert(r[j] == s[j]);
        };
        assert forall|k2: Seq<char>| k2 != k implies #[trigger] assoc_get(r, k2) == assoc_get(
            s,
            k2,
        ) by {
            assert(r.drop_first() =~= s.drop_first());
            assert(r[0].0 == k);
            assert(assoc_get(r, k2) == assoc_get(r.drop_first(), k2));
            assert(assoc_get(s, k2) == assoc_get(s.drop_first(), k2));
        };
    } else if seq_str_lt(k, s[0].0) {
        assert(r[0] == (k, v));
        assert(assoc_get(r, k) == Some(v));
        assert(sorted_keys(r)) by {
            assert forall|i: int, j: int| 0 <= i < j < r.len() implies seq_str_lt(
                #[trigger] r[i].0,
                #[trigger] r[j].0,
            ) by {
                if i == 0 {
                    if j > 1 {
                        lemma_seq_str_lt_trans(k, s[0].0, s[j - 1].0);
                    }
                } else {
                    assert(r[i] == s[i - 1] && r[j] == s[j - 1]);
                }
            };
        };
        assert forall|j: int| 0 <= j < r.len() implies #[trigger] r[j] == (k, v) || (s.contains(
            r[j],
        ) && r[j].0 != k) by {
            if j > 0 {
                assert(r[j] == s[j - 1]);
                if j == 1 {
                } else {
                    lemma_seq_str_lt_trans(k, s[0].0, s[j - 1].0);
                }
                lemma_seq_str_lt_irrefl(k);
            }
        };
        assert forall|j: int| 0 <= j < s.len() && s[j].0 != k implies r.contains(
            #[trigger] s[j],
        ) by {
            assert(r[j + 1] == s[j]);
        };
        assert forall|k2: Seq<char>| k2 != k implies #[trigger] assoc_get(r, k2) == assoc_get(
            s,
            k2,
        ) by {
            assert(r.drop_first() =~= s);
            assert(r[0].0 == k);
            assert(assoc_get(r, k2) == assoc_get(r.drop_first(), k2));
        };
    } else {
        assert(forall|t: int| 0 <= t < s.len() - 1 ==> s.drop_first()[t] == s[t + 1]);
        lemma_set_assoc(s.drop_first(), k, v);
        let rr = set_assoc(s.drop_first(), k, v);
        assert(r =~= seq![s[0]] + rr);
        assert(s[0].0 != k);
        assert(seq_str_lt(s[0].0, k)) by {
            crate::varmap::lemma_seq_str_lt_total(s[0].0, k);
        };
        assert(sorted_keys(r)) by {
            assert forall|i: int, j: int| 0 <= i < j < r.len() implies seq_str_lt(
                #[trigger] r[i].0,
                #[trigger] r[j].0,
            ) by {
                if i == 0 {
                    assert(r[j] == rr[j - 1]);
                    if rr[j - 1] == (k, v) {
                        assert(seq_str_lt(s[0].0, k));
                    } else {
                        assert(s.drop_first().contains(rr[j - 1]));
                        let t = choose|t: int|
                            0 <= t < s.drop_first().len() && s.drop_first()[t] == rr[j - 1];
                        assert(s[t + 1] == rr[j - 1]);
                        assert(seq_str_lt(s[0].0, s[t + 1].0));
                    }
                } else {
                    assert(r[i] == rr[i - 1] && r[j] == rr[j - 1]);
                }
            };
        };
        assert forall|j: int| 0 <= j < r.len() implies #[trigger] r[j] == (k, v) || (s.contains(
            r[j],
        ) && r[j].0 != k) by {
            if j == 0 {
                assert(r[0] == s[0]);
                assert(s.contains(s[0]));
                lemma_seq_str_lt_irrefl(k);
            } else {
                assert(r[j] == rr[j - 1]);
                if rr[j - 1] == (k, v) {
                } else {
                    assert(s.drop_first().contains(rr[j - 1]));
                    let t = choose|t: int|
                        0 <= t < s.drop_first().len() && s.drop_first()[t] == rr[j - 1];
                    assert(s[t + 1] == rr[j - 1]);
                    assert(s.contains(s[t + 1]));
                }
            }
        };
        assert forall|j: int| 0 <= j < s.len() && s[j].0 != k implies r.contains(
            #[trigger] s[j],
        ) by {
            if j == 0 {
                assert(r[0] == s[0]);
            } else {
                assert(s.drop_first()[j - 1] == s[j]);
                assert(rr.contains(s[j]));
                let t = choose|t: int| 0 <= t < rr.len() && rr[t] == s[j];
                assert(r[t + 1] == s[j]);
            }
        };
        let ghost w = choose|j: int| 0 <= j < rr.len() && rr[j] == (k, v);
        assert(r[w + 1] == (k, v));
        assert(assoc_get(r, k) == Some(v)) by {
            assert(r.drop_first() =~= rr);
            assert(r[0].0 != k);
            assert(assoc_get(r, k) == assoc_get(rr, k));
        };
        assert forall|k2: Seq<char>| k2 != k implies #[trigger] assoc_get(r, k2) == assoc_get(
            s,
            k2,
        ) by {
            assert(r.drop_first() =~= rr);
            assert(r[0] == s[0]);
            if s[0].0 == k2 {
                assert(assoc_get(r, k2) == Some(s[0].1));
                assert(assoc_get(s, k2) == Some(s[0].1));
            } else {
                assert(assoc_get(r, k2) == assoc_get(rr, k2));
                assert(assoc_get(s, k2) == assoc_get(s.drop_first(), k2));
            }
        };
    }
}

// ---------------------------------------------------------------------
// Well-formedness
// ---------------------------------------------------------------------

/// A method bucket is non-empty, its predicates are well-formed, and no
/// two of them overlap.
pub open spec fn bucket_wf(eps: Seq<EndpointView>) -> bool {
    &&& eps.len() >= 1
    &&& forall|i: int| 0 <= i < eps.len() ==> (#[trigger] eps[i].versions).wf()
    &&& forall|i: int, j: int|
        0 <= i < j < eps.len() ==> !(#[trigger] eps[i].versions).overlaps_spec(
            #[trigger] eps[j].versions,
        )
}

/// A wildcard node is terminal: no edges of any kind leave it.
pub open spec fn leaf_nv(nv: NodeView) -> bool {
    nv.literals.len() == 0 && nv.variable.len() == 0 && nv.rest.len() == 0
}

/// The structural invariants of the trie: method and literal keys are held
/// in strictly increasing order, every bucket is well-formed, a node has
/// at most one variable and at most one wildcard edge, and a wildcard
/// child is terminal.
pub open spec fn nv_wf(nv: NodeView) -> bool
    decreases nv,
{
    &&& forall|i: int, j: int|
        0 <= i < j < nv.methods.len() ==> seq_str_lt(
            #[trigger] nv.methods[i].0,
            #[trigger] nv.methods[j].0,
        )
    &&& forall|i: int| 0 <= i < nv.methods.len() ==> bucket_wf((#[trigger] nv.methods[i]).1)
    &&& forall|i: int, j: int|
        0 <= i < j < nv.literals.len() ==> seq_str_lt(
            #[trigger] nv.literals[i].0,
            #[trigger] nv.literals[j].0,
        )
    &&& forall|i: int| 0 <= i < nv.literals.len() ==> nv_wf((#[trigger] nv.literals[i]).1)
    &&& nv.variable.len() <= 1
    &&& nv.variable.len() == 1 ==> nv_wf(nv.variable[0].1)
    &&& nv.rest.len() <= 1
    &&& nv.rest.len() == 1 ==> nv_wf(nv.rest[0].1) && leaf_nv(nv.rest[0].1)
}

/// Whether any endpoint in the subtree has a predicate other than `All`.
pub open spec fn any_versioned(nv: NodeView) -> bool
    decreases nv,
{
    ||| exists|i: int, j: int|
        0 <= i < nv.methods.len() && 0 <= j < (#[trigger] nv.methods[i]).1.len()
            && (#[trigger] nv.methods[i].1[j]).versions != ApiEndpointVersions::All
    ||| exists|i: int| 0 <= i < nv.literals.len() && any_versioned((#[trigger] nv.literals[i]).1)
    ||| nv.variable.len() == 1 && any_versioned(nv.variable[0].1)
    ||| nv.rest.len() == 1 && any_versioned(nv.rest[0].1)
}

impl HttpRouter {
    /// The invariants the router maintains: a well-formed trie, and the
    /// versioned-routes flag set exactly when some endpoint is
    /// constrained by version.
    pub open spec fn wf(&self) -> bool {
        &&& nv_wf(node_view(self.root))
        &&& self.has_versioned_routes == any_versioned(node_view(self.root))
    }
}


// ---------------------------------------------------------------------
// Insertion: specification
// ---------------------------------------------------------------------

/// The first endpoint in the bucket whose version predicate overlaps `v`.
pub open spec fn first_overlap(eps: Seq<EndpointView>, v: ApiEndpointVersions) -> Option<
    EndpointView,
>
    decreases eps.len(),
{
    if eps.len() == 0 {
        None
    } else if eps[0].versions.overlaps_spec(v) {
        Some(eps[0])
    } else {
        first_overlap(eps.drop_first(), v)
    }
}

proof fn lemma_first_overlap(eps: Seq<EndpointView>, v: ApiEndpointVersions)
    ensures
        first_overlap(eps, v) is None <==> forall|i: int|
            0 <= i < eps.len() ==> !(#[trigger] eps[i]).versions.overlaps_spec(v),
        first_overlap(eps, v) matches Some(h) ==> exists|i: int|
            0 <= i < eps.len() && #[trigger] eps[i] == h,
    decreases eps.len(),
{
    if eps.len() > 0 && !eps[0].versions.overlaps_spec(v) {
        lemma_first_overlap(eps.drop_first(), v);
        if first_overlap(eps, v) is None {
            assert forall|i: int|
                0 <= i < eps.len() implies !(#[trigger] eps[i]).versions.overlaps_spec(v) by {
                if i > 0 {
                    assert(eps.drop_first()[i - 1] == eps[i]);
                }
            };
        } else {
            let h = first_overlap(eps, v)->Some_0;
            let j = choose|j: int| 0 <= j < eps.drop_first().len() && eps.drop_first()[j] == h;
            assert(eps[j + 1] == h);
        }
    }
}

/// An association hit names an entry of the sequence.
proof fn lemma_assoc_entry<V>(s: Seq<(Seq<char>, V)>, k: Seq<char>)
    ensures
        assoc_get(s, k) matches Some(v) ==> exists|i: int|
            0 <= i < s.len() && #[trigger] s[i] == (k, v),
    decreases s.len(),
{
    if s.len() > 0 && s[0].0 != k {
        lemma_assoc_entry(s.drop_first(), k);
        if assoc_get(s, k) is Some {
            let v = assoc_get(s, k)->Some_0;
            let i = choose|i: int|
                0 <= i < s.drop_first().len() && #[trigger] s.drop_first()[i] == (k, v);
            assert(s[i + 1] == (k, v));
        }
    } else if s.len() > 0 {
        assert(s[0] == (k, s[0].1));
    }
}

/// Register one endpoint at a node, under its upper-cased method: a
/// duplicate or overlapping version predicate in the method's bucket is
/// an error; otherwise the endpoint joins the end of the bucket.
pub open spec fn insert_endpoint_at(nv: NodeView, ep: EndpointView) -> Result<
    NodeView,
    RouteErrorView,
> {
    let m = upper_str(ep.method);
    let bucket = method_eps(nv, m);
    match first_overlap(bucket, ep.versions) {
        Some(h) => if h.versions == ep.versions {
            Err(RouteErrorView::DuplicateRoute(ep.path, m))
        } else {
            Err(RouteErrorView::OverlappingVersions(ep.path, m))
        },
        None => Ok(NodeView { methods: set_assoc(nv.methods, m, bucket.push(ep)), ..nv }),
    }
}

/// Insert an endpoint along the raw registration segments, classifying
/// each segment on the way.  A variable or wildcard position must keep
/// the name it was first registered under, no name may repeat within one
/// path, and nothing may follow a wildcard.
pub open spec fn insert_into(
    nv: NodeView,
    raw: Seq<Seq<char>>,
    varnames: Seq<Seq<char>>,
    ep: EndpointView,
) -> Result<NodeView, RouteErrorView>
    decreases raw.len(),
{
    if raw.len() == 0 {
        insert_endpoint_at(nv, ep)
    } else {
        let s = raw[0];
        if !valid_route_segment(s) {
            Err(seg_err_view(s))
        } else {
            match segment_view(s) {
                PathSegmentView::Literal(lit) => {
                    let child = match assoc_get(nv.literals, lit) {
                        Some(c) => c,
                        None => empty_nv(),
                    };
                    match insert_into(child, raw.drop_first(), varnames, ep) {
                        Err(e) => Err(e),
                        Ok(nc) => Ok(NodeView { literals: set_assoc(nv.literals, lit, nc), ..nv }),
                    }
                },
                PathSegmentView::VarnameSegment(name) => {
                    if varnames.contains(name) {
                        Err(RouteErrorView::DuplicateVariableName(ep.path, name))
                    } else if nv.variable.len() >= 1 && nv.variable[0].0 != name {
                        Err(
                            RouteErrorView::InconsistentVariableName(
                                ep.path,
                                name,
                                nv.variable[0].0,
                            ),
                        )
                    } else {
                        let child = if nv.variable.len() >= 1 {
                            nv.variable[0].1
                        } else {
                            empty_nv()
                        };
                        match insert_into(child, raw.drop_first(), varnames.push(name), ep) {
                            Err(e) => Err(e),
                            Ok(nc) => Ok(NodeView { variable: seq![(name, nc)], ..nv }),
                        }
                    }
                },
                PathSegmentView::VarnameWildcard(name) => {
                    if raw.len() > 1 {
                        Err(RouteErrorView::SegmentsAfterWildcard(ep.path, name))
                    } else if varnames.contains(name) {
                        Err(RouteErrorView::DuplicateVariableName(ep.path, name))
                    } else if nv.rest.len() >= 1 && nv.rest[0].0 != name {
                        Err(RouteErrorView::InconsistentVariableName(ep.path, name, nv.rest[0].0))
                    } else {
                        let child = if nv.rest.len() >= 1 {
                            nv.rest[0].1
                        } else {
                            empty_nv()
                        };
                        match insert_endpoint_at(child, ep) {
                            Err(e) => Err(e),
                            Ok(nc) => Ok(NodeView { rest: seq![(name, nc)], ..nv }),
                        }
                    }
                },
            }
        }
    }
}

/// Register an endpoint in a router: parse its path, insert along the
/// segments, and raise the versioned-routes flag for a non-`All`
/// predicate.
pub open spec fn insert_spec(rt: HttpRouter, ep: EndpointView) -> Result<
    (NodeView, bool),
    RouteErrorView,
> {
    if !(ep.path.len() > 0 && ep.path[0] == '/') {
        Err(RouteErrorView::NotAbsolute(ep.path))
    } else if !valid_route_path(ep.path) {
        Err(RouteErrorView::EmptySegment(ep.path))
    } else {
        match insert_into(node_view(rt.root), route_parts(ep.path), Seq::empty(), ep) {
            Err(e) => Err(e),
            Ok(nv) => Ok(
                (nv, rt.has_versioned_routes || ep.versions != ApiEndpointVersions::All),
            ),
        }
    }
}

/// Two nodes whose fields agree have the same view.
proof fn lemma_node_view_eq(a: HttpRouterNode, b: HttpRouterNode)
    requires
        a.methods@ == b.methods@,
        a.literal_edges@ == b.literal_edges@,
        a.variable_edge == b.variable_edge,
        a.rest_edge == b.rest_edge,
    ensures
        node_view(a) == node_view(b),
{
    lemma_literals_view(a);
    lemma_literals_view(b);
    assert(node_view(a).methods =~= node_view(b).methods);
    assert(node_view(a).literals =~= node_view(b).literals);
    assert(node_view(a) =~= node_view(b));
}

/// Registration preserves the trie invariants, and the result holds a
/// version-constrained endpoint exactly when the tree already did or the
/// new endpoint is version-constrained.
proof fn lemma_insert_endpoint_wf(nv: NodeView, ep: EndpointView)
    requires
        nv_wf(nv),
        ep.versions.wf(),
    ensures
        insert_endpoint_at(nv, ep) matches Ok(nv2) ==> nv_wf(nv2) && (any_versioned(nv2) == (
        any_versioned(nv) || ep.versions != ApiEndpointVersions::All)),
{
    let m = upper_str(ep.method);
    let bucket = method_eps(nv, m);
    lemma_first_overlap(bucket, ep.versions);
    lemma_assoc_entry(nv.methods, m);
    if first_overlap(bucket, ep.versions) is None {
        let newb = bucket.push(ep);
        let nv2 = NodeView { methods: set_assoc(nv.methods, m, newb), ..nv };
        lemma_set_assoc(nv.methods, m, newb);
        // the old bucket, if present, is an entry of the methods
        assert(bucket_wf(newb)) by {
            if assoc_get(nv.methods, m) is Some {
                let i = choose|i: int|
                    0 <= i < nv.methods.len() && #[trigger] nv.methods[i] == (m, bucket);
                assert(bucket_wf(nv.methods[i].1));
            } else {
                assert(bucket =~= Seq::<EndpointView>::empty());
            }
            assert forall|i: int, j: int| 0 <= i < j < newb.len() implies !(
            #[trigger] newb[i].versions).overlaps_spec(#[trigger] newb[j].versions) by {
                if j == newb.len() - 1 {
                    assert(newb[j] == ep);
                    assert(newb[i] == bucket[i]);
                    assert(!bucket[i].versions.overlaps_spec(ep.versions));
                } else {
                    assert(newb[i] == bucket[i] && newb[j] == bucket[j]);
                }
            };
        };
        assert(nv_wf(nv2)) by {
            assert forall|i: int| 0 <= i < nv2.methods.len() implies bucket_wf(
                (#[trigger] nv2.methods[i]).1,
            ) by {
                if nv2.methods[i] == (m, newb) {
                } else {
                    assert(nv.methods.contains(nv2.methods[i]));
                    let t = choose|t: int|
                        0 <= t < nv.methods.len() && nv.methods[t] == nv2.methods[i];
                    assert(bucket_wf(nv.methods[t].1));
                }
            };
        };
        assert(any_versioned(nv2) == (any_versioned(nv) || ep.versions
            != ApiEndpointVersions::All)) by {
            let w = choose|w: int|
                0 <= w < nv2.methods.len() && #[trigger] nv2.methods[w] == (m, newb);
            if ep.versions != ApiEndpointVersions::All {
                assert(nv2.methods[w].1[newb.len() - 1].versions != ApiEndpointVersions::All);
                assert(any_versioned(nv2));
            }
            if any_versioned(nv) {
                if exists|i: int, j: int|
                    0 <= i < nv.methods.len() && 0 <= j < (#[trigger] nv.methods[i]).1.len() && (
                    #[trigger] nv.methods[i].1[j]).versions != ApiEndpointVersions::All {
                    let (i, j) = choose|i: int, j: int|
                        0 <= i < nv.methods.len() && 0 <= j < (#[trigger] nv.methods[i]).1.len()
                            && (#[trigger] nv.methods[i].1[j]).versions
                            != ApiEndpointVersions::All;
                    if nv.methods[i].0 == m {
                        assert(assoc_get(nv.methods, m) == Some(nv.methods[i].1)) by {
                            assert forall|t: int| 0 <= t < i implies nv.methods[t].0 != m by {
                                lemma_seq_str_lt_irrefl(m);
                            };
                            lemma_assoc_at(nv.methods, m, i);
                        };
                        assert(nv.methods[i].1 == bucket);
                        assert(nv2.methods[w].1[j].versions != ApiEndpointVersions::All);
                        assert(any_versioned(nv2));
                    } else {
                        assert(nv2.methods.contains(nv.methods[i]));
                        let t = choose|t: int|
                            0 <= t < nv2.methods.len() && nv2.methods[t] == nv.methods[i];
                        assert(nv2.methods[t].1[j].versions != ApiEndpointVersions::All);
                        assert(any_versioned(nv2));
                    }
                } else {
                    assert(any_versioned(nv2));
                }
            }
            if any_versioned(nv2) && ep.versions == ApiEndpointVersions::All {
                if exists|i: int, j: int|
                    0 <= i < nv2.methods.len() && 0 <= j < (#[trigger] nv2.methods[i]).1.len()
                        && (#[trigger] nv2.methods[i].1[j]).versions
                        != ApiEndpointVersions::All {
                    let (i, j) = choose|i: int, j: int|
                        0 <= i < nv2.methods.len() && 0 <= j < (#[trigger] nv2.methods[i]).1.len()
                            && (#[trigger] nv2.methods[i].1[j]).versions
                            != ApiEndpointVersions::All;
                    if nv2.methods[i] == (m, newb) {
                        if j < bucket.len() {
                            assert(newb[j] == bucket[j]);
                            if assoc_get(nv.methods, m) is Some {
                                let t = choose|t: int|
                                    0 <= t < nv.methods.len() && #[trigger] nv.methods[t] == (
                                    m,
                                    bucket,
                                );
                                assert(nv.methods[t].1[j].versions
                                    != ApiEndpointVersions::All);
                                assert(any_versioned(nv));
                            } else {
                                assert(bucket =~= Seq::<EndpointView>::empty());
                            }
                        } else {
                            assert(newb[j] == ep);
                        }
                    } else {
                        assert(nv.methods.contains(nv2.methods[i]));
                        let t = choose|t: int|
                            0 <= t < nv.methods.len() && nv.methods[t] == nv2.methods[i];
                        assert(nv.methods[t].1[j].versions != ApiEndpointVersions::All);
                        assert(any_versioned(nv));
                    }
                } else {
                    assert(any_versioned(nv));
                }
            }
        };
    }
}

/// Insertion along a path preserves the trie invariants and raises the
/// versioned flag exactly for a version-constrained endpoint.
proof fn lemma_insert_wf(
    nv: NodeView,
    raw: Seq<Seq<char>>,
    varnames: Seq<Seq<char>>,
    ep: EndpointView,
)
    requires
        nv_wf(nv),
        ep.versions.wf(),
    ensures
        insert_into(nv, raw, varnames, ep) matches Ok(nv2) ==> nv_wf(nv2) && (any_versioned(nv2)
            == (any_versioned(nv) || ep.versions != ApiEndpointVersions::All)),
    decreases raw.len(),
{
    if raw.len() == 0 {
        lemma_insert_endpoint_wf(nv, ep);
    } else {
        let s = raw[0];
        if valid_route_segment(s) {
            match segment_view(s) {
                PathSegmentView::Literal(lit) => {
                    let child = match assoc_get(nv.literals, lit) {
                        Some(c) => c,
                        None => empty_nv(),
                    };
                    assert(nv_wf(child)) by {
                        lemma_assoc_entry(nv.literals, lit);
                        if assoc_get(nv.literals, lit) is Some {
                            let i = choose|i: int|
                                0 <= i < nv.literals.len() && #[trigger] nv.literals[i] == (
                                lit,
                                child,
                            );
                            assert(nv_wf(nv.literals[i].1));
                        }
                    };
                    lemma_insert_wf(child, raw.drop_first(), varnames, ep);
                    if insert_into(child, raw.drop_first(), varnames, ep) is Ok {
                        let nc = insert_into(child, raw.drop_first(), varnames, ep)->Ok_0;
                        let nv2 = NodeView { literals: set_assoc(nv.literals, lit, nc), ..nv };
                        lemma_set_assoc(nv.literals, lit, nc);
                        assert(nv_wf(nv2)) by {
                            assert forall|i: int| 0 <= i < nv2.literals.len() implies nv_wf(
                                (#[trigger] nv2.literals[i]).1,
                            ) by {
                                if nv2.literals[i] == (lit, nc) {
                                } else {
                                    assert(nv.literals.contains(nv2.literals[i]));
                                    let t = choose|t: int|
                                        0 <= t < nv.literals.len() && nv.literals[t]
                                            == nv2.literals[i];
                                    assert(nv_wf(nv.literals[t].1));
                                }
                            };
                        };
                        assert(any_versioned(nv2) == (any_versioned(nv) || ep.versions
                            != ApiEndpointVersions::All)) by {
                            let w = choose|w: int|
                                0 <= w < nv2.literals.len() && #[trigger] nv2.literals[w] == (
                                lit,
                                nc,
                                );
                            lemma_assoc_entry(nv.literals, lit);
                            if any_versioned(nc) {
                                assert(any_versioned(nv2));
                            }
                            if any_versioned(nv) {
                                if exists|i: int|
                                    0 <= i < nv.literals.len() && any_versioned(
                                        (#[trigger] nv.literals[i]).1,
                                    ) {
                                    let i = choose|i: int|
                                        0 <= i < nv.literals.len() && any_versioned(
                                            (#[trigger] nv.literals[i]).1,
                                        );
                                    if nv.literals[i].0 == lit {
                                        assert(assoc_get(nv.literals, lit) == Some(
                                            nv.literals[i].1,
                                        )) by {
                                            assert forall|t: int|
                                                0 <= t < i implies nv.literals[t].0 != lit by {
                                                lemma_seq_str_lt_irrefl(lit);
                                            };
                                            lemma_assoc_at(nv.literals, lit, i);
                                        };
                                        assert(any_versioned(child));
                                        assert(any_versioned(nc));
                                        assert(any_versioned(nv2));
                                    } else {
                                        assert(nv2.literals.contains(nv.literals[i]));
                                        let t = choose|t: int|
                                            0 <= t < nv2.literals.len() && nv2.literals[t]
                                                == nv.literals[i];
                                        assert(any_versioned(nv2.literals[t].1));
                                        assert(any_versioned(nv2));
                                    }
                                } else {
                                    assert(any_versioned(nv2));
                                }
                            }
                            if any_versioned(nv2) && ep.versions == ApiEndpointVersions::All {
                                if exists|i: int|
                                    0 <= i < nv2.literals.len() && any_versioned(
                                        (#[trigger] nv2.literals[i]).1,
                                    ) {
                                    let i = choose|i: int|
                                        0 <= i < nv2.literals.len() && any_versioned(
                                            (#[trigger] nv2.literals[i]).1,
                                        );
                                    if nv2.literals[i] == (lit, nc) {
                                        assert(any_versioned(child));
                                        if assoc_get(nv.literals, lit) is Some {
                                            let t = choose|t: int|
                                                0 <= t < nv.literals.len()
                                                    && #[trigger] nv.literals[t] == (lit, child);
                                            assert(any_versioned(nv.literals[t].1));
                                            assert(any_versioned(nv));
                                        } else {
                                            assert(!any_versioned(empty_nv()));
                                        }
                                    } else {
                                        assert(nv.literals.contains(nv2.literals[i]));
                                        let t = choose|t: int|
                                            0 <= t < nv.literals.len() && nv.literals[t]
                                                == nv2.literals[i];
                                        assert(any_versioned(nv.literals[t].1));
                                        assert(any_versioned(nv));
                                    }
                                } else {
                                    assert(any_versioned(nv));
                                }
                            }
                        };
                    }
                },
                PathSegmentView::VarnameSegment(name) => {
                    if !varnames.contains(name) && !(nv.variable.len() >= 1 && nv.variable[0].0
                        != name) {
                        let child = if nv.variable.len() >= 1 {
                            nv.variable[0].1
                        } else {
                            empty_nv()
                        };
                        lemma_insert_wf(child, raw.drop_first(), varnames.push(name), ep);
                        if insert_into(child, raw.drop_first(), varnames.push(name), ep) is Ok {
                            let nc = insert_into(child, raw.drop_first(), varnames.push(name), ep)->Ok_0;
                            let nv2 = NodeView { variable: seq![(name, nc)], ..nv };
                            assert(nv_wf(nv2));
                            let epna = ep.versions != ApiEndpointVersions::All;
                            assert(any_versioned(nv2) == (any_versioned(nv) || epna)) by {
                                assert(nv2.variable[0].1 == nc);
                                assert(nv2.methods == nv.methods && nv2.literals == nv.literals
                                    && nv2.rest == nv.rest);
                                if nv.variable.len() == 0 {
                                    assert(!any_versioned(empty_nv()));
                                }
                                if any_versioned(nv2) {
                                    if nv2.variable.len() == 1 && any_versioned(
                                        nv2.variable[0].1,
                                    ) {
                                        if any_versioned(child) {
                                            assert(nv.variable.len() == 1);
                                            assert(any_versioned(nv));
                                        }
                                    } else {
                                        assert(any_versioned(nv));
                                    }
                                }
                                if epna {
                                    assert(any_versioned(nc));
                                    assert(any_versioned(nv2));
                                }
                                if any_versioned(nv) {
                                    if nv.variable.len() == 1 && any_versioned(
                                        nv.variable[0].1,
                                    ) {
                                        assert(any_versioned(child));
                                        assert(any_versioned(nc));
                                        assert(any_versioned(nv2));
                                    } else {
                                        assert(any_versioned(nv2));
                                    }
                                }
                            };
                        }
                    }
                },
                PathSegmentView::VarnameWildcard(name) => {
                    if raw.len() == 1 && !varnames.contains(name) && !(nv.rest.len() >= 1
                        && nv.rest[0].0 != name) {
                        let child = if nv.rest.len() >= 1 {
                            nv.rest[0].1
                        } else {
                            empty_nv()
                        };
                        lemma_insert_endpoint_wf(child, ep);
                        if insert_endpoint_at(child, ep) is Ok {
                            let nc = insert_endpoint_at(child, ep)->Ok_0;
                            let nv2 = NodeView { rest: seq![(name, nc)], ..nv };
                            assert(leaf_nv(nc)) by {
                                if nv.rest.len() == 0 {
                                }
                            };
                            assert(nv_wf(nv2));
                            let epna = ep.versions != ApiEndpointVersions::All;
                            assert(any_versioned(nv2) == (any_versioned(nv) || epna)) by {
                                assert(nv2.rest[0].1 == nc);
                                assert(nv2.methods == nv.methods && nv2.literals == nv.literals
                                    && nv2.variable == nv.variable);
                                if nv.rest.len() == 0 {
                                    assert(!any_versioned(empty_nv()));
                                }
                                if any_versioned(nv2) {
                                    if nv2.rest.len() == 1 && any_versioned(nv2.rest[0].1) {
                                        if any_versioned(child) {
                                            assert(nv.rest.len() == 1);
                                            assert(any_versioned(nv));
                                        }
                                    } else {
                                        assert(any_versioned(nv));
                                    }
                                }
                                if epna {
                                    assert(any_versioned(nc));
                                    assert(any_versioned(nv2));
                                }
                                if any_versioned(nv) {
                                    if nv.rest.len() == 1 && any_versioned(nv.rest[0].1) {
                                        assert(any_versioned(child));
                                        assert(any_versioned(nc));
                                        assert(any_versioned(nv2));
                                    } else {
                                        assert(any_versioned(nv2));
                                    }
                                }
                            };
                        }
                    }
                },
            }
        }
    }
}


// ---------------------------------------------------------------------
// Insertion: executable code
// ---------------------------------------------------------------------

/// The position at which key `k` stands or would be inserted among
/// sorted entries, and whether it is present.
fn assoc_pos<V>(entries: &Vec<(String, V)>, k: &str) -> (r: (usize, bool))
    requires
        forall|i: int, j: int|
            0 <= i < j < entries@.len() ==> seq_str_lt(
                #[trigger] entries@[i].0@,
                #[trigger] entries@[j].0@,
            ),
    ensures
        r.0 <= entries@.len(),
        forall|j: int| 0 <= j < r.0 ==> seq_str_lt(#[trigger] entries@[j].0@, k@),
        r.1 ==> r.0 < entries@.len() && entries@[r.0 as int].0@ == k@,
        !r.1 && r.0 < entries@.len() ==> seq_str_lt(k@, entries@[r.0 as int].0@),
        !r.1 ==> forall|j: int| 0 <= j < entries@.len() ==> #[trigger] entries@[j].0@ != k@,
{
    let mut i: usize = 0;
    while i < entries.len()
        invariant
            i <= entries@.len(),
            forall|i2: int, j2: int|
                0 <= i2 < j2 < entries@.len() ==> seq_str_lt(
                    #[trigger] entries@[i2].0@,
                    #[trigger] entries@[j2].0@,
                ),
            forall|j: int| 0 <= j < i ==> seq_str_lt(#[trigger] entries@[j].0@, k@),
        decreases entries@.len() - i,
    {
        let o = str_cmp(entries[i].0.as_str(), k);
        if o == 0 {
            return (i, true);
        }
        if o == 1 {
            proof {
                assert forall|j: int|
                    0 <= j < entries@.len() implies #[trigger] entries@[j].0@ != k@ by {
                    lemma_seq_str_lt_irrefl(k@);
                    if j < i {
                    } else if j == i {
                    } else {
                        lemma_seq_str_lt_trans(k@, entries@[i as int].0@, entries@[j].0@);
                    }
                };
            }
            return (i, false);
        }
        i = i + 1;
    }
    proof {
        assert forall|j: int| 0 <= j < entries@.len() implies #[trigger] entries@[j].0@
            != k@ by {
            lemma_seq_str_lt_irrefl(k@);
        };
    }
    (i, false)
}

/// Whether any of the variable names collected so far equals `n`.
fn names_contain(v: &Vec<String>, n: &str) -> (r: bool)
    ensures
        r == v.deep_view().contains(n@),
{
    let mut i: usize = 0;
    while i < v.len()
        invariant
            i <= v@.len(),
            forall|j: int| 0 <= j < i ==> #[trigger] v.deep_view()[j] != n@,
        decreases v@.len() - i,
    {
        if str_eq(v[i].as_str(), n) {
            proof {
                assert(v.deep_view()[i as int] == n@);
            }
            return true;
        }
        i = i + 1;
    }
    proof {
        assert(!v.deep_view().contains(n@));
    }
    false
}

/// The position of the first endpoint whose predicate overlaps `v`.
fn find_overlap(eps: &Vec<ApiEndpoint>, v: &ApiEndpointVersions) -> (r: Option<usize>)
    ensures
        match r {
            Some(j) => j < eps@.len() && first_overlap(
                eps@.map_values(|e: ApiEndpoint| e@),
                *v,
            ) == Some(eps@.map_values(|e: ApiEndpoint| e@)[j as int]),
            None => first_overlap(eps@.map_values(|e: ApiEndpoint| e@), *v) is None,
        },
{
    let ghost s = eps@.map_values(|e: ApiEndpoint| e@);
    proof {
        assert(s.skip(0) =~= s);
    }
    let mut i: usize = 0;
    while i < eps.len()
        invariant
            s == eps@.map_values(|e: ApiEndpoint| e@),
            i <= s.len(),
            s.len() == eps@.len(),
            first_overlap(s, *v) == first_overlap(s.skip(i as int), *v),
        decreases s.len() - i,
    {
        proof {
            assert(s.skip(i as int)[0] == s[i as int]);
            assert(s.skip(i as int).drop_first() =~= s.skip(i + 1));
        }
        if eps[i].versions.overlaps_with(v) {
            return Some(i);
        }
        i = i + 1;
    }
    proof {
        assert(s.skip(i as int) =~= Seq::<EndpointView>::empty());
    }
    None
}

/// Register one endpoint at this node, or report the duplicate or
/// overlapping version predicate.  On an error the node is unchanged.
fn insert_endpoint_node(node: HttpRouterNode, ep: ApiEndpoint) -> (r: (
    HttpRouterNode,
    Option<RouteError>,
))
    requires
        nv_wf(node_view(node)),
    ensures
        match r.1 {
            None => insert_endpoint_at(node_view(node), ep@) == Ok::<NodeView, RouteErrorView>(
                node_view(r.0),
            ),
            Some(e) => insert_endpoint_at(node_view(node), ep@) == Err::<
                NodeView,
                RouteErrorView,
            >(e@) && node_view(r.0) == node_view(node),
        },
{
    let ghost old_node = node;
    let ghost old_nv = node_view(node);
    let ghost m = upper_str(ep.method@);
    let methodname = ascii_uppercase(ep.method.as_str());
    let HttpRouterNode { mut methods, literal_edges, variable_edge, rest_edge } = node;
    proof {
        assert(forall|i: int|
            0 <= i < methods@.len() ==> #[trigger] old_nv.methods[i] == (
                methods@[i].0@,
                methods@[i].1@.map_values(|e: ApiEndpoint| e@),
            ));
        assert forall|i: int, j: int|
            0 <= i < j < methods@.len() implies seq_str_lt(
            #[trigger] methods@[i].0@,
            #[trigger] methods@[j].0@,
        ) by {
            assert(old_nv.methods[i].0 == methods@[i].0@);
            assert(old_nv.methods[j].0 == methods@[j].0@);
        };
    }
    let (pos, found) = assoc_pos(&methods, methodname.as_str());
    if found {
        proof {
            assert forall|t: int| 0 <= t < pos implies old_nv.methods[t].0 != m by {
                lemma_seq_str_lt_irrefl(m);
            };
            lemma_assoc_at(old_nv.methods, m, pos as int);
        }
        let ghost bucket_v = old_nv.methods[pos as int].1;
        let (mkey, mut bucket) = methods.remove(pos);
        proof {
            assert(bucket@.map_values(|e: ApiEndpoint| e@) == bucket_v);
        }
        match find_overlap(&bucket, &ep.versions) {
            Some(j) => {
                let dup = bucket[j].versions == ep.versions;
                let e = if dup {
                    RouteError::DuplicateRoute { path: ep.path.clone(), method: methodname }
                } else {
                    RouteError::OverlappingVersions { path: ep.path.clone(), method: methodname }
                };
                proof {
                    assert(bucket_v[j as int].versions == bucket@[j as int].versions);
                }
                methods.insert(pos, (mkey, bucket));
                let node2 = HttpRouterNode { methods, literal_edges, variable_edge, rest_edge };
                proof {
                    assert(node2.methods@ =~= old_node.methods@);
                    lemma_node_view_eq(node2, old_node);
                }
                (node2, Some(e))
            },
            None => {
                bucket.push(ep);
                methods.insert(pos, (mkey, bucket));
                let node2 = HttpRouterNode { methods, literal_edges, variable_edge, rest_edge };
                proof {
                    let newb = bucket_v.push(ep@);
                    assert(bucket@.map_values(|e: ApiEndpoint| e@) =~= newb);
                    lemma_set_assoc_replace(old_nv.methods, m, newb, pos as int);
                    assert(node_view(node2).methods =~= old_nv.methods.update(
                        pos as int,
                        (m, newb),
                    )) by {
                        assert(forall|t: int|
                            0 <= t < node2.methods@.len() && t != pos ==> node2.methods@[t]
                                == old_node.methods@[t]);
                        assert(node2.methods@[pos as int].0@ == m);
                        assert(node2.methods@[pos as int].1@.map_values(|e: ApiEndpoint| e@)
                            =~= newb);
                    };
                    assert(node_view(node2).literals =~= node_view(old_node).literals) by {
                        lemma_literals_view(node2);
                        lemma_literals_view(old_node);
                    };
                    assert(node_view(node2) =~= NodeView {
                        methods: set_assoc(old_nv.methods, m, bucket_v.push(ep@)),
                        ..old_nv
                    });
                }
                (node2, None)
            },
        }
    } else {
        proof {
            lemma_assoc_missing(old_nv.methods, m);
            assert(method_eps(old_nv, m) =~= Seq::<EndpointView>::empty());
        }
        let mut bucket: Vec<ApiEndpoint> = Vec::new();
        bucket.push(ep);
        proof {
            assert(bucket@.map_values(|e: ApiEndpoint| e@) =~= method_eps(old_nv, m).push(
                bucket@[0]@,
            ));
        }
        methods.insert(pos, (methodname, bucket));
        let node2 = HttpRouterNode { methods, literal_edges, variable_edge, rest_edge };
        proof {
            let newb = method_eps(old_nv, m).push(node2.methods@[pos as int].1@[0]@);
            lemma_set_assoc_insert(old_nv.methods, m, newb, pos as int);
            assert(node_view(node2).methods =~= old_nv.methods.insert(pos as int, (m, newb)))
                by {
                assert(forall|t: int|
                    0 <= t < pos ==> node2.methods@[t] == old_node.methods@[t]);
                assert(forall|t: int|
                    pos < t < node2.methods@.len() ==> node2.methods@[t]
                        == old_node.methods@[t - 1]);
                assert(node2.methods@[pos as int].0@ == m);
                assert(node2.methods@[pos as int].1@.map_values(|e: ApiEndpoint| e@) =~= newb);
            };
            assert(node_view(node2).literals =~= node_view(old_node).literals) by {
                lemma_literals_view(node2);
                lemma_literals_view(old_node);
            };
            assert(node_view(node2) =~= NodeView {
                methods: set_assoc(old_nv.methods, m, method_eps(old_nv, m).push(newb[0])),
                ..old_nv
            });
        }
        (node2, None)
    }
}

/// Insert an endpoint along the raw segments from position `i` on.  On an
/// error the node comes back unchanged.
fn insert_node(
    node: HttpRouterNode,
    raw: &Vec<&str>,
    i: usize,
    varnames: Vec<String>,
    path: &str,
    ep: ApiEndpoint,
) -> (r: (HttpRouterNode, Option<RouteError>))
    requires
        i <= raw@.len(),
        nv_wf(node_view(node)),
        path@ == ep.path@,
    ensures
        match r.1 {
            None => insert_into(
                node_view(node),
                raw.deep_view().skip(i as int),
                varnames.deep_view(),
                ep@,
            ) == Ok::<NodeView, RouteErrorView>(node_view(r.0)),
            Some(e) => insert_into(
                node_view(node),
                raw.deep_view().skip(i as int),
                varnames.deep_view(),
                ep@,
            ) == Err::<NodeView, RouteErrorView>(e@) && node_view(r.0) == node_view(node),
        },
    decreases raw@.len() - i,
{
    let ghost tail = raw.deep_view().skip(i as int);
    if i == raw.len() {
        proof {
            assert(tail =~= Seq::<Seq<char>>::empty());
        }
        return insert_endpoint_node(node, ep);
    }
    proof {
        assert(tail[0] == raw.deep_view()[i as int]);
        assert(tail.drop_first() =~= raw.deep_view().skip(i + 1));
    }
    let seg = match try_segment(raw[i]) {
        Ok(sg) => sg,
        Err(e) => {
            proof {
                assert(e@ == seg_err_view(tail[0]));
            }
            return (node, Some(e));
        },
    };
    let ghost old_node = node;
    let ghost old_nv = node_view(node);
    match seg {
        PathSegment::Literal(lit) => {
            let ghost litv = lit@;
            let HttpRouterNode { methods, mut literal_edges, variable_edge, rest_edge } = node;
            proof {
                lemma_literals_view(old_node);
                assert forall|i2: int, j2: int|
                    0 <= i2 < j2 < literal_edges@.len() implies seq_str_lt(
                    #[trigger] literal_edges@[i2].0@,
                    #[trigger] literal_edges@[j2].0@,
                ) by {
                    assert(old_nv.literals[i2].0 == literal_edges@[i2].0@);
                    assert(old_nv.literals[j2].0 == literal_edges@[j2].0@);
                };
            }
            let (pos, found) = assoc_pos(&literal_edges, lit.as_str());
            let (kstr, child) = if found {
                proof {
                    assert forall|t: int| 0 <= t < pos implies old_nv.literals[t].0 != litv by {
                        lemma_seq_str_lt_irrefl(litv);
                    };
                    lemma_assoc_at(old_nv.literals, litv, pos as int);
                }
                literal_edges.remove(pos)
            } else {
                proof {
                    lemma_assoc_missing(old_nv.literals, litv);
                }
                (lit, HttpRouterNode::new())
            };
            let ghost child_v = node_view(child);
            proof {
                if found {
                    assert(assoc_get(old_nv.literals, litv) == Some(child_v));
                    assert(nv_wf(child_v)) by {
                        assert(old_nv.literals[pos as int].1 == child_v);
                    };
                } else {
                    assert(child_v =~= empty_nv());
                    assert(nv_wf(child_v));
                }
            }
            let (child2, err) = insert_node(child, raw, i + 1, varnames, path, ep);
            let ghost child2_v = node_view(child2);
            if err.is_some() && !found {
                let node2 = HttpRouterNode { methods, literal_edges, variable_edge, rest_edge };
                proof {
                    lemma_literals_view(node2);
                    assert(node_view(node2).literals =~= old_nv.literals) by {
                        assert(forall|t: int|
                            0 <= t < node2.literal_edges@.len() ==> node2.literal_edges@[t]
                                == old_node.literal_edges@[t]);
                    };
                    assert(node_view(node2) =~= old_nv);
                }
                return (node2, err);
            }
            literal_edges.insert(pos, (kstr, child2));
            let node2 = HttpRouterNode { methods, literal_edges, variable_edge, rest_edge };
            proof {
                assert(kstr@ == litv);
                lemma_literals_view(node2);
                match err {
                    Some(_) => {
                        assert(found);
                        assert(child2_v == child_v);
                        assert(node_view(node2).literals =~= old_nv.literals) by {
                            assert(forall|t: int|
                                0 <= t < node2.literal_edges@.len() && t != pos
                                    ==> node2.literal_edges@[t]
                                    == old_node.literal_edges@[t]);
                        };
                        assert(node_view(node2) =~= old_nv);
                    },
                    None => {
                        let spec_child = match assoc_get(old_nv.literals, litv) {
                            Some(c) => c,
                            None => empty_nv(),
                        };
                        assert(spec_child == child_v);
                        if found {
                            lemma_set_assoc_replace(old_nv.literals, litv, child2_v, pos as int);
                            assert(node_view(node2).literals =~= old_nv.literals.update(
                                pos as int,
                                (litv, child2_v),
                            )) by {
                                assert(forall|t: int|
                                    0 <= t < node2.literal_edges@.len() && t != pos
                                        ==> node2.literal_edges@[t]
                                        == old_node.literal_edges@[t]);
                            };
                        } else {
                            lemma_set_assoc_insert(old_nv.literals, litv, child2_v, pos as int);
                            assert(node_view(node2).literals =~= old_nv.literals.insert(
                                pos as int,
                                (litv, child2_v),
                            )) by {
                                assert(forall|t: int|
                                    0 <= t < pos ==> node2.literal_edges@[t]
                                        == old_node.literal_edges@[t]);
                                assert(forall|t: int|
                                    pos < t < node2.literal_edges@.len()
                                        ==> node2.literal_edges@[t]
                                        == old_node.literal_edges@[t - 1]);
                            };
                        }
                        assert(node_view(node2) =~= NodeView {
                            literals: set_assoc(old_nv.literals, litv, child2_v),
                            ..old_nv
                        });
                    },
                }
            }
            (node2, err)
        },
        PathSegment::VarnameSegment(name) => {
            if names_contain(&varnames, name.as_str()) {
                return (
                    node,
                    Some(
                        RouteError::DuplicateVariableName {
                            path: String::from_str(path),
                            name,
                        },
                    ),
                );
            }
            let mismatch = match &node.variable_edge {
                Some(b) => !str_eq(b.0.as_str(), name.as_str()),
                None => false,
            };
            if mismatch {
                let old_name = match &node.variable_edge {
                    Some(b) => b.0.clone(),
                    None => String::new(),
                };
                return (
                    node,
                    Some(
                        RouteError::InconsistentVariableName {
                            path: String::from_str(path),
                            new_name: name,
                            old_name,
                        },
                    ),
                );
            }
            let mut varnames = varnames;
            let ghost old_names = varnames.deep_view();
            let ghost namev = name@;
            varnames.push(name.clone());
            proof {
                assert(varnames.deep_view() =~= old_names.push(namev));
            }
            let had_edge = node.variable_edge.is_some();
            let HttpRouterNode { methods, literal_edges, variable_edge, rest_edge } = node;
            let (edge_name, child) = match variable_edge {
                Some(b) => {
                    let pair = *b;
                    (pair.0, pair.1)
                },
                None => (name, HttpRouterNode::new()),
            };
            let ghost child_v = node_view(child);
            proof {
                assert(edge_name@ == namev);
                if old_nv.variable.len() >= 1 {
                    assert(child_v == old_nv.variable[0].1);
                    assert(nv_wf(child_v));
                } else {
                    assert(child_v =~= empty_nv());
                }
            }
            let (child2, err) = insert_node(child, raw, i + 1, varnames, path, ep);
            let ghost child2_v = node_view(child2);
            if err.is_some() && !had_edge {
                let node2 = HttpRouterNode {
                    methods,
                    literal_edges,
                    variable_edge: None,
                    rest_edge,
                };
                proof {
                    lemma_literals_view(node2);
                    lemma_literals_view(old_node);
                    assert(node_view(node2).literals =~= node_view(old_node).literals);
                    assert(node_view(node2) =~= old_nv);
                }
                return (node2, err);
            }
            let node2 = HttpRouterNode {
                methods,
                literal_edges,
                variable_edge: Some(Box::new((edge_name, child2))),
                rest_edge,
            };
            proof {
                lemma_literals_view(node2);
                lemma_literals_view(old_node);
                assert(node_view(node2).literals =~= node_view(old_node).literals);
                assert(node_view(node2).variable =~= seq![(namev, child2_v)]);
                match err {
                    Some(_) => {
                        assert(had_edge);
                        assert(child2_v == child_v);
                        assert(old_nv.variable =~= seq![(namev, child_v)]);
                        assert(node_view(node2) =~= old_nv);
                    },
                    None => {
                        assert(node_view(node2) =~= NodeView {
                            variable: seq![(namev, child2_v)],
                            ..old_nv
                        });
                    },
                }
            }
            (node2, err)
        },
        PathSegment::VarnameWildcard(name) => {
            if i + 1 < raw.len() {
                return (
                    node,
                    Some(
                        RouteError::SegmentsAfterWildcard {
                            path: String::from_str(path),
                            name,
                        },
                    ),
                );
            }
            if names_contain(&varnames, name.as_str()) {
                return (
                    node,
                    Some(
                        RouteError::DuplicateVariableName {
                            path: String::from_str(path),
                            name,
                        },
                    ),
                );
            }
            let mismatch = match &node.rest_edge {
                Some(b) => !str_eq(b.0.as_str(), name.as_str()),
                None => false,
            };
            if mismatch {
                let old_name = match &node.rest_edge {
                    Some(b) => b.0.clone(),
                    None => String::new(),
                };
                return (
                    node,
                    Some(
                        RouteError::InconsistentVariableName {
                            path: String::from_str(path),
                            new_name: name,
                            old_name,
                        },
                    ),
                );
            }
            let ghost namev = name@;
            let had_edge = node.rest_edge.is_some();
            let HttpRouterNode { methods, literal_edges, variable_edge, rest_edge } = node;
            let (edge_name, child) = match rest_edge {
                Some(b) => {
                    let pair = *b;
                    (pair.0, pair.1)
                },
                None => (name, HttpRouterNode::new()),
            };
            let ghost child_v = node_view(child);
            proof {
                assert(edge_name@ == namev);
                if old_nv.rest.len() >= 1 {
                    assert(child_v == old_nv.rest[0].1);
                    assert(nv_wf(child_v));
                } else {
                    assert(child_v =~= empty_nv());
                }
            }
            let (child2, err) = insert_endpoint_node(child, ep);
            let ghost child2_v = node_view(child2);
            if err.is_some() && !had_edge {
                let node2 = HttpRouterNode {
                    methods,
                    literal_edges,
                    variable_edge,
                    rest_edge: None,
                };
                proof {
                    lemma_literals_view(node2);
                    lemma_literals_view(old_node);
                    assert(node_view(node2).literals =~= node_view(old_node).literals);
                    assert(node_view(node2) =~= old_nv);
                }
                return (node2, err);
            }
            let node2 = HttpRouterNode {
                methods,
                literal_edges,
                variable_edge,
                rest_edge: Some(Box::new((edge_name, child2))),
            };
            proof {
                lemma_literals_view(node2);
                lemma_literals_view(old_node);
                assert(node_view(node2).literals =~= node_view(old_node).literals);
                assert(node_view(node2).rest =~= seq![(namev, child2_v)]);
                match err {
                    Some(_) => {
                        assert(had_edge);
                        assert(child2_v == child_v);
                        assert(old_nv.rest =~= seq![(namev, child_v)]);
                        assert(node_view(node2) =~= old_nv);
                    },
                    None => {
                        assert(node_view(node2) =~= NodeView {
                            rest: seq![(namev, child2_v)],
                            ..old_nv
                        });
                    },
                }
            }
            (node2, err)
        },
    }
}

impl HttpRouter {
    /// Register a route for HTTP requests based on the endpoint's method
    /// and path, or report the programming error that forbids it: a
    /// malformed path or segment, an inconsistent or repeated variable
    /// name, segments after a wildcard, or a duplicate or overlapping
    /// version predicate at the endpoint's position.  On an error the
    /// router is unchanged.
    pub fn try_insert(&mut self, endpoint: ApiEndpoint) -> (r: Result<(), RouteError>)
        requires
            old(self).wf(),
            endpoint.versions.wf(),
        ensures
            final(self).wf(),
            match r {
                Ok(()) => insert_spec(*old(self), endpoint@) == Ok::<
                    (NodeView, bool),
                    RouteErrorView,
                >((node_view(final(self).root), final(self).has_versioned_routes)),
                Err(e) => insert_spec(*old(self), endpoint@) == Err::<
                    (NodeView, bool),
                    RouteErrorView,
                >(e@) && node_view(final(self).root) == node_view(old(self).root)
                    && final(self).has_versioned_routes == old(self).has_versioned_routes,
            },
    {
        let path = endpoint.path.clone();
        let non_all = !matches!(endpoint.versions, ApiEndpointVersions::All);
        let raw = match try_route_path(path.as_str()) {
            Ok(v) => v,
            Err(e) => {
                return Err(e);
            },
        };
        let mut root = HttpRouterNode::new();
        core::mem::swap(&mut self.root, &mut root);
        let ghost old_root_v = node_view(root);
        let names: Vec<String> = Vec::new();
        proof {
            assert(raw.deep_view().skip(0) =~= raw.deep_view());
            assert(names.deep_view() =~= Seq::<Seq<char>>::empty());
        }
        let (root2, err) = insert_node(root, &raw, 0, names, path.as_str(), endpoint);
        self.root = root2;
        match err {
            Some(e) => Err(e),
            None => {
                if non_all {
                    self.has_versioned_routes = true;
                }
                proof {
                    lemma_insert_wf(
                        old_root_v,
                        raw.deep_view(),
                        Seq::empty(),
                        endpoint@,
                    );
                }
                Ok(())
            },
        }
    }

    /// Register a route whose registration is known to be free of
    /// programming errors.
    pub fn insert(&mut self, endpoint: ApiEndpoint)
        requires
            old(self).wf(),
            endpoint.versions.wf(),
            insert_spec(*old(self), endpoint@) is Ok,
        ensures
            final(self).wf(),
            insert_spec(*old(self), endpoint@) == Ok::<(NodeView, bool), RouteErrorView>(
                (node_view(final(self).root), final(self).has_versioned_routes),
            ),
    {
        let r = self.try_insert(endpoint);
        match r {
            Ok(()) => (),
            Err(_) => {
                proof {
                    assert(false);
                }
            },
        }
    }
}


// ---------------------------------------------------------------------
// Laws
// ---------------------------------------------------------------------

/// A literal edge equal to the request segment always wins over a
/// variable or wildcard edge at the same node: the walk goes through the
/// literal child.
pub proof fn lemma_literal_edge_wins(
    nv: NodeView,
    segs: Seq<Seq<char>>,
    vars: Map<Seq<char>, VarValueView>,
)
    requires
        segs.len() > 0,
        assoc_get(nv.literals, segs[0]) is Some,
    ensures
        walk(nv, segs, vars) == walk(
            assoc_get(nv.literals, segs[0])->Some_0,
            segs.drop_first(),
            vars,
        ),
{
}

/// A node whose only edge is a wildcard matches any non-empty remainder
/// of the path, binding the wildcard variable to all remaining segments.
pub proof fn lemma_wildcard_matches_rest(
    nv: NodeView,
    segs: Seq<Seq<char>>,
    vars: Map<Seq<char>, VarValueView>,
)
    requires
        segs.len() > 0,
        assoc_get(nv.literals, segs[0]) is None,
        nv.variable.len() == 0,
        nv.rest.len() == 1,
    ensures
        walk(nv, segs, vars) == WalkOutcome::Reached(
            nv.rest[0].1,
            vars.insert(nv.rest[0].0, VarValueView::Components(segs)),
        ),
{
}

/// The allowed methods of a Method-Not-Allowed miss are exactly the
/// methods at the node with some endpoint admitting the request version.
pub proof fn lemma_allow_list_complete(
    ms: Seq<(Seq<char>, Seq<EndpointView>)>,
    version: Option<Version>,
    m: Seq<char>,
)
    ensures
        allow_list(ms, version).contains(m) <==> exists|i: int|
            0 <= i < ms.len() && (#[trigger] ms[i]).0 == m && first_match(ms[i].1, version)
                is Some,
    decreases ms.len(),
{
    if ms.len() > 0 {
        lemma_allow_list_complete(ms.drop_first(), version, m);
        let rest = allow_list(ms.drop_first(), version);
        if first_match(ms[0].1, version) is Some {
            assert(allow_list(ms, version) == seq![ms[0].0] + rest);
            if allow_list(ms, version).contains(m) {
                let j = choose|j: int|
                    0 <= j < allow_list(ms, version).len() && allow_list(ms, version)[j] == m;
                if j == 0 {
                    assert(ms[0].0 == m);
                } else {
                    assert(rest[j - 1] == m);
                    let i = choose|i: int|
                        0 <= i < ms.drop_first().len() && (#[trigger] ms.drop_first()[i]).0 == m
                            && first_match(ms.drop_first()[i].1, version) is Some;
                    assert(ms[i + 1].0 == m && first_match(ms[i + 1].1, version) is Some);
                }
            }
            if exists|i: int|
                0 <= i < ms.len() && (#[trigger] ms[i]).0 == m && first_match(ms[i].1, version)
                    is Some {
                let i = choose|i: int|
                    0 <= i < ms.len() && (#[trigger] ms[i]).0 == m && first_match(
                        ms[i].1,
                        version,
                    ) is Some;
                if i == 0 {
                    assert(allow_list(ms, version)[0] == m);
                } else {
                    assert(ms.drop_first()[i - 1] == ms[i]);
                    assert(rest.contains(m));
                    let j = choose|j: int| 0 <= j < rest.len() && rest[j] == m;
                    assert(allow_list(ms, version)[j + 1] == m);
                }
            }
        } else {
            assert(allow_list(ms, version) == rest);
            if allow_list(ms, version).contains(m) {
                let i = choose|i: int|
                    0 <= i < ms.drop_first().len() && (#[trigger] ms.drop_first()[i]).0 == m
                        && first_match(ms.drop_first()[i].1, version) is Some;
                assert(ms[i + 1].0 == m && first_match(ms[i + 1].1, version) is Some);
            }
            if exists|i: int|
                0 <= i < ms.len() && (#[trigger] ms[i]).0 == m && first_match(ms[i].1, version)
                    is Some {
                let i = choose|i: int|
                    0 <= i < ms.len() && (#[trigger] ms[i]).0 == m && first_match(
                        ms[i].1,
                        version,
                    ) is Some;
                assert(i > 0);
                assert(ms.drop_first()[i - 1] == ms[i]);
                assert(rest.contains(m));
            }
        }
    }
}


/// A wildcard node also matches the exhausted path: when the walk ends at
/// a node with no version match for the method but a wildcard edge,
/// resolution moves to the wildcard child with the wildcard variable
/// bound to the empty list of components.
pub proof fn lemma_wildcard_matches_empty(
    router: HttpRouter,
    method: Seq<char>,
    path: Seq<char>,
    version: Option<Version>,
    nv: NodeView,
    vars: Map<Seq<char>, VarValueView>,
)
    requires
        input_segments_spec(path) matches Ok(segs) && walk(
            node_view(router.root),
            segs,
            Map::empty(),
        ) == WalkOutcome::Reached(nv, vars),
        first_match(method_eps(nv, upper_str(method)), version) is None,
        nv.rest.len() == 1,
    ensures
        lookup_spec(router, method, path, version) == resolve_at(
            nv.rest[0].1,
            vars.insert(nv.rest[0].0, VarValueView::Components(Seq::empty())),
            upper_str(method),
            version,
        ),
{
}

/// Follow a registration path through the trie by segment kind.
pub open spec fn descend(nv: NodeView, raw: Seq<Seq<char>>) -> Option<NodeView>
    decreases raw.len(),
{
    if raw.len() == 0 {
        Some(nv)
    } else {
        match segment_view(raw[0]) {
            PathSegmentView::Literal(lit) => match assoc_get(nv.literals, lit) {
                Some(c) => descend(c, raw.drop_first()),
                None => None,
            },
            PathSegmentView::VarnameSegment(_) => if nv.variable.len() >= 1 {
                descend(nv.variable[0].1, raw.drop_first())
            } else {
                None
            },
            PathSegmentView::VarnameWildcard(_) => if nv.rest.len() >= 1 {
                descend(nv.rest[0].1, raw.drop_first())
            } else {
                None
            },
        }
    }
}

/// After a successful registration the registered path leads to a node
/// whose bucket for the endpoint's method ends with the endpoint.
pub proof fn lemma_insert_creates_route(
    nv: NodeView,
    raw: Seq<Seq<char>>,
    varnames: Seq<Seq<char>>,
    ep: EndpointView,
)
    requires
        nv_wf(nv),
        insert_into(nv, raw, varnames, ep) is Ok,
    ensures
        descend(insert_into(nv, raw, varnames, ep)->Ok_0, raw) is Some,
        ({
            let t = descend(insert_into(nv, raw, varnames, ep)->Ok_0, raw)->Some_0;
            let b = method_eps(t, upper_str(ep.method));
            b.len() > 0 && b.last() == ep
        }),
    decreases raw.len(),
{
    let nv1 = insert_into(nv, raw, varnames, ep)->Ok_0;
    if raw.len() == 0 {
        let m = upper_str(ep.method);
        let bucket = method_eps(nv, m);
        lemma_set_assoc(nv.methods, m, bucket.push(ep));
        assert(method_eps(nv1, m) == bucket.push(ep));
    } else {
        let s = raw[0];
        match segment_view(s) {
            PathSegmentView::Literal(lit) => {
                let child = match assoc_get(nv.literals, lit) {
                    Some(c) => c,
                    None => empty_nv(),
                };
                assert(nv_wf(child)) by {
                    lemma_assoc_entry(nv.literals, lit);
                    if assoc_get(nv.literals, lit) is Some {
                        let i = choose|i: int|
                            0 <= i < nv.literals.len() && #[trigger] nv.literals[i] == (
                            lit,
                            child,
                            );
                        assert(nv_wf(nv.literals[i].1));
                    }
                };
                lemma_insert_creates_route(child, raw.drop_first(), varnames, ep);
                let nc = insert_into(child, raw.drop_first(), varnames, ep)->Ok_0;
                lemma_set_assoc(nv.literals, lit, nc);
                assert(assoc_get(nv1.literals, lit) == Some(nc));
            },
            PathSegmentView::VarnameSegment(name) => {
                let child = if nv.variable.len() >= 1 {
                    nv.variable[0].1
                } else {
                    empty_nv()
                };
                assert(nv_wf(child));
                lemma_insert_creates_route(child, raw.drop_first(), varnames.push(name), ep);
            },
            PathSegmentView::VarnameWildcard(name) => {
                let child = if nv.rest.len() >= 1 {
                    nv.rest[0].1
                } else {
                    empty_nv()
                };
                assert(nv_wf(child));
                let m = upper_str(ep.method);
                let bucket = method_eps(child, m);
                lemma_set_assoc(child.methods, m, bucket.push(ep));
                let nc = insert_endpoint_at(child, ep)->Ok_0;
                assert(method_eps(nc, m) == bucket.push(ep));
                assert(descend(nv1, raw) == Some(nc)) by {
                    assert(raw.drop_first().len() == 0);
                    assert(descend(nc, raw.drop_first()) == Some(nc));
                    assert(nv1.rest[0].1 == nc);
                };
            },
        }
    }
}

/// Registering a second endpoint at the same path and method fails when
/// its version predicate overlaps one already registered there: the
/// insertion reports a duplicate or an overlapping version range.
pub proof fn lemma_overlap_rejected(
    nv: NodeView,
    raw: Seq<Seq<char>>,
    varnames: Seq<Seq<char>>,
    ep1: EndpointView,
    ep2: EndpointView,
)
    requires
        nv_wf(nv),
        insert_into(nv, raw, varnames, ep1) is Ok,
        upper_str(ep2.method) == upper_str(ep1.method),
        ep1.versions.overlaps_spec(ep2.versions),
    ensures
        insert_into(insert_into(nv, raw, varnames, ep1)->Ok_0, raw, varnames, ep2) matches Err(
            e,
        ) && (e is DuplicateRoute || e is OverlappingVersions),
    decreases raw.len(),
{
    let nv1 = insert_into(nv, raw, varnames, ep1)->Ok_0;
    if raw.len() == 0 {
        let m = upper_str(ep1.method);
        let bucket = method_eps(nv, m);
        let newb = bucket.push(ep1);
        lemma_set_assoc(nv.methods, m, newb);
        assert(method_eps(nv1, m) == newb);
        lemma_first_overlap(newb, ep2.versions);
        assert(newb[newb.len() - 1].versions.overlaps_spec(ep2.versions));
        assert(first_overlap(newb, ep2.versions) is Some);
    } else {
        let s = raw[0];
        match segment_view(s) {
            PathSegmentView::Literal(lit) => {
                let child = match assoc_get(nv.literals, lit) {
                    Some(c) => c,
                    None => empty_nv(),
                };
                assert(nv_wf(child)) by {
                    lemma_assoc_entry(nv.literals, lit);
                    if assoc_get(nv.literals, lit) is Some {
                        let i = choose|i: int|
                            0 <= i < nv.literals.len() && #[trigger] nv.literals[i] == (
                            lit,
                            child,
                            );
                        assert(nv_wf(nv.literals[i].1));
                    }
                };
                lemma_overlap_rejected(child, raw.drop_first(), varnames, ep1, ep2);
                let nc = insert_into(child, raw.drop_first(), varnames, ep1)->Ok_0;
                lemma_set_assoc(nv.literals, lit, nc);
                assert(assoc_get(nv1.literals, lit) == Some(nc));
            },
            PathSegmentView::VarnameSegment(name) => {
                let child = if nv.variable.len() >= 1 {
                    nv.variable[0].1
                } else {
                    empty_nv()
                };
                assert(nv_wf(child));
                lemma_overlap_rejected(child, raw.drop_first(), varnames.push(name), ep1, ep2);
            },
            PathSegmentView::VarnameWildcard(name) => {
                let child = if nv.rest.len() >= 1 {
                    nv.rest[0].1
                } else {
                    empty_nv()
                };
                assert(nv_wf(child));
                let m = upper_str(ep1.method);
                let bucket = method_eps(child, m);
                let newb = bucket.push(ep1);
                lemma_set_assoc(child.methods, m, newb);
                let nc = insert_endpoint_at(child, ep1)->Ok_0;
                assert(method_eps(nc, m) == newb);
                lemma_first_overlap(newb, ep2.versions);
                assert(newb[newb.len() - 1].versions.overlaps_spec(ep2.versions));
                assert(first_overlap(newb, ep2.versions) is Some);
            },
        }
    }
}

/// Registering a variable under one name and then, from the same literal
/// prefix, under a different name fails: the insertion reports the
/// inconsistent variable name.
pub proof fn lemma_inconsistent_name_rejected(
    nv: NodeView,
    raw1: Seq<Seq<char>>,
    raw2: Seq<Seq<char>>,
    varnames: Seq<Seq<char>>,
    ep1: EndpointView,
    ep2: EndpointView,
    k: int,
    n1: Seq<char>,
    n2: Seq<char>,
)
    requires
        nv_wf(nv),
        insert_into(nv, raw1, varnames, ep1) is Ok,
        0 <= k < raw1.len(),
        k < raw2.len(),
        forall|j: int| 0 <= j < k ==> raw1[j] == raw2[j],
        forall|j: int| 0 <= j < k ==> (#[trigger] segment_view(raw1[j])) is Literal,
        forall|j: int| 0 <= j < k ==> valid_route_segment(#[trigger] raw1[j]),
        valid_route_segment(raw2[k]),
        segment_view(raw1[k]) == PathSegmentView::VarnameSegment(n1),
        segment_view(raw2[k]) == PathSegmentView::VarnameSegment(n2),
        n1 != n2,
        !varnames.contains(n2),
    ensures
        insert_into(insert_into(nv, raw1, varnames, ep1)->Ok_0, raw2, varnames, ep2) == Err::<
            NodeView,
            RouteErrorView,
        >(RouteErrorView::InconsistentVariableName(ep2.path, n2, n1)),
    decreases k,
{
    let nv1 = insert_into(nv, raw1, varnames, ep1)->Ok_0;
    if k == 0 {
        let child = if nv.variable.len() >= 1 {
            nv.variable[0].1
        } else {
            empty_nv()
        };
        assert(nv1.variable[0].0 == n1);
    } else {
        let s = raw1[0];
        assert(segment_view(s) is Literal);
        let lit = segment_view(s)->Literal_0;
        let child = match assoc_get(nv.literals, lit) {
            Some(c) => c,
            None => empty_nv(),
        };
        assert(nv_wf(child)) by {
            lemma_assoc_entry(nv.literals, lit);
            if assoc_get(nv.literals, lit) is Some {
                let i = choose|i: int|
                    0 <= i < nv.literals.len() && #[trigger] nv.literals[i] == (lit, child);
                assert(nv_wf(nv.literals[i].1));
            }
        };
        assert(forall|j: int| 0 <= j < k - 1 ==> raw1.drop_first()[j] == raw1[j + 1]);
        assert(forall|j: int| 0 <= j < k - 1 ==> raw2.drop_first()[j] == raw2[j + 1]);
        assert(raw1.drop_first()[k - 1] == raw1[k]);
        assert(raw2.drop_first()[k - 1] == raw2[k]);
        lemma_inconsistent_name_rejected(
            child,
            raw1.drop_first(),
            raw2.drop_first(),
            varnames,
            ep1,
            ep2,
            k - 1,
            n1,
            n2,
        );
        let nc = insert_into(child, raw1.drop_first(), varnames, ep1)->Ok_0;
        lemma_set_assoc(nv.literals, lit, nc);
        assert(assoc_get(nv1.literals, lit) == Some(nc));
        assert(raw2[0] == s);
    }
}


// ---------------------------------------------------------------------
// Enumerating routes
// ---------------------------------------------------------------------

/// How a registered segment reads in a reconstructed path.
pub open spec fn render_segment(ps: PathSegmentView) -> Seq<char> {
    match ps {
        PathSegmentView::Literal(s) => s,
        PathSegmentView::VarnameSegment(n) => seq!['{'] + n + seq!['}'],
        PathSegmentView::VarnameWildcard(n) => seq!['{'] + n + seq![':', '.', '*', '}'],
    }
}

/// The display path at a node: the accumulated prefix, or `/` at the
/// root.
pub open spec fn display_path(prefix: Seq<char>) -> Seq<char> {
    if prefix.len() == 0 {
        seq!['/']
    } else {
        prefix
    }
}

/// The endpoints of one bucket that admit the version, in registration
/// order.
pub open spec fn bucket_list(eps: Seq<EndpointView>, version: Option<Version>) -> Seq<
    EndpointView,
>
    decreases eps.len(),
{
    if eps.len() == 0 {
        Seq::empty()
    } else {
        let rest = bucket_list(eps.drop_first(), version);
        if eps[0].versions.matches_spec(version) {
            seq![eps[0]] + rest
        } else {
            rest
        }
    }
}

/// The listed triples for one method's admitted endpoints.
pub open spec fn bucket_triples(path: Seq<char>, m: Seq<char>, eps: Seq<EndpointView>) -> Seq<
    (Seq<char>, Seq<char>, EndpointView),
> {
    eps.map_values(|e: EndpointView| (path, m, e))
}

/// The listed triples of a node's methods, methods in key order.
pub open spec fn methods_list(
    ms: Seq<(Seq<char>, Seq<EndpointView>)>,
    path: Seq<char>,
    version: Option<Version>,
) -> Seq<(Seq<char>, Seq<char>, EndpointView)>
    decreases ms.len(),
{
    if ms.len() == 0 {
        Seq::empty()
    } else {
        bucket_triples(path, ms[0].0, bucket_list(ms[0].1, version)) + methods_list(
            ms.drop_first(),
            path,
            version,
        )
    }
}

/// The listing of a subtree: a preorder, depth-first traversal, with the
/// node's methods first, then the literal children in key order, then
/// the variable child, then the wildcard child.
pub open spec fn endpoints_spec(
    nv: NodeView,
    prefix: Seq<char>,
    version: Option<Version>,
) -> Seq<(Seq<char>, Seq<char>, EndpointView)>
    decreases nv,
{
    methods_list(nv.methods, display_path(prefix), version) + endpoints_literals(
        nv,
        0,
        prefix,
        version,
    ) + (if nv.variable.len() >= 1 {
        endpoints_spec(
            nv.variable[0].1,
            prefix + seq!['/'] + render_segment(PathSegmentView::VarnameSegment(nv.variable[0].0)),
            version,
        )
    } else {
        Seq::empty()
    }) + (if nv.rest.len() >= 1 {
        endpoints_spec(
            nv.rest[0].1,
            prefix + seq!['/'] + render_segment(PathSegmentView::VarnameWildcard(nv.rest[0].0)),
            version,
        )
    } else {
        Seq::empty()
    })
}

/// The listings of the literal children from position `i` on.
pub open spec fn endpoints_literals(
    nv: NodeView,
    i: int,
    prefix: Seq<char>,
    version: Option<Version>,
) -> Seq<(Seq<char>, Seq<char>, EndpointView)>
    decreases nv.literals, nv.literals.len() - i,
{
    if i < 0 || i >= nv.literals.len() {
        Seq::empty()
    } else {
        endpoints_spec(nv.literals[i].1, prefix + seq!['/'] + nv.literals[i].0, version)
            + endpoints_literals(nv, i + 1, prefix, version)
    }
}

/// The mathematical value of a listing.
pub open spec fn listing_view(v: Seq<(String, String, ApiEndpoint)>) -> Seq<
    (Seq<char>, Seq<char>, EndpointView),
> {
    Seq::new(v.len(), |i: int| (v[i].0@, v[i].1@, v[i].2@))
}


/// Collect one bucket's admitted endpoints as listed triples.
fn collect_bucket(
    out: &mut Vec<(String, String, ApiEndpoint)>,
    display: &String,
    m: &String,
    eps: &Vec<ApiEndpoint>,
    version: Option<&Version>,
)
    ensures
        listing_view(final(out)@) =~= listing_view(old(out)@) + bucket_triples(
            display@,
            m@,
            bucket_list(eps@.map_values(|e: ApiEndpoint| e@), opt_deref(version)),
        ),
{
    let ghost s = eps@.map_values(|e: ApiEndpoint| e@);
    let ghost base = listing_view(out@);
    proof {
        assert(s.skip(0) =~= s);
    }
    let mut j: usize = 0;
    while j < eps.len()
        invariant
            s == eps@.map_values(|e: ApiEndpoint| e@),
            j <= s.len(),
            s.len() == eps@.len(),
            base + bucket_triples(display@, m@, bucket_list(s, opt_deref(version)))
                =~= listing_view(out@) + bucket_triples(
                display@,
                m@,
                bucket_list(s.skip(j as int), opt_deref(version)),
            ),
        decreases s.len() - j,
    {
        proof {
            assert(s.skip(j as int)[0] == s[j as int]);
            assert(s.skip(j as int).drop_first() =~= s.skip(j + 1));
        }
        let ghost before = listing_view(out@);
        if eps[j].versions.matches(version) {
            out.push((display.clone(), m.clone(), eps[j].clone()));
            proof {
                assert(listing_view(out@) =~= before.push((display@, m@, s[j as int])));
                assert(bucket_triples(
                    display@,
                    m@,
                    bucket_list(s.skip(j as int), opt_deref(version)),
                ) =~= seq![(display@, m@, s[j as int])] + bucket_triples(
                    display@,
                    m@,
                    bucket_list(s.skip(j + 1), opt_deref(version)),
                ));
            }
        } else {
            proof {
                assert(bucket_triples(
                    display@,
                    m@,
                    bucket_list(s.skip(j as int), opt_deref(version)),
                ) =~= bucket_triples(
                    display@,
                    m@,
                    bucket_list(s.skip(j + 1), opt_deref(version)),
                ));
            }
        }
        j = j + 1;
    }
    proof {
        assert(s.skip(j as int) =~= Seq::<EndpointView>::empty());
        assert(bucket_triples(
            display@,
            m@,
            bucket_list(s.skip(j as int), opt_deref(version)),
        ) =~= Seq::<(Seq<char>, Seq<char>, EndpointView)>::empty());
        assert(listing_view(out@) =~= base + bucket_triples(
            display@,
            m@,
            bucket_list(s, opt_deref(version)),
        ));
    }
}

/// Collect the listing of a subtree in preorder.
fn collect_endpoints(
    node: &HttpRouterNode,
    prefix: &String,
    version: Option<&Version>,
    out: &mut Vec<(String, String, ApiEndpoint)>,
)
    ensures
        listing_view(final(out)@) =~= listing_view(old(out)@) + endpoints_spec(
            node_view(*node),
            prefix@,
            opt_deref(version),
        ),
    decreases *node,
{
    let ghost nv = node_view(*node);
    let ghost base = listing_view(out@);
    proof {
        reveal_strlit("/");
        lemma_literals_view(*node);
    }
    let display = if prefix.as_str().unicode_len() == 0 {
        String::from_str("/")
    } else {
        prefix.clone()
    };
    proof {
        assert(display@ == display_path(prefix@));
    }
    // methods, in key order
    let ghost ms = nv.methods;
    proof {
        assert(ms.skip(0) =~= ms);
    }
    let mut i: usize = 0;
    while i < node.methods.len()
        invariant
            nv == node_view(*node),
            ms == nv.methods,
            ms.len() == node.methods@.len(),
            forall|t: int| 0 <= t < ms.len() ==> #[trigger] ms[t] == (
                node.methods@[t].0@,
                node.methods@[t].1@.map_values(|e: ApiEndpoint| e@),
            ),
            i <= ms.len(),
            display@ == display_path(prefix@),
            base + methods_list(ms, display_path(prefix@), opt_deref(version))
                =~= listing_view(out@) + methods_list(
                ms.skip(i as int),
                display_path(prefix@),
                opt_deref(version),
            ),
        decreases ms.len() - i,
    {
        proof {
            assert(ms.skip(i as int)[0] == ms[i as int]);
            assert(ms.skip(i as int).drop_first() =~= ms.skip(i + 1));
        }
        collect_bucket(out, &display, &node.methods[i].0, &node.methods[i].1, version);
        i = i + 1;
    }
    proof {
        assert(ms.skip(i as int) =~= Seq::<(Seq<char>, Seq<EndpointView>)>::empty());
        assert(listing_view(out@) =~= base + methods_list(
            ms,
            display_path(prefix@),
            opt_deref(version),
        ));
    }
    // literal children, in key order
    let ghost after_methods = listing_view(out@);
    let mut i: usize = 0;
    while i < node.literal_edges.len()
        invariant
            nv == node_view(*node),
            nv.literals.len() == node.literal_edges@.len(),
            forall|t: int| 0 <= t < nv.literals.len() ==> #[trigger] nv.literals[t] == (
                node.literal_edges@[t].0@,
                node_view(node.literal_edges@[t].1),
            ),
            i <= nv.literals.len(),
            after_methods + endpoints_literals(nv, 0, prefix@, opt_deref(version))
                =~= listing_view(out@) + endpoints_literals(
                nv,
                i as int,
                prefix@,
                opt_deref(version),
            ),
        decreases nv.literals.len() - i,
    {
        let child_prefix = prefix.clone().concat("/").concat(node.literal_edges[i].0.as_str());
        proof {
            reveal_strlit("/");
            assert(child_prefix@ =~= prefix@ + seq!['/'] + nv.literals[i as int].0);
        }
        collect_endpoints(&node.literal_edges[i].1, &child_prefix, version, out);
        i = i + 1;
    }
    proof {
        assert(endpoints_literals(nv, nv.literals.len() as int, prefix@, opt_deref(version))
            =~= Seq::<(Seq<char>, Seq<char>, EndpointView)>::empty());
        assert(listing_view(out@) =~= after_methods + endpoints_literals(
            nv,
            0,
            prefix@,
            opt_deref(version),
        ));
    }
    // the variable child, then the wildcard child
    if let Some(b) = &node.variable_edge {
        let child_prefix = prefix.clone().concat("/{").concat(b.0.as_str()).concat("}");
        proof {
            reveal_strlit("/{");
            reveal_strlit("}");
            assert(child_prefix@ =~= prefix@ + seq!['/'] + render_segment(
                PathSegmentView::VarnameSegment(nv.variable[0].0),
            ));
        }
        collect_endpoints(&b.1, &child_prefix, version, out);
    }
    if let Some(b) = &node.rest_edge {
        let child_prefix = prefix.clone().concat("/{").concat(b.0.as_str()).concat(":.*}");
        proof {
            reveal_strlit("/{");
            reveal_strlit(":.*}");
            assert(child_prefix@ =~= prefix@ + seq!['/'] + render_segment(
                PathSegmentView::VarnameWildcard(nv.rest[0].0),
            ));
        }
        collect_endpoints(&b.1, &child_prefix, version, out);
    }
}

impl HttpRouter {
    /// List every registered route as a triple of reconstructed path,
    /// method, and endpoint, in a deterministic preorder: at each node
    /// the methods in key order, then the literal children in key order,
    /// then the variable child, then the wildcard child.  With a version
    /// given, endpoints whose predicate does not admit it are left out.
    pub fn endpoints(&self, version: Option<&Version>) -> (r: Vec<(String, String, ApiEndpoint)>)
        ensures
            listing_view(r@) =~= endpoints_spec(
                node_view(self.root),
                Seq::empty(),
                opt_deref(version),
            ),
    {
        let mut out: Vec<(String, String, ApiEndpoint)> = Vec::new();
        let prefix = String::new();
        proof {
            assert(listing_view(out@) =~= Seq::<(Seq<char>, Seq<char>, EndpointView)>::empty());
        }
        collect_endpoints(&self.root, &prefix, version, &mut out);
        out
    }
}


/// The same consistency holds for wildcard names: registering a wildcard
/// under one name and then, from the same literal prefix, under a
/// different name fails.
pub proof fn lemma_inconsistent_wildcard_rejected(
    nv: NodeView,
    raw1: Seq<Seq<char>>,
    raw2: Seq<Seq<char>>,
    varnames: Seq<Seq<char>>,
    ep1: EndpointView,
    ep2: EndpointView,
    k: int,
    n1: Seq<char>,
    n2: Seq<char>,
)
    requires
        nv_wf(nv),
        insert_into(nv, raw1, varnames, ep1) is Ok,
        0 <= k,
        raw1.len() == k + 1,
        raw2.len() == k + 1,
        forall|j: int| 0 <= j < k ==> raw1[j] == raw2[j],
        forall|j: int| 0 <= j < k ==> (#[trigger] segment_view(raw1[j])) is Literal,
        forall|j: int| 0 <= j < k ==> valid_route_segment(#[trigger] raw1[j]),
        valid_route_segment(raw2[k]),
        segment_view(raw1[k]) == PathSegmentView::VarnameWildcard(n1),
        segment_view(raw2[k]) == PathSegmentView::VarnameWildcard(n2),
        n1 != n2,
        !varnames.contains(n2),
    ensures
        insert_into(insert_into(nv, raw1, varnames, ep1)->Ok_0, raw2, varnames, ep2) == Err::<
            NodeView,
            RouteErrorView,
        >(RouteErrorView::InconsistentVariableName(ep2.path, n2, n1)),
    decreases k,
{
    let nv1 = insert_into(nv, raw1, varnames, ep1)->Ok_0;
    if k == 0 {
        assert(nv1.rest[0].0 == n1);
    } else {
        let s = raw1[0];
        assert(segment_view(s) is Literal);
        let lit = segment_view(s)->Literal_0;
        let child = match assoc_get(nv.literals, lit) {
            Some(c) => c,
            None => empty_nv(),
        };
        assert(nv_wf(child)) by {
            lemma_assoc_entry(nv.literals, lit);
            if assoc_get(nv.literals, lit) is Some {
                let i = choose|i: int|
                    0 <= i < nv.literals.len() && #[trigger] nv.literals[i] == (lit, child);
                assert(nv_wf(nv.literals[i].1));
            }
        };
        assert(forall|j: int| 0 <= j < k - 1 ==> raw1.drop_first()[j] == raw1[j + 1]);
        assert(forall|j: int| 0 <= j < k - 1 ==> raw2.drop_first()[j] == raw2[j + 1]);
        assert(raw1.drop_first()[k - 1] == raw1[k]);
        assert(raw2.drop_first()[k - 1] == raw2[k]);
        lemma_inconsistent_wildcard_rejected(
            child,
            raw1.drop_first(),
            raw2.drop_first(),
            varnames,
            ep1,
            ep2,
            k - 1,
            n1,
            n2,
        );
        let nc = insert_into(child, raw1.drop_first(), varnames, ep1)->Ok_0;
        lemma_set_assoc(nv.literals, lit, nc);
        assert(assoc_get(nv1.literals, lit) == Some(nc));
        assert(raw2[0] == s);
    }
}

// ---------------------------------------------------------------------
// Lookup: specification
// ---------------------------------------------------------------------

/// Where a walk of the trie ends: a node with the variable bindings made
/// on the way, or nothing.
pub enum WalkOutcome {
    Reached(NodeView, Map<Seq<char>, VarValueView>),
    Missed,
}

/// Walk the trie along the request segments without backtracking.  At
/// each node a literal edge equal to the segment wins; else a variable
/// edge binds the segment; else a wildcard edge binds every remaining
/// segment and stops; else the walk misses.
pub open spec fn walk(
    nv: NodeView,
    segs: Seq<Seq<char>>,
    vars: Map<Seq<char>, VarValueView>,
) -> WalkOutcome
    decreases segs.len(),
{
    if segs.len() == 0 {
        WalkOutcome::Reached(nv, vars)
    } else {
        let s = segs[0];
        match assoc_get(nv.literals, s) {
            Some(child) => walk(child, segs.drop_first(), vars),
            None => {
                if nv.variable.len() == 1 {
                    walk(
                        nv.variable[0].1,
                        segs.drop_first(),
                        vars.insert(nv.variable[0].0, VarValueView::Single(s)),
                    )
                } else if nv.rest.len() == 1 {
                    WalkOutcome::Reached(
                        nv.rest[0].1,
                        vars.insert(nv.rest[0].0, VarValueView::Components(segs)),
                    )
                } else {
                    WalkOutcome::Missed
                }
            },
        }
    }
}

/// The endpoints a node serves under a method, or nothing.
pub open spec fn method_eps(nv: NodeView, m: Seq<char>) -> Seq<EndpointView> {
    match assoc_get(nv.methods, m) {
        Some(b) => b,
        None => Seq::empty(),
    }
}

/// The first endpoint in the bucket whose predicate admits the version.
pub open spec fn first_match(eps: Seq<EndpointView>, version: Option<Version>) -> Option<
    EndpointView,
>
    decreases eps.len(),
{
    if eps.len() == 0 {
        None
    } else if eps[0].versions.matches_spec(version) {
        Some(eps[0])
    } else {
        first_match(eps.drop_first(), version)
    }
}

/// The methods at a node with at least one endpoint admitting the
/// version, in increasing key order.
pub open spec fn allow_list(
    ms: Seq<(Seq<char>, Seq<EndpointView>)>,
    version: Option<Version>,
) -> Seq<Seq<char>>
    decreases ms.len(),
{
    if ms.len() == 0 {
        Seq::empty()
    } else {
        let rest = allow_list(ms.drop_first(), version);
        if first_match(ms[0].1, version) is Some {
            seq![ms[0].0] + rest
        } else {
            rest
        }
    }
}

/// How a request-path error reads in a Bad-Request response.
pub open spec fn input_error_message(e: InputError) -> Seq<char> {
    match e {
        InputError::DotSegment => "dot-segments are not permitted"@,
        InputError::InvalidEncoding => "invalid path encoding"@,
    }
}

/// How a version miss reads in a Not-Found response.
pub open spec fn version_miss_message(v: Option<Version>) -> Seq<char> {
    "route has no handlers for version "@ + match v {
        Some(x) => version_render(x),
        None => "<none>"@,
    }
}

/// An error from a route lookup: the HTTP status it maps to, and, for a
/// method miss, the methods that would have been allowed.
#[derive(Debug)]
pub enum LookupError {
    /// the request path is malformed (HTTP 400)
    BadRequest { message: String },
    /// nothing serves this path, method and version (HTTP 404)
    NotFound { message: String },
    /// the path is served, but not under this method (HTTP 405); one
    /// `Allow` value per listed method
    MethodNotAllowed { allowed: Vec<String> },
}

/// The mathematical value of a [`LookupError`].
pub enum LookupErrorView {
    BadRequest(Seq<char>),
    NotFound(Seq<char>),
    MethodNotAllowed(Seq<Seq<char>>),
}

impl View for LookupError {
    type V = LookupErrorView;

    open spec fn view(&self) -> LookupErrorView {
        match self {
            LookupError::BadRequest { message } => LookupErrorView::BadRequest(message@),
            LookupError::NotFound { message } => LookupErrorView::NotFound(message@),
            LookupError::MethodNotAllowed { allowed } => LookupErrorView::MethodNotAllowed(
                allowed.deep_view(),
            ),
        }
    }
}

impl LookupError {
    /// The HTTP status code of the miss: 400, 404 or 405.
    pub fn status_code(&self) -> (c: u16)
        ensures
            self@ is BadRequest ==> c == 400,
            self@ is NotFound ==> c == 404,
            self@ is MethodNotAllowed ==> c == 405,
    {
        match self {
            LookupError::BadRequest { .. } => 400,
            LookupError::NotFound { .. } => 404,
            LookupError::MethodNotAllowed { .. } => 405,
        }
    }
}

/// Select an endpoint at a reached node: the first version match under
/// the method wins; otherwise the miss is Method-Not-Allowed when some
/// method at the node admits the version, else Not-Found.
pub open spec fn resolve_at(
    nv: NodeView,
    vars: Map<Seq<char>, VarValueView>,
    m: Seq<char>,
    version: Option<Version>,
) -> Result<LookupOkView, LookupErrorView> {
    match first_match(method_eps(nv, m), version) {
        Some(ep) => Ok(ok_view_of(ep, vars)),
        None => {
            if allow_list(nv.methods, version).len() > 0 {
                Err(LookupErrorView::MethodNotAllowed(allow_list(nv.methods, version)))
            } else {
                Err(LookupErrorView::NotFound(version_miss_message(version)))
            }
        },
    }
}

/// What a lookup returns: parse the request path, walk the trie, follow a
/// trailing wildcard when the reached node has no version match for the
/// method, and resolve at the final node.
pub open spec fn lookup_spec(
    router: HttpRouter,
    method: Seq<char>,
    path: Seq<char>,
    version: Option<Version>,
) -> Result<LookupOkView, LookupErrorView> {
    match input_segments_spec(path) {
        Err(e) => Err(LookupErrorView::BadRequest(input_error_message(e))),
        Ok(segs) => {
            let m = upper_str(method);
            match walk(node_view(router.root), segs, Map::empty()) {
                WalkOutcome::Missed => Err(
                    LookupErrorView::NotFound("no route found (no path in router)"@),
                ),
                WalkOutcome::Reached(nv, vars) => {
                    if first_match(method_eps(nv, m), version) is Some {
                        resolve_at(nv, vars, m, version)
                    } else if nv.rest.len() == 1 {
                        resolve_at(
                            nv.rest[0].1,
                            vars.insert(nv.rest[0].0, VarValueView::Components(Seq::empty())),
                            m,
                            version,
                        )
                    } else {
                        resolve_at(nv, vars, m, version)
                    }
                },
            }
        },
    }
}

/// The mathematical value of a lookup result.
pub open spec fn lookup_result_view(r: Result<RouterLookupResult, LookupError>) -> Result<
    LookupOkView,
    LookupErrorView,
> {
    match r {
        Ok(res) => Ok(res@),
        Err(e) => Err(e@),
    }
}

// ---------------------------------------------------------------------
// Lookup: executable code
// ---------------------------------------------------------------------

/// The literal child for a key, by linear scan of the sorted edges.
fn lit_child_exec<'a>(node: &'a HttpRouterNode, k: &str) -> (r: Option<&'a HttpRouterNode>)
    ensures
        match r {
            Some(c) => assoc_get(node_view(*node).literals, k@) == Some(node_view(*c)),
            None => assoc_get(node_view(*node).literals, k@) is None,
        },
{
    let ghost s = node_view(*node).literals;
    proof {
        lemma_literals_view(*node);
    }
    let mut i: usize = 0;
    while i < node.literal_edges.len()
        invariant
            s == node_view(*node).literals,
            s.len() == node.literal_edges@.len(),
            forall|j: int| 0 <= j < s.len() ==> #[trigger] s[j]
                == (node.literal_edges@[j].0@, node_view(node.literal_edges@[j].1)),
            i <= s.len(),
            forall|j: int| 0 <= j < i ==> #[trigger] s[j].0 != k@,
        decreases s.len() - i,
    {
        if str_eq(node.literal_edges[i].0.as_str(), k) {
            proof {
                lemma_assoc_at(s, k@, i as int);
            }
            return Some(&node.literal_edges[i].1);
        }
        i = i + 1;
    }
    proof {
        lemma_assoc_missing(s, k@);
    }
    None
}

/// The method bucket for a key, by linear scan of the sorted buckets.
fn method_bucket<'a>(node: &'a HttpRouterNode, m: &str) -> (r: Option<&'a Vec<ApiEndpoint>>)
    ensures
        match r {
            Some(b) => assoc_get(node_view(*node).methods, m@) == Some(
                b@.map_values(|e: ApiEndpoint| e@),
            ),
            None => assoc_get(node_view(*node).methods, m@) is None,
        },
{
    let ghost s = node_view(*node).methods;
    let mut i: usize = 0;
    while i < node.methods.len()
        invariant
            s == node_view(*node).methods,
            s.len() == node.methods@.len(),
            forall|j: int| 0 <= j < s.len() ==> #[trigger] s[j]
                == (node.methods@[j].0@, node.methods@[j].1@.map_values(|e: ApiEndpoint| e@)),
            i <= s.len(),
            forall|j: int| 0 <= j < i ==> #[trigger] s[j].0 != m@,
        decreases s.len() - i,
    {
        if str_eq(node.methods[i].0.as_str(), m) {
            proof {
                lemma_assoc_at(s, m@, i as int);
            }
            return Some(&node.methods[i].1);
        }
        i = i + 1;
    }
    proof {
        lemma_assoc_missing(s, m@);
    }
    None
}

/// The first endpoint in the bucket whose predicate admits the version.
fn find_matching<'a>(eps: &'a Vec<ApiEndpoint>, version: Option<&Version>) -> (r: Option<
    &'a ApiEndpoint,
>)
    ensures
        match r {
            Some(ep) => first_match(eps@.map_values(|e: ApiEndpoint| e@), opt_deref(version))
                == Some(ep@),
            None => first_match(eps@.map_values(|e: ApiEndpoint| e@), opt_deref(version))
                is None,
        },
{
    let ghost s = eps@.map_values(|e: ApiEndpoint| e@);
    proof {
        assert(s.skip(0) =~= s);
    }
    let mut i: usize = 0;
    while i < eps.len()
        invariant
            s == eps@.map_values(|e: ApiEndpoint| e@),
            i <= s.len(),
            s.len() == eps@.len(),
            first_match(s, opt_deref(version)) == first_match(
                s.skip(i as int),
                opt_deref(version),
            ),
        decreases s.len() - i,
    {
        let m = eps[i].versions.matches(version);
        proof {
            assert(s.skip(i as int)[0] == s[i as int]);
            assert(s.skip(i as int).drop_first() =~= s.skip(i + 1));
        }
        if m {
            return Some(&eps[i]);
        }
        i = i + 1;
    }
    proof {
        assert(s.skip(i as int) =~= Seq::<EndpointView>::empty());
    }
    None
}

/// The methods at the node with at least one endpoint admitting the
/// version, in key order.
fn allowed_methods(node: &HttpRouterNode, version: Option<&Version>) -> (r: Vec<String>)
    ensures
        r.deep_view() == allow_list(node_view(*node).methods, opt_deref(version)),
{
    let ghost s = node_view(*node).methods;
    let mut r: Vec<String> = Vec::new();
    proof {
        assert(s.skip(0) =~= s);
        assert(r.deep_view() =~= Seq::<Seq<char>>::empty());
        assert(Seq::<Seq<char>>::empty() + allow_list(s, opt_deref(version)) =~= allow_list(
            s,
            opt_deref(version),
        ));
    }
    let mut i: usize = 0;
    while i < node.methods.len()
        invariant
            s == node_view(*node).methods,
            s.len() == node.methods@.len(),
            forall|j: int| 0 <= j < s.len() ==> #[trigger] s[j]
                == (node.methods@[j].0@, node.methods@[j].1@.map_values(|e: ApiEndpoint| e@)),
            i <= s.len(),
            allow_list(s, opt_deref(version)) =~= r.deep_view() + allow_list(
                s.skip(i as int),
                opt_deref(version),
            ),
        decreases s.len() - i,
    {
        proof {
            assert(s.skip(i as int)[0] == s[i as int]);
            assert(s.skip(i as int).drop_first() =~= s.skip(i + 1));
        }
        let ghost prev = r.deep_view();
        if find_matching(&node.methods[i].1, version).is_some() {
            r.push(node.methods[i].0.clone());
            proof {
                assert(r.deep_view() =~= prev.push(s[i as int].0));
                assert(prev.push(s[i as int].0) + allow_list(s.skip(i + 1), opt_deref(version))
                    =~= prev + (seq![s[i as int].0] + allow_list(
                    s.skip(i + 1),
                    opt_deref(version),
                )));
            }
        }
        i = i + 1;
    }
    proof {
        assert(s.skip(i as int) =~= Seq::<(Seq<char>, Seq<EndpointView>)>::empty());
        assert(r.deep_view() + Seq::<Seq<char>>::empty() =~= r.deep_view());
    }
    r
}

/// Select an endpoint at a reached node, or classify the miss.
fn resolve_at_node(
    node: &HttpRouterNode,
    vars: VariableSet,
    m: &str,
    version: Option<&Version>,
) -> (r: Result<RouterLookupResult, LookupError>)
    requires
        vars.wf(),
    ensures
        lookup_result_view(r) == resolve_at(node_view(*node), vars@, m@, opt_deref(version)),
        r matches Ok(res) ==> res.endpoint.variables.wf(),
{
    let bucket = method_bucket(node, m);
    let found = match bucket {
        Some(b) => find_matching(b, version),
        None => None,
    };
    proof {
        if bucket is None {
            assert(method_eps(node_view(*node), m@) =~= Seq::<EndpointView>::empty());
        }
    }
    match found {
        Some(ep) => {
            Ok(
                RouterLookupResult {
                    handler: ep.handler.clone(),
                    endpoint: RequestEndpointMetadata {
                        operation_id: ep.operation_id.clone(),
                        variables: vars,
                        body_content_type: ep.body_content_type,
                        request_body_max_bytes: ep.request_body_max_bytes,
                    },
                },
            )
        },
        None => {
            let allowed = allowed_methods(node, version);
            if allowed.len() > 0 {
                proof {
                    assert(allowed.deep_view().len() > 0);
                }
                Err(LookupError::MethodNotAllowed { allowed })
            } else {
                proof {
                    assert(allowed.deep_view().len() == 0);
                    reveal_strlit("route has no handlers for version ");
                    reveal_strlit("<none>");
                }
                let mut msg = String::from_str("route has no handlers for version ");
                match version {
                    Some(v) => {
                        msg = msg.concat(v.render().as_str());
                    },
                    None => {
                        msg = msg.concat("<none>");
                    },
                }
                Err(LookupError::NotFound { message: msg })
            }
        },
    }
}

/// Walk the trie from `node` along the segments starting at `i`,
/// accumulating variable bindings.
fn walk_node<'a>(
    node: &'a HttpRouterNode,
    segs: &Vec<String>,
    i: usize,
    vars: VariableSet,
) -> (r: Option<(&'a HttpRouterNode, VariableSet)>)
    requires
        i <= segs@.len(),
        vars.wf(),
    ensures
        match r {
            Some(p) => p.1.wf() && walk(node_view(*node), segs.deep_view().skip(i as int), vars@)
                == WalkOutcome::Reached(node_view(*p.0), p.1@),
            None => walk(node_view(*node), segs.deep_view().skip(i as int), vars@)
                == WalkOutcome::Missed,
        },
    decreases segs@.len() - i,
{
    let ghost tail = segs.deep_view().skip(i as int);
    if i == segs.len() {
        proof {
            assert(tail =~= Seq::<Seq<char>>::empty());
        }
        return Some((node, vars));
    }
    proof {
        assert(tail[0] == segs.deep_view()[i as int]);
        assert(tail.drop_first() =~= segs.deep_view().skip(i + 1));
    }
    let s: &String = &segs[i];
    match lit_child_exec(node, s.as_str()) {
        Some(child) => walk_node(child, segs, i + 1, vars),
        None => {
            if let Some(b) = &node.variable_edge {
                let mut vars2 = vars;
                vars2.insert(b.0.clone(), VariableValue::Single(s.clone()));
                walk_node(&b.1, segs, i + 1, vars2)
            } else if let Some(b) = &node.rest_edge {
                let mut rest: Vec<String> = Vec::new();
                let mut j: usize = i;
                while j < segs.len()
                    invariant
                        i <= j <= segs@.len(),
                        rest.deep_view() =~= segs.deep_view().subrange(i as int, j as int),
                    decreases segs@.len() - j,
                {
                    let ghost prev = rest.deep_view();
                    rest.push(segs[j].clone());
                    proof {
                        assert(rest.deep_view() =~= prev.push(segs.deep_view()[j as int]));
                        assert(prev.push(segs.deep_view()[j as int]) =~= segs.deep_view()
                            .subrange(i as int, j + 1));
                    }
                    j = j + 1;
                }
                proof {
                    assert(rest.deep_view() =~= tail);
                }
                let mut vars2 = vars;
                vars2.insert(b.0.clone(), VariableValue::Components(rest));
                Some((&b.1, vars2))
            } else {
                None
            }
        },
    }
}

impl HttpRouter {
    /// A router with no routes configured.
    pub fn new() -> (r: HttpRouter)
        ensures
            r.wf(),
            node_view(r.root) =~= empty_nv(),
            !r.has_versioned_routes,
    {
        let r = HttpRouter { root: HttpRouterNode::new(), has_versioned_routes: false };
        proof {
            assert(!any_versioned(node_view(r.root)));
        }
        r
    }

    /// Whether any registered endpoint is constrained by version: exactly
    /// when some endpoint's predicate is not `All`.
    pub fn has_versioned_routes(&self) -> (r: bool)
        requires
            self.wf(),
        ensures
            r == any_versioned(node_view(self.root)),
    {
        self.has_versioned_routes
    }

    /// Look up the route for a request: parse and normalize the path,
    /// walk the trie, and select the endpoint whose version predicate
    /// admits the request version.  A miss is classified as Bad-Request,
    /// Not-Found or Method-Not-Allowed, the last carrying the allowed
    /// methods.
    pub fn lookup_route(
        &self,
        method: &str,
        path: InputPath<'_>,
        version: Option<&Version>,
    ) -> (r: Result<RouterLookupResult, LookupError>)
        requires
            self.wf(),
        ensures
            lookup_result_view(r) == lookup_spec(*self, method@, path@, opt_deref(version)),
            r matches Ok(res) ==> res.endpoint.variables.wf(),
    {
        let segs = match input_path_to_segments(&path) {
            Ok(v) => v,
            Err(e) => {
                proof {
                    reveal_strlit("dot-segments are not permitted");
                    reveal_strlit("invalid path encoding");
                }
                let message = match e {
                    InputError::DotSegment => String::from_str("dot-segments are not permitted"),
                    InputError::InvalidEncoding => String::from_str("invalid path encoding"),
                };
                return Err(LookupError::BadRequest { message });
            },
        };
        let methodname = ascii_uppercase(method);
        proof {
            assert(segs.deep_view().skip(0) =~= segs.deep_view());
        }
        match walk_node(&self.root, &segs, 0, VariableSet::new()) {
            None => {
                proof {
                    reveal_strlit("no route found (no path in router)");
                }
                Err(
                    LookupError::NotFound {
                        message: String::from_str("no route found (no path in router)"),
                    },
                )
            },
            Some((node, vars)) => {
                let has_match = match method_bucket(node, methodname.as_str()) {
                    Some(b) => find_matching(b, version).is_some(),
                    None => false,
                };
                proof {
                    if assoc_get(node_view(*node).methods, methodname@) is None {
                        assert(method_eps(node_view(*node), methodname@)
                            =~= Seq::<EndpointView>::empty());
                    }
                }
                if has_match {
                    resolve_at_node(node, vars, methodname.as_str(), version)
                } else if let Some(b) = &node.rest_edge {
                    let mut vars2 = vars;
                    let empty_components: Vec<String> = Vec::new();
                    proof {
                        assert(empty_components.deep_view() =~= Seq::<Seq<char>>::empty());
                    }
                    vars2.insert(b.0.clone(), VariableValue::Components(empty_components));
                    resolve_at_node(&b.1, vars2, methodname.as_str(), version)
                } else {
                    resolve_at_node(node, vars, methodname.as_str(), version)
                }
            },
        }
    }

    /// Look up a route without a version, as an unversioned host does.
    pub fn lookup_route_unversioned(
        &self,
        method: &str,
        path: InputPath<'_>,
    ) -> (r: Result<RouterLookupResult, LookupError>)
        requires
            self.wf(),
        ensures
            lookup_result_view(r) == lookup_spec(*self, method@, path@, None),
            r matches Ok(res) ==> res.endpoint.variables.wf(),
    {
        self.lookup_route(method, path, None)
    }
}

} // verus!
