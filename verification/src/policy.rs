//! Reading an offer's ODRL policy back out of the configuration graph: the
//! document shape, what a read of the graph may answer, and the small pure
//! steps the read is made of.

use vstd::prelude::*;
use crate::decimal::parse_decimal;
use crate::offer::{ConstraintView, PermissionSpec, PermissionView, permission_views};
use crate::rdf::{objects_of, term_views, xsd_integer_iri, Node, NodeValue, RdfTerm, TermValue, Triple};
use crate::graph::{integer, odrl_action, odrl_assigner, odrl_constraint, odrl_left_operand, odrl_operator, odrl_permission, odrl_right_operand, odrl_target, ds_order, policy_iri_of, node_term};

verus! {

/// The JSON-LD context of every policy document.
pub const ODRL_CONTEXT: &'static str = "http://www.w3.org/ns/odrl.jsonld";

/// An ODRL policy as a JSON-LD document: `@context`, `@id`, `@type`,
/// `target`, `assigner`, and the ordered `permission` array. In its JSON
/// form, a permission without constraints carries no `constraint` key.
#[derive(Debug)]
pub struct PolicyDocument {
    pub context: String,
    pub id: String,
    pub policy_type: String,
    pub target: String,
    pub assigner: String,
    pub permissions: Vec<PermissionSpec>,
}

pub struct PolicyView {
    pub context: Seq<char>,
    pub id: Seq<char>,
    pub policy_type: Seq<char>,
    pub target: Seq<char>,
    pub assigner: Seq<char>,
    pub permissions: Seq<PermissionView>,
}

impl View for PolicyDocument {
    type V = PolicyView;

    open spec fn view(&self) -> PolicyView {
        PolicyView {
            context: self.context@,
            id: self.id@,
            policy_type: self.policy_type@,
            target: self.target@,
            assigner: self.assigner@,
            permissions: permission_views(self.permissions@),
        }
    }
}

// ---------------------------------------------------------------------------
// Reading single values.

/// The text of a term as a JSON string: an IRI's text or a literal's lexical
/// form; a blank node has none.
pub open spec fn text_of(t: RdfTerm) -> Option<Seq<char>> {
    match t {
        RdfTerm::Iri(i) => Some(i),
        RdfTerm::Bnode(_) => None,
        RdfTerm::Lit(v, _, _) => Some(v),
    }
}

/// The text of a term, or the empty string for a blank node.
pub open spec fn text_or_empty(t: RdfTerm) -> Seq<char> {
    match text_of(t) {
        Some(s) => s,
        None => Seq::empty(),
    }
}

/// The node a term names, if it is an IRI or a blank node.
pub open spec fn node_of(t: RdfTerm) -> Option<Node> {
    match t {
        RdfTerm::Iri(i) => Some(Node::Iri(i)),
        RdfTerm::Bnode(b) => Some(Node::Bnode(b)),
        RdfTerm::Lit(..) => None,
    }
}

/// The text of the first term in `s` that has one.
pub open spec fn first_text_of(s: Seq<RdfTerm>) -> Option<Seq<char>>
    decreases s.len(),
{
    if s.len() == 0 {
        None
    } else if text_of(s[0]) is Some {
        text_of(s[0])
    } else {
        first_text_of(s.drop_first())
    }
}

/// The text of a term (its IRI or lexical form); `None` for a blank node.
pub fn literal_value(t: &TermValue) -> (r: Option<String>)
    ensures
        opt_text(r) == text_of(t@),
{
    match t {
        TermValue::Literal(v, _, _) => Some(v.clone()),
        TermValue::Named(n) => Some(n.clone()),
        TermValue::Blank(_) => None,
    }
}

pub open spec fn opt_text(o: Option<String>) -> Option<Seq<char>> {
    match o {
        Some(s) => Some(s@),
        None => None,
    }
}

/// The text of the first term that has one: exactly [`first_text_of`].
pub fn first_text(ts: &Vec<TermValue>) -> (r: Option<String>)
    ensures
        opt_text(r) == first_text_of(term_views(ts@)),
        r matches Some(s) ==> exists|k: int| 0 <= k < ts@.len() && text_of(#[trigger] ts@[k]@) == Some(s@),
        r is None ==> forall|k: int| 0 <= k < ts@.len() ==> text_of(#[trigger] ts@[k]@) is None,
{
    let mut i: usize = 0;
    assert(term_views(ts@).subrange(0, ts@.len() as int) =~= term_views(ts@));
    while i < ts.len()
        invariant
            i <= ts@.len(),
            first_text_of(term_views(ts@)) == first_text_of(term_views(ts@).subrange(i as int, ts@.len() as int)),
            forall|k: int| 0 <= k < i ==> text_of(#[trigger] ts@[k]@) is None,
        decreases ts.len() - i,
    {
        let ghost rest = term_views(ts@).subrange(i as int, ts@.len() as int);
        assert(rest[0] == ts@[i as int]@);
        if let Some(s) = literal_value(&ts[i]) {
            return Some(s);
        }
        assert(rest.drop_first() =~= term_views(ts@).subrange(i + 1, ts@.len() as int));
        i = i + 1;
    }
    assert(term_views(ts@).subrange(i as int, ts@.len() as int).len() == 0);
    None
}

/// The text of the first term, or the empty string when there is none or
/// the first is a blank node.
pub fn first_text_or_empty(ts: &Vec<TermValue>) -> (r: String)
    ensures
        ts@.len() == 0 ==> r@ == Seq::<char>::empty(),
        ts@.len() > 0 ==> r@ == text_or_empty(ts@[0]@),
{
    if ts.len() == 0 {
        return String::new();
    }
    match literal_value(&ts[0]) {
        Some(s) => s,
        None => String::new(),
    }
}

/// The node a term names: an IRI or a blank node, never a literal.
pub fn node_value(t: &TermValue) -> (r: Option<NodeValue>)
    ensures
        match r {
            Some(n) => node_of(t@) == Some(n@),
            None => node_of(t@) is None,
        },
{
    match t {
        TermValue::Named(n) => Some(NodeValue::Named(n.clone())),
        TermValue::Blank(b) => Some(NodeValue::Blank(b.clone())),
        TermValue::Literal(..) => None,
    }
}

/// The first term that is an `xsd:integer` in canonical decimal form within
/// `u64`, read as a number.
pub fn first_integer(ts: &Vec<TermValue>, xsd_integer: &String) -> (r: Option<u64>)
    requires
        xsd_integer@ == xsd_integer_iri(),
    ensures
        r matches Some(k) ==> term_views(ts@).contains(integer(k as nat)),
        r is None ==> forall|k: u64| !term_views(ts@).contains(integer(k as nat)),
{
    let mut i: usize = 0;
    while i < ts.len()
        invariant
            i <= ts@.len(),
            xsd_integer@ == xsd_integer_iri(),
            forall|k: u64, m: int| 0 <= m < i ==> term_views(ts@)[m] != integer(k as nat),
        decreases ts.len() - i,
    {
        assert(term_views(ts@)[i as int] == ts@[i as int]@);
        if let TermValue::Literal(v, Some(dt), None) = &ts[i] {
            if *dt == *xsd_integer {
                if let Some(k) = parse_decimal(v.as_str()) {
                    assert(term_views(ts@)[i as int] == integer(k as nat));
                    return Some(k);
                }
            }
        }
        i = i + 1;
    }
    None
}

// ---------------------------------------------------------------------------
// What a read of the graph may answer.

/// `c` is a constraint node the read picks up: it has an integer order, a
/// left operand with text, an operator and a right operand.
pub open spec fn readable_constraint(g: Set<Triple>, c: Node) -> bool {
    &&& exists|k: u64| objects_of(g, c, ds_order()).contains(integer(k as nat))
    &&& exists|l: RdfTerm| objects_of(g, c, odrl_left_operand()).contains(l) && text_of(l) is Some
    &&& exists|x: RdfTerm| objects_of(g, c, odrl_operator()).contains(x)
    &&& exists|x: RdfTerm| objects_of(g, c, odrl_right_operand()).contains(x)
}

/// `out` is what the read of constraint node `c`, ordered at `k`, answers.
pub open spec fn constraint_read(g: Set<Triple>, c: Node, k: u64, out: ConstraintView) -> bool {
    &&& objects_of(g, c, ds_order()).contains(integer(k as nat))
    &&& exists|l: RdfTerm| objects_of(g, c, odrl_left_operand()).contains(l) && text_of(l) == Some(out.left_operand)
    &&& exists|x: RdfTerm| objects_of(g, c, odrl_operator()).contains(x) && text_or_empty(x) == out.operator
    &&& exists|x: RdfTerm| objects_of(g, c, odrl_right_operand()).contains(x) && text_or_empty(x) == out.right_operand
}

/// `p` is a permission node the read picks up: it has an integer order and
/// an action.
pub open spec fn readable_permission(g: Set<Triple>, p: Node) -> bool {
    &&& exists|k: u64| objects_of(g, p, ds_order()).contains(integer(k as nat))
    &&& exists|a: RdfTerm| objects_of(g, p, odrl_action()).contains(a)
}

/// The nodes an entry sequence lists, in order.
pub open spec fn entry_nodes(es: Seq<(u64, Node)>) -> Seq<Node> {
    es.map_values(|e: (u64, Node)| e.1)
}

/// The keys of an entry sequence never decrease.
pub open spec fn keys_sorted(es: Seq<(u64, Node)>) -> bool {
    forall|i: int, j: int| 0 <= i <= j < es.len() ==> #[trigger] es[i].0 <= #[trigger] es[j].0
}

/// `es` lists each node of `nodes` once, ordered by key.
pub open spec fn lists_sorted(es: Seq<(u64, Node)>, nodes: Set<Node>) -> bool {
    &&& keys_sorted(es)
    &&& entry_nodes(es).no_duplicates()
    &&& entry_nodes(es).to_set() == nodes
}

/// The constraint nodes of `p` the read picks up.
pub open spec fn constraint_nodes(g: Set<Triple>, p: Node) -> Set<Node> {
    Set::new(|c: Node| objects_of(g, p, odrl_constraint()).contains(node_term(c)) && readable_constraint(g, c))
}

/// `out` is what the read of permission node `p`, ordered at `k`, answers:
/// its action, and one constraint for each constraint node it picks up,
/// ordered by their `ds:order`.
pub open spec fn permission_read(g: Set<Triple>, p: Node, k: u64, out: PermissionView) -> bool {
    &&& objects_of(g, p, ds_order()).contains(integer(k as nat))
    &&& exists|a: RdfTerm| objects_of(g, p, odrl_action()).contains(a) && text_or_empty(a) == out.action
    &&& exists|es: Seq<(u64, Node)>| {
        &&& lists_sorted(es, constraint_nodes(g, p))
        &&& es.len() == out.constraints.len()
        &&& forall|i: int| 0 <= i < es.len() ==> constraint_read(g, #[trigger] es[i].1, es[i].0, out.constraints[i])
    }
}

/// The permission nodes of the policy of `dataset_id` the read picks up.
pub open spec fn permission_nodes(g: Set<Triple>, dataset_id: Seq<char>) -> Set<Node> {
    Set::new(|p: Node| objects_of(g, Node::Iri(policy_iri_of(dataset_id)), odrl_permission()).contains(node_term(p))
        && readable_permission(g, p))
}

/// The graph holds a policy header for `dataset_id`: a target and an
/// assigner.
pub open spec fn has_policy(g: Set<Triple>, dataset_id: Seq<char>) -> bool {
    let policy = Node::Iri(policy_iri_of(dataset_id));
    &&& exists|t: RdfTerm| objects_of(g, policy, odrl_target()).contains(t)
    &&& exists|a: RdfTerm| objects_of(g, policy, odrl_assigner()).contains(a)
}

/// `doc` is what a read of the policy of `dataset_id` answers: its IRI, a
/// target and an assigner the graph holds for it, and one permission for
/// each permission node it picks up, ordered by their `ds:order`.
pub open spec fn policy_read(g: Set<Triple>, dataset_id: Seq<char>, doc: PolicyView) -> bool {
    let policy = Node::Iri(policy_iri_of(dataset_id));
    &&& doc.context == ODRL_CONTEXT@
    &&& doc.id == policy_iri_of(dataset_id)
    &&& doc.policy_type == "Offer"@
    &&& exists|t: RdfTerm| objects_of(g, policy, odrl_target()).contains(t) && text_or_empty(t) == doc.target
    &&& exists|a: RdfTerm| objects_of(g, policy, odrl_assigner()).contains(a) && text_or_empty(a) == doc.assigner
    &&& exists|es: Seq<(u64, Node)>| {
        &&& lists_sorted(es, permission_nodes(g, dataset_id))
        &&& es.len() == doc.permissions.len()
        &&& forall|i: int| 0 <= i < es.len() ==> permission_read(g, #[trigger] es[i].1, es[i].0, doc.permissions[i])
    }
}

} // verus!
