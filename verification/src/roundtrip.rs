//! What a graph answers about a dataset right after that dataset's offer
//! was seeded into it: the read-back gives exactly what the offer says.

use vstd::prelude::*;
use crate::connector::offer_readable;
use crate::decimal::{dec, lemma_dec_injective};
use crate::handler::offers_file;
use crate::graph::{blank_offset, constraint_node, constraint_triples, dataset_iri_of, dcat_media_type, distribution_iri_of, ds_file_path, ds_order, header_triples, integer, labels_below, node_term, odrl_action, odrl_assigner, odrl_constraint, odrl_left_operand, odrl_operator, odrl_permission, odrl_right_operand, odrl_target, offer_triples, offer_triples_upto, permission_node, permission_triples, policy_iri_of, rdf_type, simple, triple, ConfigGraph};
use crate::offer::{OfferView, PermissionView};
use crate::policy::{constraint_nodes, constraint_read, entry_nodes, has_policy, keys_sorted, lists_sorted, permission_nodes, permission_read, policy_read, readable_constraint, readable_permission, text_of, text_or_empty, PolicyView};
use crate::rdf::{blank_label, objects_of, Node, RdfTerm, Triple};
use crate::vocab::{DCAT, DS, ODRL, RDF};

verus! {

proof fn lemma_differ_at(a: Seq<char>, b: Seq<char>, k: int)
    requires
        0 <= k < a.len(),
        0 <= k < b.len(),
        a[k] != b[k],
    ensures
        a != b,
{
}

/// Distinct numbers mint distinct blank node labels.
pub proof fn lemma_blank_label_injective(a: nat, b: nat)
    requires
        blank_label(a) == blank_label(b),
    ensures
        a == b,
{
    assert(blank_label(a).skip(1) =~= dec(a));
    assert(blank_label(b).skip(1) =~= dec(b));
    lemma_dec_injective(a, b);
}

/// The vocabulary IRIs that share a subject in an offer's triples are
/// pairwise distinct.
pub proof fn lemma_vocab_distinct()
    ensures
        rdf_type() != odrl_target(),
        rdf_type() != odrl_assigner(),
        rdf_type() != odrl_permission(),
        odrl_target() != odrl_assigner(),
        odrl_target() != odrl_permission(),
        odrl_assigner() != odrl_permission(),
        rdf_type() != ds_order(),
        rdf_type() != odrl_action(),
        rdf_type() != odrl_constraint(),
        ds_order() != odrl_action(),
        ds_order() != odrl_constraint(),
        odrl_action() != odrl_constraint(),
        ds_order() != odrl_left_operand(),
        ds_order() != odrl_operator(),
        ds_order() != odrl_right_operand(),
        odrl_left_operand() != odrl_operator(),
        odrl_left_operand() != odrl_right_operand(),
        odrl_operator() != odrl_right_operand(),
        rdf_type() != ds_file_path(),
        rdf_type() != dcat_media_type(),
        ds_file_path() != dcat_media_type(),
{
    reveal_strlit("http://www.w3.org/ns/dcat#");
    reveal_strlit("https://ds42.org/ontologies/ds-sql-dps-rs#");
    reveal_strlit("http://www.w3.org/ns/odrl/2/");
    reveal_strlit("http://www.w3.org/1999/02/22-rdf-syntax-ns#");
    reveal_strlit("type");
    reveal_strlit("target");
    reveal_strlit("assigner");
    reveal_strlit("permission");
    reveal_strlit("order");
    reveal_strlit("action");
    reveal_strlit("constraint");
    reveal_strlit("leftOperand");
    reveal_strlit("operator");
    reveal_strlit("rightOperand");
    reveal_strlit("filePath");
    reveal_strlit("mediaType");
    let o = ODRL@.len() as int;
    // RDF against ODRL and DCAT: position 18; DS against the http ones: position 4.
    lemma_differ_at(rdf_type(), odrl_target(), 18);
    lemma_differ_at(rdf_type(), odrl_assigner(), 18);
    lemma_differ_at(rdf_type(), odrl_permission(), 18);
    lemma_differ_at(rdf_type(), odrl_action(), 18);
    lemma_differ_at(rdf_type(), odrl_constraint(), 18);
    lemma_differ_at(rdf_type(), ds_order(), 4);
    lemma_differ_at(rdf_type(), ds_file_path(), 4);
    lemma_differ_at(rdf_type(), dcat_media_type(), 18);
    lemma_differ_at(ds_file_path(), dcat_media_type(), 4);
    lemma_differ_at(ds_order(), odrl_action(), 4);
    lemma_differ_at(ds_order(), odrl_constraint(), 4);
    lemma_differ_at(ds_order(), odrl_left_operand(), 4);
    lemma_differ_at(ds_order(), odrl_operator(), 4);
    lemma_differ_at(ds_order(), odrl_right_operand(), 4);
    lemma_differ_at(odrl_target(), odrl_assigner(), o);
    lemma_differ_at(odrl_target(), odrl_permission(), o);
    lemma_differ_at(odrl_assigner(), odrl_permission(), o);
    lemma_differ_at(odrl_action(), odrl_constraint(), o);
    lemma_differ_at(odrl_left_operand(), odrl_operator(), o);
    lemma_differ_at(odrl_left_operand(), odrl_right_operand(), o);
    lemma_differ_at(odrl_operator(), odrl_right_operand(), o);
}

proof fn lemma_offset_gap(ps: Seq<PermissionView>, i: int, k: int)
    requires
        0 <= i < k <= ps.len(),
    ensures
        blank_offset(ps, i) + 1 + ps[i].constraints.len() <= blank_offset(ps, k),
    decreases k - i,
{
    if k == i + 1 {
    } else {
        lemma_offset_gap(ps, i, k - 1);
        assert(blank_offset(ps, k) == blank_offset(ps, k - 1) + 1 + ps[k - 1].constraints.len());
    }
}

proof fn lemma_offset_ge_index(ps: Seq<PermissionView>, i: int)
    requires
        0 <= i <= ps.len(),
    ensures
        blank_offset(ps, i) >= i,
    decreases i,
{
    if i > 0 {
        lemma_offset_ge_index(ps, i - 1);
    }
}

/// A constraint position `j` of permission `i` exists in the offer.
pub open spec fn constraint_pos(o: OfferView, i: int, j: int) -> bool {
    0 <= i < o.permissions.len() && 0 <= j < o.permissions[i].constraints.len()
}

/// The blank nodes of an offer are pairwise distinct and numbered from
/// `base` on.
proof fn lemma_nodes_distinct(o: OfferView, base: nat)
    ensures
        forall|i: int, k: int| 0 <= i < o.permissions.len() && 0 <= k < o.permissions.len() && i != k ==>
            #[trigger] permission_node(o, base, i) != #[trigger] permission_node(o, base, k),
        forall|i: int, k: int, j: int| 0 <= i < o.permissions.len() && constraint_pos(o, k, j) ==>
            #[trigger] permission_node(o, base, i) != #[trigger] constraint_node(o, base, k, j),
        forall|i: int, j: int, k: int, l: int| constraint_pos(o, i, j) && constraint_pos(o, k, l) && (i != k || j != l) ==>
            #[trigger] constraint_node(o, base, i, j) != #[trigger] constraint_node(o, base, k, l),
{
    let ps = o.permissions;
    assert forall|i: int, k: int| 0 <= i < ps.len() && 0 <= k < ps.len() && i != k implies
        #[trigger] permission_node(o, base, i) != #[trigger] permission_node(o, base, k) by {
        if permission_node(o, base, i) == permission_node(o, base, k) {
            lemma_blank_label_injective(base + blank_offset(ps, i), base + blank_offset(ps, k));
            if i < k { lemma_offset_gap(ps, i, k); } else { lemma_offset_gap(ps, k, i); }
        }
    }
    assert forall|i: int, k: int, j: int| 0 <= i < ps.len() && constraint_pos(o, k, j) implies
        #[trigger] permission_node(o, base, i) != #[trigger] constraint_node(o, base, k, j) by {
        if permission_node(o, base, i) == constraint_node(o, base, k, j) {
            lemma_blank_label_injective(base + blank_offset(ps, i), (base + blank_offset(ps, k) + 1 + j) as nat);
            if i <= k {
                if i < k { lemma_offset_gap(ps, i, k); }
            } else {
                lemma_offset_gap(ps, k, i);
            }
        }
    }
    assert forall|i: int, j: int, k: int, l: int| constraint_pos(o, i, j) && constraint_pos(o, k, l) && (i != k || j != l)
        implies #[trigger] constraint_node(o, base, i, j) != #[trigger] constraint_node(o, base, k, l) by {
        if constraint_node(o, base, i, j) == constraint_node(o, base, k, l) {
            lemma_blank_label_injective((base + blank_offset(ps, i) + 1 + j) as nat, (base + blank_offset(ps, k) + 1 + l) as nat);
            if i < k { lemma_offset_gap(ps, i, k); } else if k < i { lemma_offset_gap(ps, k, i); }
        }
    }
}

/// The graph holds nothing a read of the dataset asks for: no file path or
/// media type of its distribution, and no target, assigner or permission of
/// its policy.
pub open spec fn untouched(g: Set<Triple>, dataset_id: Seq<char>) -> bool {
    forall|t: Triple| #[trigger] g.contains(t) ==> {
        &&& t.subject == Node::Iri(distribution_iri_of(dataset_id))
            ==> t.predicate != ds_file_path() && t.predicate != dcat_media_type()
        &&& t.subject == Node::Iri(policy_iri_of(dataset_id))
            ==> t.predicate != odrl_target() && t.predicate != odrl_assigner() && t.predicate != odrl_permission()
    }
}

/// Every blank node of the graph was minted below `n`.
pub open spec fn minted_below(g: Set<Triple>, n: nat) -> bool {
    forall|t: Triple| #[trigger] g.contains(t) ==> labels_below(t, n)
}

proof fn lemma_fresh_blank(g: Set<Triple>, n: nat, k: nat, t: Triple)
    requires
        minted_below(g, n),
        n <= k,
        g.contains(t),
    ensures
        t.subject != Node::Bnode(blank_label(k)),
        t.object != RdfTerm::Bnode(blank_label(k)),
{
    if t.subject == Node::Bnode(blank_label(k)) {
        let m = choose|m: nat| m < n && blank_label(k) == blank_label(m);
        lemma_blank_label_injective(k, m);
    }
    if t.object == RdfTerm::Bnode(blank_label(k)) {
        let m = choose|m: nat| m < n && blank_label(k) == blank_label(m);
        lemma_blank_label_injective(k, m);
    }
}

proof fn lemma_iris_distinct(d: Seq<char>)
    ensures
        dataset_iri_of(d) != distribution_iri_of(d),
        dataset_iri_of(d) != policy_iri_of(d),
        distribution_iri_of(d) != policy_iri_of(d),
{
    reveal_strlit("#distribution");
    reveal_strlit("#policy");
    assert(distribution_iri_of(d).len() != policy_iri_of(d).len());
    assert(dataset_iri_of(d).len() != policy_iri_of(d).len());
    assert(dataset_iri_of(d).len() != distribution_iri_of(d).len());
}

/// `after` is `before` with the offer's triples added, `before` holding
/// nothing about the offer's dataset and no blank node numbered `base` or
/// above.
pub open spec fn seeded_into(before: Set<Triple>, after: Set<Triple>, o: OfferView, base: nat) -> bool {
    &&& minted_below(before, base)
    &&& untouched(before, o.dataset_id)
    &&& after == before.union(offer_triples(o, base))
}

/// The triples of the offer whose subject is the policy.
proof fn lemma_policy_subject(before: Set<Triple>, after: Set<Triple>, o: OfferView, base: nat, t: Triple)
    requires
        seeded_into(before, after, o, base),
        after.contains(t),
        t.subject == Node::Iri(policy_iri_of(o.dataset_id)),
        t.predicate == odrl_target() || t.predicate == odrl_assigner() || t.predicate == odrl_permission(),
    ensures
        t == triple(Node::Iri(policy_iri_of(o.dataset_id)), rdf_type(), RdfTerm::Iri(crate::graph::odrl_offer()))
        || t == triple(Node::Iri(policy_iri_of(o.dataset_id)), odrl_target(), RdfTerm::Iri(dataset_iri_of(o.dataset_id)))
        || t == triple(Node::Iri(policy_iri_of(o.dataset_id)), odrl_assigner(), simple(o.assigner))
        || exists|i: int| 0 <= i < o.permissions.len() && t == triple(Node::Iri(policy_iri_of(o.dataset_id)),
            odrl_permission(), node_term(#[trigger] permission_node(o, base, i))),
{
    lemma_iris_distinct(o.dataset_id);
    assert(!before.contains(t));
    let n = o.permissions.len() as int;
    assert(offer_triples_upto(o, base, n).contains(t));
    if header_triples(o).contains(t) {
    } else if exists|k: int| 0 <= k < n && #[trigger] permission_triples(o, base, k).contains(t) {
        let k = choose|k: int| 0 <= k < n && #[trigger] permission_triples(o, base, k).contains(t);
        assert(t == triple(Node::Iri(policy_iri_of(o.dataset_id)), odrl_permission(), node_term(permission_node(o, base, k))));
    } else {
        let (k, j) = choose|k: int, j: int| 0 <= k < n && 0 <= j < o.permissions[k].constraints.len()
            && #[trigger] constraint_triples(o, base, k, j).contains(t);
        assert(false);
    }
}

/// The triples of the offer whose subject is the distribution.
proof fn lemma_distribution_subject(before: Set<Triple>, after: Set<Triple>, o: OfferView, base: nat, t: Triple)
    requires
        seeded_into(before, after, o, base),
        after.contains(t),
        t.subject == Node::Iri(distribution_iri_of(o.dataset_id)),
        t.predicate == ds_file_path() || t.predicate == dcat_media_type(),
    ensures
        t == triple(Node::Iri(distribution_iri_of(o.dataset_id)), rdf_type(), RdfTerm::Iri(crate::graph::dcat_distribution_class()))
        || t == triple(Node::Iri(distribution_iri_of(o.dataset_id)), ds_file_path(), simple(o.file_path))
        || t == triple(Node::Iri(distribution_iri_of(o.dataset_id)), dcat_media_type(), simple(o.media_type)),
{
    lemma_iris_distinct(o.dataset_id);
    assert(!before.contains(t));
    let n = o.permissions.len() as int;
    assert(offer_triples_upto(o, base, n).contains(t));
    if header_triples(o).contains(t) {
    } else if exists|k: int| 0 <= k < n && #[trigger] permission_triples(o, base, k).contains(t) {
        let k = choose|k: int| 0 <= k < n && #[trigger] permission_triples(o, base, k).contains(t);
        assert(false);
    } else {
        let (k, j) = choose|k: int, j: int| 0 <= k < n && 0 <= j < o.permissions[k].constraints.len()
            && #[trigger] constraint_triples(o, base, k, j).contains(t);
        assert(false);
    }
}

/// The triples of the offer whose subject is the `i`-th permission node.
proof fn lemma_permission_subject(before: Set<Triple>, after: Set<Triple>, o: OfferView, base: nat, i: int, t: Triple)
    requires
        seeded_into(before, after, o, base),
        0 <= i < o.permissions.len(),
        after.contains(t),
        t.subject == permission_node(o, base, i),
    ensures
        t == triple(permission_node(o, base, i), rdf_type(), RdfTerm::Iri(crate::graph::odrl_permission_class()))
        || t == triple(permission_node(o, base, i), ds_order(), integer(i as nat))
        || t == triple(permission_node(o, base, i), odrl_action(), simple(o.permissions[i].action))
        || exists|j: int| 0 <= j < o.permissions[i].constraints.len() && t == triple(permission_node(o, base, i),
            odrl_constraint(), node_term(#[trigger] constraint_node(o, base, i, j))),
{
    lemma_nodes_distinct(o, base);
    let ps = o.permissions;
    let n = ps.len() as int;
    lemma_offset_gap(ps, i, n);
    if before.contains(t) {
        lemma_fresh_blank(before, base, base + blank_offset(ps, i), t);
    }
    assert(!before.contains(t));
    assert(offer_triples_upto(o, base, n).contains(t));
    if header_triples(o).contains(t) {
        assert(false);
    } else if exists|k: int| 0 <= k < n && #[trigger] permission_triples(o, base, k).contains(t) {
        let k = choose|k: int| 0 <= k < n && #[trigger] permission_triples(o, base, k).contains(t);
        if k != i {
            assert(permission_node(o, base, i) != permission_node(o, base, k));
            assert(false);
        }
    } else {
        let (k, j) = choose|k: int, j: int| 0 <= k < n && 0 <= j < ps[k].constraints.len()
            && #[trigger] constraint_triples(o, base, k, j).contains(t);
        assert(constraint_pos(o, k, j));
        assert(permission_node(o, base, i) != constraint_node(o, base, k, j));
        if k != i {
            assert(permission_node(o, base, i) != permission_node(o, base, k));
            assert(false);
        }
        assert(t == triple(permission_node(o, base, i), odrl_constraint(), node_term(constraint_node(o, base, i, j))));
    }
}

/// The triples of the offer whose subject is the `j`-th constraint node of
/// the `i`-th permission.
proof fn lemma_constraint_subject(before: Set<Triple>, after: Set<Triple>, o: OfferView, base: nat, i: int, j: int, t: Triple)
    requires
        seeded_into(before, after, o, base),
        constraint_pos(o, i, j),
        after.contains(t),
        t.subject == constraint_node(o, base, i, j),
    ensures
        t == triple(constraint_node(o, base, i, j), ds_order(), integer(j as nat))
        || t == triple(constraint_node(o, base, i, j), odrl_left_operand(), simple(o.permissions[i].constraints[j].left_operand))
        || t == triple(constraint_node(o, base, i, j), odrl_operator(), simple(o.permissions[i].constraints[j].operator))
        || t == triple(constraint_node(o, base, i, j), odrl_right_operand(), simple(o.permissions[i].constraints[j].right_operand)),
{
    lemma_nodes_distinct(o, base);
    let ps = o.permissions;
    let n = ps.len() as int;
    if before.contains(t) {
        lemma_fresh_blank(before, base, (base + blank_offset(ps, i) + 1 + j) as nat, t);
    }
    assert(!before.contains(t));
    assert(offer_triples_upto(o, base, n).contains(t));
    if header_triples(o).contains(t) {
        assert(false);
    } else if exists|k: int| 0 <= k < n && #[trigger] permission_triples(o, base, k).contains(t) {
        let k = choose|k: int| 0 <= k < n && #[trigger] permission_triples(o, base, k).contains(t);
        assert(permission_node(o, base, k) != constraint_node(o, base, i, j));
        assert(false);
    } else {
        let (k, l) = choose|k: int, l: int| 0 <= k < n && 0 <= l < ps[k].constraints.len()
            && #[trigger] constraint_triples(o, base, k, l).contains(t);
        assert(constraint_pos(o, k, l));
        assert(permission_node(o, base, k) != constraint_node(o, base, i, j));
        if k != i || l != j {
            assert(constraint_node(o, base, k, l) != constraint_node(o, base, i, j));
            assert(false);
        }
    }
}

proof fn lemma_header_in(before: Set<Triple>, after: Set<Triple>, o: OfferView, base: nat, t: Triple)
    requires
        seeded_into(before, after, o, base),
        header_triples(o).contains(t),
    ensures
        after.contains(t),
{
    assert(offer_triples_upto(o, base, o.permissions.len() as int).contains(t));
}

proof fn lemma_permission_in(before: Set<Triple>, after: Set<Triple>, o: OfferView, base: nat, i: int, t: Triple)
    requires
        seeded_into(before, after, o, base),
        0 <= i < o.permissions.len(),
        permission_triples(o, base, i).contains(t),
    ensures
        after.contains(t),
{
    assert(offer_triples_upto(o, base, o.permissions.len() as int).contains(t));
}

proof fn lemma_constraint_in(before: Set<Triple>, after: Set<Triple>, o: OfferView, base: nat, i: int, j: int, t: Triple)
    requires
        seeded_into(before, after, o, base),
        constraint_pos(o, i, j),
        constraint_triples(o, base, i, j).contains(t),
    ensures
        after.contains(t),
{
    assert(offer_triples_upto(o, base, o.permissions.len() as int).contains(t));
}

/// The permission nodes of the offer, as terms.
pub open spec fn permission_terms(o: OfferView, base: nat) -> Set<RdfTerm> {
    Set::new(|x: RdfTerm| exists|i: int| 0 <= i < o.permissions.len() && x == node_term(#[trigger] permission_node(o, base, i)))
}

/// The constraint nodes of the `i`-th permission, as terms.
pub open spec fn constraint_terms(o: OfferView, base: nat, i: int) -> Set<RdfTerm> {
    Set::new(|x: RdfTerm| exists|j: int| 0 <= j < o.permissions[i].constraints.len()
        && x == node_term(#[trigger] constraint_node(o, base, i, j)))
}

/// What the policy node and the distribution node hold once seeded.
proof fn lemma_policy_objects(before: Set<Triple>, after: Set<Triple>, o: OfferView, base: nat)
    requires
        seeded_into(before, after, o, base),
    ensures
        objects_of(after, Node::Iri(policy_iri_of(o.dataset_id)), odrl_target()) == set![RdfTerm::Iri(dataset_iri_of(o.dataset_id))],
        objects_of(after, Node::Iri(policy_iri_of(o.dataset_id)), odrl_assigner()) == set![simple(o.assigner)],
        objects_of(after, Node::Iri(policy_iri_of(o.dataset_id)), odrl_permission()) == permission_terms(o, base),
        objects_of(after, Node::Iri(distribution_iri_of(o.dataset_id)), ds_file_path()) == set![simple(o.file_path)],
        objects_of(after, Node::Iri(distribution_iri_of(o.dataset_id)), dcat_media_type()) == set![simple(o.media_type)],
{
    lemma_vocab_distinct();
    let pol = Node::Iri(policy_iri_of(o.dataset_id));
    let dist = Node::Iri(distribution_iri_of(o.dataset_id));
    let a = objects_of(after, pol, odrl_target());
    assert forall|x: RdfTerm| a.contains(x) <==> x == RdfTerm::Iri(dataset_iri_of(o.dataset_id)) by {
        if a.contains(x) {
            lemma_policy_subject(before, after, o, base, triple(pol, odrl_target(), x));
        }
        if x == RdfTerm::Iri(dataset_iri_of(o.dataset_id)) {
            lemma_header_in(before, after, o, base, triple(pol, odrl_target(), x));
        }
    }
    assert(a =~= set![RdfTerm::Iri(dataset_iri_of(o.dataset_id))]);
    let b = objects_of(after, pol, odrl_assigner());
    assert forall|x: RdfTerm| b.contains(x) <==> x == simple(o.assigner) by {
        if b.contains(x) {
            lemma_policy_subject(before, after, o, base, triple(pol, odrl_assigner(), x));
        }
        if x == simple(o.assigner) {
            lemma_header_in(before, after, o, base, triple(pol, odrl_assigner(), x));
        }
    }
    assert(b =~= set![simple(o.assigner)]);
    let c = objects_of(after, pol, odrl_permission());
    assert forall|x: RdfTerm| c.contains(x) <==> permission_terms(o, base).contains(x) by {
        if c.contains(x) {
            lemma_policy_subject(before, after, o, base, triple(pol, odrl_permission(), x));
        }
        if permission_terms(o, base).contains(x) {
            let i = choose|i: int| 0 <= i < o.permissions.len() && x == node_term(#[trigger] permission_node(o, base, i));
            lemma_permission_in(before, after, o, base, i, triple(pol, odrl_permission(), x));
        }
    }
    assert(c =~= permission_terms(o, base));
    let d = objects_of(after, dist, ds_file_path());
    assert forall|x: RdfTerm| d.contains(x) <==> x == simple(o.file_path) by {
        if d.contains(x) {
            lemma_distribution_subject(before, after, o, base, triple(dist, ds_file_path(), x));
        }
        if x == simple(o.file_path) {
            lemma_header_in(before, after, o, base, triple(dist, ds_file_path(), x));
        }
    }
    assert(d =~= set![simple(o.file_path)]);
    let e = objects_of(after, dist, dcat_media_type());
    assert forall|x: RdfTerm| e.contains(x) <==> x == simple(o.media_type) by {
        if e.contains(x) {
            lemma_distribution_subject(before, after, o, base, triple(dist, dcat_media_type(), x));
        }
        if x == simple(o.media_type) {
            lemma_header_in(before, after, o, base, triple(dist, dcat_media_type(), x));
        }
    }
    assert(e =~= set![simple(o.media_type)]);
}

/// What the `i`-th permission node holds once seeded.
proof fn lemma_permission_objects(before: Set<Triple>, after: Set<Triple>, o: OfferView, base: nat, i: int)
    requires
        seeded_into(before, after, o, base),
        0 <= i < o.permissions.len(),
    ensures
        objects_of(after, permission_node(o, base, i), ds_order()) == set![integer(i as nat)],
        objects_of(after, permission_node(o, base, i), odrl_action()) == set![simple(o.permissions[i].action)],
        objects_of(after, permission_node(o, base, i), odrl_constraint()) == constraint_terms(o, base, i),
{
    lemma_vocab_distinct();
    let p = permission_node(o, base, i);
    let a = objects_of(after, p, ds_order());
    assert forall|x: RdfTerm| a.contains(x) <==> x == integer(i as nat) by {
        if a.contains(x) {
            lemma_permission_subject(before, after, o, base, i, triple(p, ds_order(), x));
        }
        if x == integer(i as nat) {
            lemma_permission_in(before, after, o, base, i, triple(p, ds_order(), x));
        }
    }
    assert(a =~= set![integer(i as nat)]);
    let b = objects_of(after, p, odrl_action());
    assert forall|x: RdfTerm| b.contains(x) <==> x == simple(o.permissions[i].action) by {
        if b.contains(x) {
            lemma_permission_subject(before, after, o, base, i, triple(p, odrl_action(), x));
        }
        if x == simple(o.permissions[i].action) {
            lemma_permission_in(before, after, o, base, i, triple(p, odrl_action(), x));
        }
    }
    assert(b =~= set![simple(o.permissions[i].action)]);
    let c = objects_of(after, p, odrl_constraint());
    assert forall|x: RdfTerm| c.contains(x) <==> constraint_terms(o, base, i).contains(x) by {
        if c.contains(x) {
            lemma_permission_subject(before, after, o, base, i, triple(p, odrl_constraint(), x));
        }
        if constraint_terms(o, base, i).contains(x) {
            let j = choose|j: int| 0 <= j < o.permissions[i].constraints.len()
                && x == node_term(#[trigger] constraint_node(o, base, i, j));
            lemma_constraint_in(before, after, o, base, i, j, triple(p, odrl_constraint(), x));
        }
    }
    assert(c =~= constraint_terms(o, base, i));
}

/// What the `j`-th constraint node of the `i`-th permission holds once
/// seeded.
proof fn lemma_constraint_objects(before: Set<Triple>, after: Set<Triple>, o: OfferView, base: nat, i: int, j: int)
    requires
        seeded_into(before, after, o, base),
        constraint_pos(o, i, j),
    ensures
        objects_of(after, constraint_node(o, base, i, j), ds_order()) == set![integer(j as nat)],
        objects_of(after, constraint_node(o, base, i, j), odrl_left_operand())
            == set![simple(o.permissions[i].constraints[j].left_operand)],
        objects_of(after, constraint_node(o, base, i, j), odrl_operator())
            == set![simple(o.permissions[i].constraints[j].operator)],
        objects_of(after, constraint_node(o, base, i, j), odrl_right_operand())
            == set![simple(o.permissions[i].constraints[j].right_operand)],
{
    lemma_vocab_distinct();
    let c = constraint_node(o, base, i, j);
    let k = o.permissions[i].constraints[j];
    let a = objects_of(after, c, ds_order());
    assert forall|x: RdfTerm| a.contains(x) <==> x == integer(j as nat) by {
        if a.contains(x) {
            lemma_constraint_subject(before, after, o, base, i, j, triple(c, ds_order(), x));
        }
        if x == integer(j as nat) {
            lemma_constraint_in(before, after, o, base, i, j, triple(c, ds_order(), x));
        }
    }
    assert(a =~= set![integer(j as nat)]);
    let b = objects_of(after, c, odrl_left_operand());
    assert forall|x: RdfTerm| b.contains(x) <==> x == simple(k.left_operand) by {
        if b.contains(x) {
            lemma_constraint_subject(before, after, o, base, i, j, triple(c, odrl_left_operand(), x));
        }
        if x == simple(k.left_operand) {
            lemma_constraint_in(before, after, o, base, i, j, triple(c, odrl_left_operand(), x));
        }
    }
    assert(b =~= set![simple(k.left_operand)]);
    let d = objects_of(after, c, odrl_operator());
    assert forall|x: RdfTerm| d.contains(x) <==> x == simple(k.operator) by {
        if d.contains(x) {
            lemma_constraint_subject(before, after, o, base, i, j, triple(c, odrl_operator(), x));
        }
        if x == simple(k.operator) {
            lemma_constraint_in(before, after, o, base, i, j, triple(c, odrl_operator(), x));
        }
    }
    assert(d =~= set![simple(k.operator)]);
    let e = objects_of(after, c, odrl_right_operand());
    assert forall|x: RdfTerm| e.contains(x) <==> x == simple(k.right_operand) by {
        if e.contains(x) {
            lemma_constraint_subject(before, after, o, base, i, j, triple(c, odrl_right_operand(), x));
        }
        if x == simple(k.right_operand) {
            lemma_constraint_in(before, after, o, base, i, j, triple(c, odrl_right_operand(), x));
        }
    }
    assert(e =~= set![simple(k.right_operand)]);
}

/// A strictly increasing sequence of `n` numbers below `n` is `0, 1, ..`.
proof fn lemma_strict_range(ks: Seq<int>)
    requires
        forall|a: int, b: int| 0 <= a < b < ks.len() ==> ks[a] < ks[b],
        forall|m: int| 0 <= m < ks.len() ==> 0 <= #[trigger] ks[m] < ks.len(),
    ensures
        forall|m: int| 0 <= m < ks.len() ==> #[trigger] ks[m] == m,
{
    let n = ks.len() as int;
    assert forall|m: int| 0 <= m < n implies ks[m] >= m by {
        lemma_strict_lower(ks, m);
    }
    assert forall|m: int| 0 <= m < n implies ks[m] <= m by {
        lemma_strict_upper(ks, m);
    }
}

proof fn lemma_strict_lower(ks: Seq<int>, m: int)
    requires
        0 <= m < ks.len(),
        forall|a: int, b: int| 0 <= a < b < ks.len() ==> ks[a] < ks[b],
        forall|i: int| 0 <= i < ks.len() ==> 0 <= #[trigger] ks[i] < ks.len(),
    ensures
        ks[m] >= m,
    decreases m,
{
    if m > 0 {
        lemma_strict_lower(ks, m - 1);
    }
}

proof fn lemma_strict_upper(ks: Seq<int>, m: int)
    requires
        0 <= m < ks.len(),
        forall|a: int, b: int| 0 <= a < b < ks.len() ==> ks[a] < ks[b],
        forall|i: int| 0 <= i < ks.len() ==> 0 <= #[trigger] ks[i] < ks.len(),
    ensures
        ks[m] <= m,
    decreases ks.len() - m,
{
    if m < ks.len() - 1 {
        lemma_strict_upper(ks, m + 1);
    }
}

/// A listing of the nodes `nodes`, ordered by key, where every node's key is
/// its position in `nodes`, is `nodes` itself with keys `0, 1, ..`.
proof fn lemma_listing_identity(es: Seq<(u64, Node)>, nodes: Seq<Node>)
    requires
        keys_sorted(es),
        entry_nodes(es).no_duplicates(),
        entry_nodes(es).to_set() == nodes.to_set(),
        nodes.no_duplicates(),
        forall|m: int| 0 <= m < es.len() ==> (#[trigger] es[m]).0 < nodes.len() && es[m].1 == nodes[es[m].0 as int],
    ensures
        es.len() == nodes.len(),
        forall|m: int| 0 <= m < es.len() ==> (#[trigger] es[m]).0 == m && es[m].1 == nodes[m],
{
    entry_nodes(es).unique_seq_to_set();
    nodes.unique_seq_to_set();
    let ks = Seq::new(es.len(), |m: int| es[m].0 as int);
    assert forall|a: int, b: int| 0 <= a < b < ks.len() implies ks[a] < ks[b] by {
        assert(es[a].0 <= es[b].0);
        if es[a].0 == es[b].0 {
            assert(entry_nodes(es)[a] == entry_nodes(es)[b]);
        }
    }
    lemma_strict_range(ks);
    assert forall|m: int| 0 <= m < es.len() implies (#[trigger] es[m]).0 == m && es[m].1 == nodes[m] by {
        assert(ks[m] == m);
    }
}

proof fn lemma_integer_injective(a: nat, b: nat)
    requires
        integer(a) == integer(b),
    ensures
        a == b,
{
    lemma_dec_injective(a, b);
}

pub open spec fn permission_node_seq(o: OfferView, base: nat) -> Seq<Node> {
    Seq::new(o.permissions.len(), |i: int| permission_node(o, base, i))
}

pub open spec fn constraint_node_seq(o: OfferView, base: nat, i: int) -> Seq<Node> {
    Seq::new(o.permissions[i].constraints.len(), |j: int| constraint_node(o, base, i, j))
}

/// The constraints of the `i`-th permission read back as written.
proof fn lemma_constraints_read_back(before: Set<Triple>, after: Set<Triple>, o: OfferView, base: nat, i: int,
    out: PermissionView)
    requires
        seeded_into(before, after, o, base),
        0 <= i < o.permissions.len(),
        base + blank_offset(o.permissions, o.permissions.len() as int) <= u64::MAX,
        permission_read(after, permission_node(o, base, i), i as u64, out),
    ensures
        out.action == o.permissions[i].action,
        out.constraints =~~= o.permissions[i].constraints,
{
    let p = permission_node(o, base, i);
    let ps = o.permissions;
    lemma_permission_objects(before, after, o, base, i);
    lemma_nodes_distinct(o, base);
    lemma_offset_gap(ps, i, ps.len() as int);
    let a = choose|a: RdfTerm| objects_of(after, p, odrl_action()).contains(a) && text_or_empty(a) == out.action;
    assert(a == simple(ps[i].action));
    let es = choose|es: Seq<(u64, Node)>| {
        &&& lists_sorted(es, constraint_nodes(after, p))
        &&& es.len() == out.constraints.len()
        &&& forall|m: int| 0 <= m < es.len() ==> constraint_read(after, #[trigger] es[m].1, es[m].0, out.constraints[m])
    };
    let cs = constraint_node_seq(o, base, i);
    let len = ps[i].constraints.len() as int;
    assert forall|j: int| 0 <= j < len implies readable_constraint(after, #[trigger] constraint_node(o, base, i, j)) by {
        assert(constraint_pos(o, i, j));
        lemma_constraint_objects(before, after, o, base, i, j);
        let c = constraint_node(o, base, i, j);
        assert(j as u64 as nat == j);
        assert(objects_of(after, c, ds_order()).contains(integer(j as u64 as nat)));
        assert(objects_of(after, c, odrl_left_operand()).contains(simple(ps[i].constraints[j].left_operand)));
        assert(objects_of(after, c, odrl_operator()).contains(simple(ps[i].constraints[j].operator)));
        assert(objects_of(after, c, odrl_right_operand()).contains(simple(ps[i].constraints[j].right_operand)));
    }
    assert forall|c: Node| constraint_nodes(after, p).contains(c) <==> cs.to_set().contains(c) by {
        if constraint_nodes(after, p).contains(c) {
            assert(constraint_terms(o, base, i).contains(node_term(c)));
            let j = choose|j: int| 0 <= j < len && node_term(c) == node_term(#[trigger] constraint_node(o, base, i, j));
            assert(cs[j] == c);
        }
        if cs.to_set().contains(c) {
            let j = choose|j: int| 0 <= j < cs.len() && cs[j] == c;
            assert(c == constraint_node(o, base, i, j));
            assert(constraint_terms(o, base, i).contains(node_term(c)));
        }
    }
    assert(constraint_nodes(after, p) =~= cs.to_set());
    assert(cs.no_duplicates()) by {
        assert forall|x: int, y: int| 0 <= x < cs.len() && 0 <= y < cs.len() && x != y implies cs[x] != cs[y] by {
            assert(constraint_pos(o, i, x) && constraint_pos(o, i, y));
        }
    }
    assert forall|m: int| 0 <= m < es.len() implies (#[trigger] es[m]).0 < cs.len() && es[m].1 == cs[es[m].0 as int] by {
        assert(entry_nodes(es)[m] == es[m].1);
        assert(cs.to_set().contains(es[m].1));
        let j = choose|j: int| 0 <= j < cs.len() && cs[j] == es[m].1;
        assert(constraint_pos(o, i, j));
        lemma_constraint_objects(before, after, o, base, i, j);
        assert(constraint_read(after, es[m].1, es[m].0, out.constraints[m]));
        lemma_integer_injective(es[m].0 as nat, j as nat);
    }
    lemma_listing_identity(es, cs);
    assert forall|j: int| 0 <= j < len implies out.constraints[j] == ps[i].constraints[j] by {
        assert(constraint_pos(o, i, j));
        lemma_constraint_objects(before, after, o, base, i, j);
        assert(es[j].1 == cs[j]);
        assert(constraint_read(after, es[j].1, es[j].0, out.constraints[j]));
        let c = constraint_node(o, base, i, j);
        let k = ps[i].constraints[j];
        let l = choose|l: RdfTerm| objects_of(after, c, odrl_left_operand()).contains(l) && text_of(l) == Some(out.constraints[j].left_operand);
        assert(l == simple(k.left_operand));
        let x = choose|x: RdfTerm| objects_of(after, c, odrl_operator()).contains(x) && text_or_empty(x) == out.constraints[j].operator;
        assert(x == simple(k.operator));
        let y = choose|y: RdfTerm| objects_of(after, c, odrl_right_operand()).contains(y) && text_or_empty(y) == out.constraints[j].right_operand;
        assert(y == simple(k.right_operand));
    }
}

/// Seeding an offer into a graph that held nothing a read of its dataset
/// asks for (no file path or media type of its distribution, no target,
/// assigner or permission of its policy) makes
/// the graph answer exactly what the offer says: the policy header names
/// the dataset as target and the offer's assigner, every read of the policy
/// lists the offer's permissions with their constraints, each in the order
/// written, and the distribution holds the offer's file path and media type
/// as its only values. So every read of the dataset (file path, media type,
/// policy, the connector's document) succeeds.
pub proof fn law_seeded_offer_reads_back(before: ConfigGraph, after: ConfigGraph, offer: OfferView)
    requires
        before.wf(),
        untouched(before.triples(), offer.dataset_id),
        before.minted() + crate::graph::offer_blank_count(offer) <= u64::MAX,
        after.triples() == before.triples().union(offer_triples(offer, before.minted())),
    ensures
        has_policy(after.triples(), offer.dataset_id),
        forall|doc: PolicyView| #[trigger] policy_read(after.triples(), offer.dataset_id, doc) ==> {
            &&& doc.target == dataset_iri_of(offer.dataset_id)
            &&& doc.assigner == offer.assigner
            &&& doc.permissions =~~= offer.permissions
        },
        objects_of(after.triples(), Node::Iri(distribution_iri_of(offer.dataset_id)), ds_file_path())
            == set![simple(offer.file_path)],
        objects_of(after.triples(), Node::Iri(distribution_iri_of(offer.dataset_id)), dcat_media_type())
            == set![simple(offer.media_type)],
        offers_file(after.triples(), offer.dataset_id),
        offer_readable(&after, offer.dataset_id),
{
    let o = offer;
    let base = before.minted();
    let g0 = before.triples();
    let g = after.triples();
    assert(seeded_into(g0, g, o, base));
    lemma_policy_objects(g0, g, o, base);
    let pol = Node::Iri(policy_iri_of(o.dataset_id));
    assert(objects_of(g, pol, odrl_target()).contains(RdfTerm::Iri(dataset_iri_of(o.dataset_id))));
    assert(objects_of(g, pol, odrl_assigner()).contains(simple(o.assigner)));
    let ps = o.permissions;
    let n = ps.len() as int;
    let nodes = permission_node_seq(o, base);
    lemma_nodes_distinct(o, base);
    assert forall|i: int| 0 <= i < n implies readable_permission(g, #[trigger] permission_node(o, base, i)) by {
        lemma_permission_objects(g0, g, o, base, i);
        lemma_offset_gap(ps, i, n);
        lemma_offset_ge_index(ps, i);
        assert(i as u64 as nat == i);
        assert(objects_of(g, permission_node(o, base, i), ds_order()).contains(integer(i as u64 as nat)));
        assert(objects_of(g, permission_node(o, base, i), odrl_action()).contains(simple(ps[i].action)));
    }
    assert forall|c: Node| permission_nodes(g, o.dataset_id).contains(c) <==> nodes.to_set().contains(c) by {
        if permission_nodes(g, o.dataset_id).contains(c) {
            assert(permission_terms(o, base).contains(node_term(c)));
            let i = choose|i: int| 0 <= i < n && node_term(c) == node_term(#[trigger] permission_node(o, base, i));
            assert(nodes[i] == c);
        }
        if nodes.to_set().contains(c) {
            let i = choose|i: int| 0 <= i < nodes.len() && nodes[i] == c;
            assert(c == permission_node(o, base, i));
            assert(permission_terms(o, base).contains(node_term(c)));
        }
    }
    assert(permission_nodes(g, o.dataset_id) =~= nodes.to_set());
    assert(nodes.no_duplicates());
    assert forall|doc: PolicyView| #[trigger] policy_read(g, o.dataset_id, doc) implies {
        &&& doc.target == dataset_iri_of(o.dataset_id)
        &&& doc.assigner == o.assigner
        &&& doc.permissions =~~= o.permissions
    } by {
        let t = choose|t: RdfTerm| objects_of(g, pol, odrl_target()).contains(t) && text_or_empty(t) == doc.target;
        assert(t == RdfTerm::Iri(dataset_iri_of(o.dataset_id)));
        let a = choose|a: RdfTerm| objects_of(g, pol, odrl_assigner()).contains(a) && text_or_empty(a) == doc.assigner;
        assert(a == simple(o.assigner));
        let es = choose|es: Seq<(u64, Node)>| {
            &&& lists_sorted(es, permission_nodes(g, o.dataset_id))
            &&& es.len() == doc.permissions.len()
            &&& forall|i: int| 0 <= i < es.len() ==> permission_read(g, #[trigger] es[i].1, es[i].0, doc.permissions[i])
        };
        assert forall|m: int| 0 <= m < es.len() implies (#[trigger] es[m]).0 < nodes.len() && es[m].1 == nodes[es[m].0 as int] by {
            assert(entry_nodes(es)[m] == es[m].1);
            assert(nodes.to_set().contains(es[m].1));
            let i = choose|i: int| 0 <= i < nodes.len() && nodes[i] == es[m].1;
            lemma_permission_objects(g0, g, o, base, i);
            assert(permission_read(g, es[m].1, es[m].0, doc.permissions[m]));
            lemma_integer_injective(es[m].0 as nat, i as nat);
        }
        lemma_listing_identity(es, nodes);
        assert forall|i: int| 0 <= i < n implies doc.permissions[i] =~~= o.permissions[i] by {
            assert(es[i].1 == nodes[i]);
            assert(permission_read(g, es[i].1, es[i].0, doc.permissions[i]));
            lemma_constraints_read_back(g0, g, o, base, i, doc.permissions[i]);
        }
    }
    let dist = Node::Iri(distribution_iri_of(o.dataset_id));
    assert(objects_of(g, dist, ds_file_path()).contains(simple(o.file_path)));
    assert(objects_of(g, dist, dcat_media_type()).contains(simple(o.media_type)));
}

/// The connector reads back, for a freshly seeded dataset, the offer's own
/// file path, media type and permissions.
pub proof fn law_connector_reads_seeded_offer(before: ConfigGraph, after: ConfigGraph, offer: OfferView,
    fields: crate::connector::DocumentFields)
    requires
        before.wf(),
        untouched(before.triples(), offer.dataset_id),
        before.minted() + crate::graph::offer_blank_count(offer) <= u64::MAX,
        after.triples() == before.triples().union(offer_triples(offer, before.minted())),
        crate::connector::fields_read(&after, offer.dataset_id, fields),
    ensures
        fields.file_path@ == offer.file_path,
        fields.media_type@ == offer.media_type,
        fields.policy@.target == dataset_iri_of(offer.dataset_id),
        fields.policy@.assigner == offer.assigner,
        fields.policy@.permissions =~~= offer.permissions,
{
    law_seeded_offer_reads_back(before, after, offer);
    let dist = Node::Iri(distribution_iri_of(offer.dataset_id));
    let o = choose|o: RdfTerm| objects_of(after.triples(), dist, ds_file_path()).contains(o) && text_of(o) == Some(fields.file_path@);
    assert(o == simple(offer.file_path));
    let m = choose|m: RdfTerm| objects_of(after.triples(), dist, dcat_media_type()).contains(m) && text_of(m) == Some(fields.media_type@);
    assert(m == simple(offer.media_type));
    assert(policy_read(after.triples(), offer.dataset_id, fields.policy@));
}

/// A graph that was just opened holds nothing about any dataset, so the
/// first offer seeded into it for any dataset reads back exactly.
pub proof fn law_fresh_graph_is_untouched(g: ConfigGraph, dataset_id: Seq<char>)
    requires
        g.triples() == Set::<Triple>::empty(),
    ensures
        untouched(g.triples(), dataset_id),
{
}

} // verus!
