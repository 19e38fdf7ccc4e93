//! Seeding one dataset's offer leaves every read of any other dataset as it
//! was: the new triples are about the offer's own IRIs, under header
//! predicates, or about blank nodes minted for it.

use vstd::prelude::*;
use crate::graph::{
    blank_offset, constraint_node, constraint_triples, dataset_iri_of, distribution_iri_of, header_triples, node_term,
    offer_triples, offer_triples_upto, permission_node, permission_triples, policy_iri_of, ConfigGraph,
    dcat_distribution, dcat_media_type, dcterms_title, ds_file_path, ds_order, odrl_action, odrl_assigner,
    odrl_constraint, odrl_left_operand, odrl_operator, odrl_permission, odrl_right_operand, odrl_target, rdf_type,
};
use crate::offer::{ConstraintView, OfferView, PermissionView};
use crate::rdf::{blank_label, objects_of, Node, RdfTerm, Triple};
use crate::roundtrip::{minted_below, untouched};
use crate::policy::{
    constraint_nodes, constraint_read, entry_nodes, has_policy, lists_sorted, permission_nodes, permission_read,
    policy_read, readable_constraint, readable_permission, PolicyView,
};
use crate::decimal::lemma_dec_injective;

verus! {

/// The characters that tell the predicate IRIs apart: positions 4, 7, 18
/// and 21 separate the namespaces, and the first characters of each term
/// separate the terms of one namespace.
proof fn lemma_predicate_chars()
    ensures
        rdf_type()[4] == ':' && rdf_type()[7] == 'w' && rdf_type()[18] == '1',
        dcterms_title()[4] == ':' && dcterms_title()[7] == 'p',
        dcat_distribution()[4] == ':' && dcat_distribution()[7] == 'w' && dcat_distribution()[18] == 'n'
            && dcat_distribution()[21] == 'd' && dcat_distribution()[26] == 'd',
        dcat_media_type()[4] == ':' && dcat_media_type()[7] == 'w' && dcat_media_type()[18] == 'n'
            && dcat_media_type()[21] == 'd' && dcat_media_type()[26] == 'm',
        ds_file_path()[4] == 's' && ds_file_path()[42] == 'f',
        ds_order()[4] == 's' && ds_order()[42] == 'o',
        odrl_target()[4] == ':' && odrl_target()[7] == 'w' && odrl_target()[18] == 'n' && odrl_target()[21] == 'o'
            && odrl_target()[28] == 't',
        odrl_assigner()[4] == ':' && odrl_assigner()[7] == 'w' && odrl_assigner()[18] == 'n'
            && odrl_assigner()[21] == 'o' && odrl_assigner()[28] == 'a' && odrl_assigner()[29] == 's',
        odrl_permission()[4] == ':' && odrl_permission()[7] == 'w' && odrl_permission()[18] == 'n'
            && odrl_permission()[21] == 'o' && odrl_permission()[28] == 'p',
        odrl_action()[4] == ':' && odrl_action()[7] == 'w' && odrl_action()[18] == 'n'
            && odrl_action()[21] == 'o' && odrl_action()[28] == 'a' && odrl_action()[29] == 'c',
        odrl_constraint()[4] == ':' && odrl_constraint()[7] == 'w' && odrl_constraint()[18] == 'n'
            && odrl_constraint()[21] == 'o' && odrl_constraint()[28] == 'c',
        odrl_left_operand()[4] == ':' && odrl_left_operand()[7] == 'w' && odrl_left_operand()[18] == 'n'
            && odrl_left_operand()[21] == 'o' && odrl_left_operand()[28] == 'l',
        odrl_operator()[4] == ':' && odrl_operator()[7] == 'w' && odrl_operator()[18] == 'n'
            && odrl_operator()[21] == 'o' && odrl_operator()[28] == 'o',
        odrl_right_operand()[4] == ':' && odrl_right_operand()[7] == 'w' && odrl_right_operand()[18] == 'n'
            && odrl_right_operand()[21] == 'o' && odrl_right_operand()[28] == 'r',
{
    reveal_strlit("http://www.w3.org/1999/02/22-rdf-syntax-ns#");
    reveal_strlit("http://purl.org/dc/terms/");
    reveal_strlit("http://www.w3.org/ns/dcat#");
    reveal_strlit("https://ds42.org/ontologies/ds-sql-dps-rs#");
    reveal_strlit("http://www.w3.org/ns/odrl/2/");
    reveal_strlit("type");
    reveal_strlit("title");
    reveal_strlit("distribution");
    reveal_strlit("mediaType");
    reveal_strlit("filePath");
    reveal_strlit("order");
    reveal_strlit("target");
    reveal_strlit("assigner");
    reveal_strlit("permission");
    reveal_strlit("action");
    reveal_strlit("constraint");
    reveal_strlit("leftOperand");
    reveal_strlit("operator");
    reveal_strlit("rightOperand");
}

/// A predicate the policy read asks of permission and constraint nodes.
pub open spec fn node_predicate(p: Seq<char>) -> bool {
    ||| p == ds_order()
    ||| p == odrl_action()
    ||| p == odrl_constraint()
    ||| p == odrl_left_operand()
    ||| p == odrl_operator()
    ||| p == odrl_right_operand()
}

/// A blank node numbered `base` or above: one a seeding from `base` mints.
pub open spec fn fresh_node(n: Node, base: nat) -> bool {
    exists|k: nat| base <= k && n == Node::Bnode(#[trigger] blank_label(k))
}

/// Every triple of a seeded offer is about a freshly minted blank node, or
/// about the offer's dataset, distribution or policy IRI under a header
/// predicate of that IRI.
proof fn lemma_offer_triple_shape(o: OfferView, base: nat, t: Triple)
    requires
        offer_triples(o, base).contains(t),
    ensures
        fresh_node(t.subject, base)
        || (t.subject == Node::Iri(dataset_iri_of(o.dataset_id))
            && (t.predicate == rdf_type() || t.predicate == dcterms_title() || t.predicate == dcat_distribution()))
        || (t.subject == Node::Iri(distribution_iri_of(o.dataset_id))
            && (t.predicate == rdf_type() || t.predicate == ds_file_path() || t.predicate == dcat_media_type()))
        || (t.subject == Node::Iri(policy_iri_of(o.dataset_id))
            && (t.predicate == rdf_type() || t.predicate == odrl_target() || t.predicate == odrl_assigner()
                || t.predicate == odrl_permission())),
{
    let n = o.permissions.len() as int;
    assert(offer_triples_upto(o, base, n).contains(t));
    if header_triples(o).contains(t) {
    } else if exists|k: int| 0 <= k < n && #[trigger] permission_triples(o, base, k).contains(t) {
        let k = choose|k: int| 0 <= k < n && #[trigger] permission_triples(o, base, k).contains(t);
        let m = base + blank_offset(o.permissions, k);
        assert(permission_node(o, base, k) == Node::Bnode(blank_label(m)));
    } else {
        let (k, j) = choose|k: int, j: int| 0 <= k < n && 0 <= j < o.permissions[k].constraints.len()
            && #[trigger] constraint_triples(o, base, k, j).contains(t);
        let m = base + blank_offset(o.permissions, k);
        assert(permission_node(o, base, k) == Node::Bnode(blank_label(m)));
        let m2 = (base + blank_offset(o.permissions, k) + 1 + j) as nat;
        assert(constraint_node(o, base, k, j) == Node::Bnode(blank_label(m2)));
    }
}

/// A node that is the object of a triple of a graph whose blank nodes were
/// all minted below `base` is not fresh.
proof fn lemma_object_not_fresh(g: Set<Triple>, base: nat, t: Triple, c: Node)
    requires
        minted_below(g, base),
        g.contains(t),
        t.object == node_term(c),
    ensures
        !fresh_node(c, base),
{
    if fresh_node(c, base) {
        let k = choose|k: nat| base <= k && c == Node::Bnode(#[trigger] blank_label(k));
        let m = choose|m: nat| m < base && blank_label(k) == blank_label(m);
        assert(blank_label(k).skip(1) =~= crate::decimal::dec(k));
        assert(blank_label(m).skip(1) =~= crate::decimal::dec(m));
        lemma_dec_injective(k, m);
    }
}

proof fn lemma_distribution_iri_injective(a: Seq<char>, b: Seq<char>)
    requires
        distribution_iri_of(a) == distribution_iri_of(b),
    ensures
        a == b,
{
    let l = crate::graph::DATASET_PREFIX@.len();
    assert(distribution_iri_of(a).len() == distribution_iri_of(b).len());
    assert(dataset_iri_of(a).len() == l + a.len());
    assert(dataset_iri_of(b).len() == l + b.len());
    assert(distribution_iri_of(a).len() == dataset_iri_of(a).len() + "#distribution"@.len());
    assert(distribution_iri_of(b).len() == dataset_iri_of(b).len() + "#distribution"@.len());
    assert(a.len() == b.len());
    assert forall|i: int| 0 <= i < a.len() implies a[i] == b[i] by {
        assert(dataset_iri_of(a)[l + i] == a[i]);
        assert(dataset_iri_of(b)[l + i] == b[i]);
        assert(distribution_iri_of(a)[l + i] == a[i]);
        assert(distribution_iri_of(b)[l + i] == b[i]);
    }
    assert(a =~= b);
}

proof fn lemma_policy_iri_injective(a: Seq<char>, b: Seq<char>)
    requires
        policy_iri_of(a) == policy_iri_of(b),
    ensures
        a == b,
{
    let l = crate::graph::DATASET_PREFIX@.len();
    assert(policy_iri_of(a).len() == policy_iri_of(b).len());
    assert(dataset_iri_of(a).len() == l + a.len());
    assert(dataset_iri_of(b).len() == l + b.len());
    assert(policy_iri_of(a).len() == dataset_iri_of(a).len() + "#policy"@.len());
    assert(policy_iri_of(b).len() == dataset_iri_of(b).len() + "#policy"@.len());
    assert(a.len() == b.len());
    assert forall|i: int| 0 <= i < a.len() implies a[i] == b[i] by {
        assert(dataset_iri_of(a)[l + i] == a[i]);
        assert(dataset_iri_of(b)[l + i] == b[i]);
        assert(policy_iri_of(a)[l + i] == a[i]);
        assert(policy_iri_of(b)[l + i] == b[i]);
    }
    assert(a =~= b);
}

/// Adding triples none of which has subject `s` and predicate `p` keeps the
/// objects of `s` under `p`.
proof fn lemma_objects_kept(before: Set<Triple>, added: Set<Triple>, s: Node, p: Seq<char>)
    requires
        forall|t: Triple| #[trigger] added.contains(t) ==> !(t.subject == s && t.predicate == p),
    ensures
        objects_of(before.union(added), s, p) == objects_of(before, s, p),
{
    assert forall|o: RdfTerm| objects_of(before.union(added), s, p).contains(o) implies objects_of(before, s, p).contains(o) by {
        let t = Triple { subject: s, predicate: p, object: o };
        assert(before.union(added).contains(t));
        if added.contains(t) {
        }
    }
    assert(objects_of(before.union(added), s, p) =~= objects_of(before, s, p));
}

/// Seeding keeps the objects of any node that is not fresh under the
/// predicates the policy read asks of permission and constraint nodes.
proof fn lemma_node_reads_kept(before: Set<Triple>, o: OfferView, base: nat, c: Node, p: Seq<char>)
    requires
        !fresh_node(c, base),
        node_predicate(p),
    ensures
        objects_of(before.union(offer_triples(o, base)), c, p) == objects_of(before, c, p),
{
    lemma_predicate_chars();
    assert forall|t: Triple| #[trigger] offer_triples(o, base).contains(t) implies !(t.subject == c && t.predicate == p) by {
        lemma_offer_triple_shape(o, base, t);
    }
    lemma_objects_kept(before, offer_triples(o, base), c, p);
}

/// Seeding one dataset keeps the file path and media type objects of
/// another dataset's distribution.
proof fn lemma_distribution_reads_kept(before: Set<Triple>, o: OfferView, base: nat, other: Seq<char>, p: Seq<char>)
    requires
        other != o.dataset_id,
        p == ds_file_path() || p == dcat_media_type(),
    ensures
        objects_of(before.union(offer_triples(o, base)), Node::Iri(distribution_iri_of(other)), p)
            == objects_of(before, Node::Iri(distribution_iri_of(other)), p),
{
    lemma_predicate_chars();
    let s = Node::Iri(distribution_iri_of(other));
    assert forall|t: Triple| #[trigger] offer_triples(o, base).contains(t) implies !(t.subject == s && t.predicate == p) by {
        lemma_offer_triple_shape(o, base, t);
        if t.subject == s && t.subject == Node::Iri(distribution_iri_of(o.dataset_id)) {
            lemma_distribution_iri_injective(other, o.dataset_id);
        }
    }
    lemma_objects_kept(before, offer_triples(o, base), s, p);
}

/// Seeding one dataset keeps the target, assigner and permission objects of
/// another dataset's policy.
proof fn lemma_policy_reads_kept(before: Set<Triple>, o: OfferView, base: nat, other: Seq<char>, p: Seq<char>)
    requires
        other != o.dataset_id,
        p == odrl_target() || p == odrl_assigner() || p == odrl_permission(),
    ensures
        objects_of(before.union(offer_triples(o, base)), Node::Iri(policy_iri_of(other)), p)
            == objects_of(before, Node::Iri(policy_iri_of(other)), p),
{
    lemma_predicate_chars();
    let s = Node::Iri(policy_iri_of(other));
    assert forall|t: Triple| #[trigger] offer_triples(o, base).contains(t) implies !(t.subject == s && t.predicate == p) by {
        lemma_offer_triple_shape(o, base, t);
        if t.subject == s && t.subject == Node::Iri(policy_iri_of(o.dataset_id)) {
            lemma_policy_iri_injective(other, o.dataset_id);
        }
    }
    lemma_objects_kept(before, offer_triples(o, base), s, p);
}

/// `after` is `before` with an offer seeded from blank node `base`, and
/// every blank node of `before` was minted below `base`.
pub open spec fn seeded_from(before: Set<Triple>, after: Set<Triple>, o: OfferView, base: nat) -> bool {
    &&& minted_below(before, base)
    &&& after == before.union(offer_triples(o, base))
}

proof fn lemma_constraint_kept(before: Set<Triple>, after: Set<Triple>, o: OfferView, base: nat, c: Node)
    requires
        seeded_from(before, after, o, base),
        !fresh_node(c, base),
    ensures
        readable_constraint(after, c) == readable_constraint(before, c),
        forall|k: u64, x: ConstraintView| constraint_read(after, c, k, x) == constraint_read(before, c, k, x),
{
    lemma_node_reads_kept(before, o, base, c, crate::graph::ds_order());
    lemma_node_reads_kept(before, o, base, c, odrl_left_operand());
    lemma_node_reads_kept(before, o, base, c, odrl_operator());
    lemma_node_reads_kept(before, o, base, c, odrl_right_operand());
}

proof fn lemma_constraint_nodes_kept(before: Set<Triple>, after: Set<Triple>, o: OfferView, base: nat, p: Node)
    requires
        seeded_from(before, after, o, base),
        !fresh_node(p, base),
    ensures
        constraint_nodes(after, p) == constraint_nodes(before, p),
        forall|c: Node| #[trigger] constraint_nodes(before, p).contains(c) ==> !fresh_node(c, base),
{
    lemma_node_reads_kept(before, o, base, p, odrl_constraint());
    assert forall|c: Node| objects_of(before, p, odrl_constraint()).contains(node_term(c)) implies !fresh_node(c, base)
        && readable_constraint(after, c) == readable_constraint(before, c) by {
        let t = Triple { subject: p, predicate: odrl_constraint(), object: node_term(c) };
        lemma_object_not_fresh(before, base, t, c);
        lemma_constraint_kept(before, after, o, base, c);
    }
    assert(constraint_nodes(after, p) =~= constraint_nodes(before, p));
}

proof fn lemma_permission_kept(before: Set<Triple>, after: Set<Triple>, o: OfferView, base: nat, p: Node)
    requires
        seeded_from(before, after, o, base),
        !fresh_node(p, base),
    ensures
        readable_permission(after, p) == readable_permission(before, p),
        forall|k: u64, x: PermissionView| permission_read(after, p, k, x) == permission_read(before, p, k, x),
{
    lemma_node_reads_kept(before, o, base, p, crate::graph::ds_order());
    lemma_node_reads_kept(before, o, base, p, odrl_action());
    lemma_constraint_nodes_kept(before, after, o, base, p);
    let cn = constraint_nodes(before, p);
    assert forall|k: u64, x: PermissionView| permission_read(after, p, k, x) == permission_read(before, p, k, x) by {
        assert forall|es: Seq<(u64, Node)>, i: int| lists_sorted(es, cn) && 0 <= i < es.len() implies
            constraint_read(after, #[trigger] es[i].1, es[i].0, x.constraints[i])
                == constraint_read(before, es[i].1, es[i].0, x.constraints[i]) by {
            assert(entry_nodes(es)[i] == es[i].1);
            assert(entry_nodes(es).to_set().contains(es[i].1));
            lemma_constraint_kept(before, after, o, base, es[i].1);
        }
        if permission_read(after, p, k, x) {
            let es = choose|es: Seq<(u64, Node)>| {
                &&& lists_sorted(es, constraint_nodes(after, p))
                &&& es.len() == x.constraints.len()
                &&& forall|i: int| 0 <= i < es.len() ==> constraint_read(after, #[trigger] es[i].1, es[i].0, x.constraints[i])
            };
            assert(forall|i: int| 0 <= i < es.len() ==> constraint_read(before, #[trigger] es[i].1, es[i].0, x.constraints[i]));
        }
        if permission_read(before, p, k, x) {
            let es = choose|es: Seq<(u64, Node)>| {
                &&& lists_sorted(es, constraint_nodes(before, p))
                &&& es.len() == x.constraints.len()
                &&& forall|i: int| 0 <= i < es.len() ==> constraint_read(before, #[trigger] es[i].1, es[i].0, x.constraints[i])
            };
            assert(forall|i: int| 0 <= i < es.len() ==> constraint_read(after, #[trigger] es[i].1, es[i].0, x.constraints[i]));
        }
    }
}

/// Seeding an offer leaves every read of any other dataset as it was: the
/// file path and media type objects of its distribution, whether it has a
/// policy, and every document a read of its policy may answer.
pub proof fn law_seeding_leaves_other_datasets(before: ConfigGraph, after: ConfigGraph, offer: OfferView,
    other: Seq<char>)
    requires
        before.wf(),
        other != offer.dataset_id,
        after.triples() == before.triples().union(offer_triples(offer, before.minted())),
    ensures
        objects_of(after.triples(), Node::Iri(distribution_iri_of(other)), ds_file_path())
            == objects_of(before.triples(), Node::Iri(distribution_iri_of(other)), ds_file_path()),
        objects_of(after.triples(), Node::Iri(distribution_iri_of(other)), dcat_media_type())
            == objects_of(before.triples(), Node::Iri(distribution_iri_of(other)), dcat_media_type()),
        has_policy(after.triples(), other) == has_policy(before.triples(), other),
        forall|doc: PolicyView| #[trigger] policy_read(after.triples(), other, doc)
            == policy_read(before.triples(), other, doc),
{
    let gb = before.triples();
    let ga = after.triples();
    let base = before.minted();
    let o = offer;
    assert(minted_below(gb, base));
    assert(seeded_from(gb, ga, o, base));
    lemma_distribution_reads_kept(gb, o, base, other, ds_file_path());
    lemma_distribution_reads_kept(gb, o, base, other, dcat_media_type());
    lemma_policy_reads_kept(gb, o, base, other, odrl_target());
    lemma_policy_reads_kept(gb, o, base, other, odrl_assigner());
    lemma_policy_reads_kept(gb, o, base, other, odrl_permission());
    let pol = Node::Iri(policy_iri_of(other));
    assert forall|p: Node| objects_of(gb, pol, odrl_permission()).contains(node_term(p)) implies !fresh_node(p, base)
        && readable_permission(ga, p) == readable_permission(gb, p) by {
        let t = Triple { subject: pol, predicate: odrl_permission(), object: node_term(p) };
        lemma_object_not_fresh(gb, base, t, p);
        lemma_permission_kept(gb, ga, o, base, p);
    }
    assert(permission_nodes(ga, other) =~= permission_nodes(gb, other));
    let pn = permission_nodes(gb, other);
    assert forall|doc: PolicyView| #[trigger] policy_read(ga, other, doc) == policy_read(gb, other, doc) by {
        assert forall|es: Seq<(u64, Node)>, i: int| lists_sorted(es, pn) && 0 <= i < es.len() implies
            permission_read(ga, #[trigger] es[i].1, es[i].0, doc.permissions[i])
                == permission_read(gb, es[i].1, es[i].0, doc.permissions[i]) by {
            assert(entry_nodes(es)[i] == es[i].1);
            assert(entry_nodes(es).to_set().contains(es[i].1));
            lemma_permission_kept(gb, ga, o, base, es[i].1);
        }
        if policy_read(ga, other, doc) {
            let es = choose|es: Seq<(u64, Node)>| {
                &&& lists_sorted(es, permission_nodes(ga, other))
                &&& es.len() == doc.permissions.len()
                &&& forall|i: int| 0 <= i < es.len() ==> permission_read(ga, #[trigger] es[i].1, es[i].0, doc.permissions[i])
            };
            assert(forall|i: int| 0 <= i < es.len() ==> permission_read(gb, #[trigger] es[i].1, es[i].0, doc.permissions[i]));
        }
        if policy_read(gb, other, doc) {
            let es = choose|es: Seq<(u64, Node)>| {
                &&& lists_sorted(es, permission_nodes(gb, other))
                &&& es.len() == doc.permissions.len()
                &&& forall|i: int| 0 <= i < es.len() ==> permission_read(gb, #[trigger] es[i].1, es[i].0, doc.permissions[i])
            };
            assert(forall|i: int| 0 <= i < es.len() ==> permission_read(ga, #[trigger] es[i].1, es[i].0, doc.permissions[i]));
        }
    }
}

/// Seeding an offer for one dataset keeps the graph untouched for every
/// other dataset: the new triples put no file path or media type on the
/// other's distribution, and no target, assigner or permission on its
/// policy. With a freshly opened graph being untouched for every dataset,
/// a graph seeded only with other datasets' offers is untouched for this
/// one, so seeding its offer then reads back exactly.
pub proof fn law_seeding_keeps_others_untouched(before: ConfigGraph, after: ConfigGraph, offer: OfferView,
    other: Seq<char>)
    requires
        other != offer.dataset_id,
        untouched(before.triples(), other),
        after.triples() == before.triples().union(offer_triples(offer, before.minted())),
    ensures
        untouched(after.triples(), other),
{
    lemma_predicate_chars();
    let base = before.minted();
    assert forall|t: Triple| #[trigger] after.triples().contains(t) implies {
        &&& t.subject == Node::Iri(distribution_iri_of(other))
            ==> t.predicate != ds_file_path() && t.predicate != dcat_media_type()
        &&& t.subject == Node::Iri(policy_iri_of(other))
            ==> t.predicate != odrl_target() && t.predicate != odrl_assigner() && t.predicate != odrl_permission()
    } by {
        if !before.triples().contains(t) {
            lemma_offer_triple_shape(offer, base, t);
            if t.subject == Node::Iri(distribution_iri_of(other)) && t.subject == Node::Iri(distribution_iri_of(offer.dataset_id)) {
                lemma_distribution_iri_injective(other, offer.dataset_id);
            }
            if t.subject == Node::Iri(policy_iri_of(other)) && t.subject == Node::Iri(policy_iri_of(offer.dataset_id)) {
                lemma_policy_iri_injective(other, offer.dataset_id);
            }
        }
    }
}

} // verus!
