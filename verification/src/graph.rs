//! The configuration graph: an embedded Oxigraph store holding one triple
//! per fact about a file offer, its DCAT dataset and distribution and its
//! ODRL usage policy, with every permission and constraint a blank node that
//! carries an explicit `ds:order`, so that the ordered policy can be read
//! back out.

use vstd::prelude::*;
use oxigraph::model::IriParseError;
use oxigraph::store::{StorageError, Store};
use crate::decimal::{dec, decimal_string, lemma_dec_canonical};
use crate::offer::{FileOffer, OfferView, PermissionView, PermissionSpec, ConstraintSpec};
use crate::rdf::{blank_label, check_iri, insertable, iri_error_text, iri_valid, is_minted_label, objects_of, storage_error_text, store_insert, store_new, store_objects, store_triples, term_views, xsd_integer_iri, Node, NodeValue, RdfTerm, TermValue, Triple, TripleValue};
use crate::policy::{constraint_nodes, constraint_read, first_integer, first_text, first_text_of, first_text_or_empty, keys_sorted, lists_sorted, entry_nodes, node_of, node_value, permission_nodes, permission_read, policy_read, readable_constraint, readable_permission, text_of, has_policy, PolicyDocument, ODRL_CONTEXT};
use crate::sort::{lemma_rearranged_projection, sort_by_key, sorted_by_key};
use crate::vocab::{dcat, dcterms, ds, odrl, rdf, xsd, DCAT, DCTERMS, DS, ODRL, RDF};

verus! {

/// The prefix of every dataset IRI.
pub const DATASET_PREFIX: &'static str = "urn:ds-sql-dps-rs:dataset:";

pub open spec fn dataset_iri_of(dataset_id: Seq<char>) -> Seq<char> {
    DATASET_PREFIX@ + dataset_id
}

pub open spec fn distribution_iri_of(dataset_id: Seq<char>) -> Seq<char> {
    dataset_iri_of(dataset_id) + "#distribution"@
}

pub open spec fn policy_iri_of(dataset_id: Seq<char>) -> Seq<char> {
    dataset_iri_of(dataset_id) + "#policy"@
}

/// The IRI identifying a dataset, and the value `odrl:target` is set to:
/// what a policy evaluation must name as the asset for its target match to
/// succeed. Distinct from the plain `dataset_id` used in HTTP paths.
pub fn dataset_iri(dataset_id: &str) -> (iri: String)
    ensures
        iri@ == dataset_iri_of(dataset_id@),
{
    String::from_str(DATASET_PREFIX).concat(dataset_id)
}

fn distribution_iri(dataset_id: &str) -> (iri: String)
    ensures
        iri@ == distribution_iri_of(dataset_id@),
{
    dataset_iri(dataset_id).concat("#distribution")
}

fn policy_iri(dataset_id: &str) -> (iri: String)
    ensures
        iri@ == policy_iri_of(dataset_id@),
{
    dataset_iri(dataset_id).concat("#policy")
}

// ---------------------------------------------------------------------------
// Vocabulary IRIs, as values.

pub open spec fn rdf_type() -> Seq<char> { RDF@ + "type"@ }
pub open spec fn dcat_dataset() -> Seq<char> { DCAT@ + "Dataset"@ }
pub open spec fn dcat_distribution_class() -> Seq<char> { DCAT@ + "Distribution"@ }
pub open spec fn dcat_distribution() -> Seq<char> { DCAT@ + "distribution"@ }
pub open spec fn dcat_media_type() -> Seq<char> { DCAT@ + "mediaType"@ }
pub open spec fn dcterms_title() -> Seq<char> { DCTERMS@ + "title"@ }
pub open spec fn ds_file_path() -> Seq<char> { DS@ + "filePath"@ }
pub open spec fn ds_order() -> Seq<char> { DS@ + "order"@ }
pub open spec fn odrl_offer() -> Seq<char> { ODRL@ + "Offer"@ }
pub open spec fn odrl_target() -> Seq<char> { ODRL@ + "target"@ }
pub open spec fn odrl_assigner() -> Seq<char> { ODRL@ + "assigner"@ }
pub open spec fn odrl_permission() -> Seq<char> { ODRL@ + "permission"@ }
pub open spec fn odrl_permission_class() -> Seq<char> { ODRL@ + "Permission"@ }
pub open spec fn odrl_action() -> Seq<char> { ODRL@ + "action"@ }
pub open spec fn odrl_constraint() -> Seq<char> { ODRL@ + "constraint"@ }
pub open spec fn odrl_left_operand() -> Seq<char> { ODRL@ + "leftOperand"@ }
pub open spec fn odrl_operator() -> Seq<char> { ODRL@ + "operator"@ }
pub open spec fn odrl_right_operand() -> Seq<char> { ODRL@ + "rightOperand"@ }

pub open spec fn simple(s: Seq<char>) -> RdfTerm {
    RdfTerm::Lit(s, None, None)
}

pub open spec fn integer(n: nat) -> RdfTerm {
    RdfTerm::Lit(dec(n), Some(xsd_integer_iri()), None)
}

pub open spec fn triple(s: Node, p: Seq<char>, o: RdfTerm) -> Triple {
    Triple { subject: s, predicate: p, object: o }
}

// ---------------------------------------------------------------------------
// The triples an offer is decomposed into.

/// How many blank nodes the first `i` permissions take: one for each
/// permission and one for each of its constraints.
pub open spec fn blank_offset(ps: Seq<PermissionView>, i: int) -> nat
    decreases i,
{
    if i <= 0 || i > ps.len() {
        0
    } else {
        blank_offset(ps, i - 1) + 1 + ps[i - 1].constraints.len()
    }
}

/// How many blank nodes seeding an offer mints.
pub open spec fn offer_blank_count(o: OfferView) -> nat {
    blank_offset(o.permissions, o.permissions.len() as int)
}

/// The blank node of the `i`-th permission, when the offer's blank nodes
/// are numbered from `base`.
pub open spec fn permission_node(o: OfferView, base: nat, i: int) -> Node {
    Node::Bnode(blank_label(base + blank_offset(o.permissions, i)))
}

/// The blank node of the `j`-th constraint of the `i`-th permission.
pub open spec fn constraint_node(o: OfferView, base: nat, i: int, j: int) -> Node {
    Node::Bnode(blank_label((base + blank_offset(o.permissions, i) + 1 + j) as nat))
}

pub open spec fn node_term(n: Node) -> RdfTerm {
    match n {
        Node::Iri(i) => RdfTerm::Iri(i),
        Node::Bnode(b) => RdfTerm::Bnode(b),
    }
}

/// The dataset, its distribution, and the policy with its target and
/// assigner.
pub open spec fn header_triples(o: OfferView) -> Set<Triple> {
    let dataset = Node::Iri(dataset_iri_of(o.dataset_id));
    let distribution = Node::Iri(distribution_iri_of(o.dataset_id));
    let policy = Node::Iri(policy_iri_of(o.dataset_id));
    set![
        triple(dataset, rdf_type(), RdfTerm::Iri(dcat_dataset())),
        triple(dataset, dcterms_title(), simple(o.title)),
        triple(dataset, dcat_distribution(), RdfTerm::Iri(distribution_iri_of(o.dataset_id))),
        triple(distribution, rdf_type(), RdfTerm::Iri(dcat_distribution_class())),
        triple(distribution, ds_file_path(), simple(o.file_path)),
        triple(distribution, dcat_media_type(), simple(o.media_type)),
        triple(policy, rdf_type(), RdfTerm::Iri(odrl_offer())),
        triple(policy, odrl_target(), RdfTerm::Iri(dataset_iri_of(o.dataset_id))),
        triple(policy, odrl_assigner(), simple(o.assigner))
    ]
}

/// The `i`-th permission node: linked from the policy, typed, ordered, and
/// carrying its action.
pub open spec fn permission_triples(o: OfferView, base: nat, i: int) -> Set<Triple> {
    let p = permission_node(o, base, i);
    set![
        triple(Node::Iri(policy_iri_of(o.dataset_id)), odrl_permission(), node_term(p)),
        triple(p, rdf_type(), RdfTerm::Iri(odrl_permission_class())),
        triple(p, ds_order(), integer(i as nat)),
        triple(p, odrl_action(), simple(o.permissions[i].action))
    ]
}

/// The `j`-th constraint node of the `i`-th permission.
pub open spec fn constraint_triples(o: OfferView, base: nat, i: int, j: int) -> Set<Triple> {
    let p = permission_node(o, base, i);
    let c = constraint_node(o, base, i, j);
    let k = o.permissions[i].constraints[j];
    set![
        triple(p, odrl_constraint(), node_term(c)),
        triple(c, ds_order(), integer(j as nat)),
        triple(c, odrl_left_operand(), simple(k.left_operand)),
        triple(c, odrl_operator(), simple(k.operator)),
        triple(c, odrl_right_operand(), simple(k.right_operand))
    ]
}

/// The header and every block of the first `i` permissions.
pub open spec fn offer_triples_upto(o: OfferView, base: nat, i: int) -> Set<Triple> {
    Set::new(|t: Triple| {
        ||| header_triples(o).contains(t)
        ||| exists|k: int| 0 <= k < i && #[trigger] permission_triples(o, base, k).contains(t)
        ||| exists|k: int, j: int| 0 <= k < i && 0 <= j < o.permissions[k].constraints.len()
                && #[trigger] constraint_triples(o, base, k, j).contains(t)
    })
}

/// Every triple an offer is decomposed into, its blank nodes numbered from
/// `base`.
pub open spec fn offer_triples(o: OfferView, base: nat) -> Set<Triple> {
    offer_triples_upto(o, base, o.permissions.len() as int)
}

/// Every IRI seeding the offer builds is valid: those derived from the
/// dataset id, the vocabulary of the header and of the `xsd:integer`
/// datatype, and the permission and constraint vocabulary when the offer
/// has a permission or a constraint.
pub open spec fn seed_iris_valid(o: OfferView) -> bool {
    &&& iri_valid(dataset_iri_of(o.dataset_id))
    &&& iri_valid(distribution_iri_of(o.dataset_id))
    &&& iri_valid(policy_iri_of(o.dataset_id))
    &&& iri_valid(rdf_type())
    &&& iri_valid(dcat_dataset())
    &&& iri_valid(dcterms_title())
    &&& iri_valid(dcat_distribution())
    &&& iri_valid(dcat_distribution_class())
    &&& iri_valid(ds_file_path())
    &&& iri_valid(dcat_media_type())
    &&& iri_valid(odrl_offer())
    &&& iri_valid(odrl_target())
    &&& iri_valid(odrl_assigner())
    &&& iri_valid(xsd_integer_iri())
    &&& o.permissions.len() > 0 ==> {
        &&& iri_valid(odrl_permission())
        &&& iri_valid(odrl_permission_class())
        &&& iri_valid(ds_order())
        &&& iri_valid(odrl_action())
    }
    &&& has_constraint(o) ==> {
        &&& iri_valid(odrl_constraint())
        &&& iri_valid(ds_order())
        &&& iri_valid(odrl_left_operand())
        &&& iri_valid(odrl_operator())
        &&& iri_valid(odrl_right_operand())
    }
}

pub open spec fn has_constraint(o: OfferView) -> bool {
    exists|i: int| 0 <= i < o.permissions.len() && #[trigger] o.permissions[i].constraints.len() > 0
}

/// Whether seeding succeeds depends only on the dataset id and on the
/// offer's shape (how many permissions, how many constraints each): two
/// offers for one dataset with the same shape either both seed or both are
/// refused, whatever their title, file path, media type, assigner, actions
/// and operands.
pub proof fn law_seed_success_ignores_literals(a: OfferView, b: OfferView)
    requires
        a.dataset_id == b.dataset_id,
        a.permissions.len() == b.permissions.len(),
        forall|i: int| 0 <= i < a.permissions.len()
            ==> (#[trigger] a.permissions[i]).constraints.len() == b.permissions[i].constraints.len(),
    ensures
        seed_iris_valid(a) == seed_iris_valid(b),
{
    if has_constraint(a) {
        let i = choose|i: int| 0 <= i < a.permissions.len() && #[trigger] a.permissions[i].constraints.len() > 0;
        assert(b.permissions[i].constraints.len() > 0);
    }
    if has_constraint(b) {
        let i = choose|i: int| 0 <= i < b.permissions.len() && #[trigger] b.permissions[i].constraints.len() > 0;
        assert(a.permissions[i].constraints.len() > 0);
    }
}

// ---------------------------------------------------------------------------

/// The message of a read for a dataset the graph holds no offer for.
pub open spec fn not_found_message(dataset_id: Seq<char>) -> Seq<char> {
    "no offer found for dataset id '"@ + dataset_id + "'"@
}

/// Why a configuration graph operation failed.
#[derive(Debug)]
pub enum ConfigGraphError {
    /// An IRI built from the offer is not a valid IRI.
    Iri(IriParseError),
    /// The store failed to read an entry.
    Storage(StorageError),
    /// The graph holds no offer for this dataset id.
    NotFound(String),
}

impl ConfigGraphError {
    /// The error's message.
    pub fn message(&self) -> (m: String)
        ensures
            self matches ConfigGraphError::NotFound(d) ==> m@ == not_found_message(d@),
            self is Iri ==> exists|text: Seq<char>| m@ == "invalid IRI: "@ + text,
            self is Storage ==> exists|text: Seq<char>| m@ == "store error: "@ + text,
    {
        match self {
            ConfigGraphError::Iri(e) => {
                let text = iri_error_text(e);
                let m = String::from_str("invalid IRI: ").concat(text.as_str());
                assert(m@ == "invalid IRI: "@ + text@);
                m
            },
            ConfigGraphError::Storage(e) => {
                let text = storage_error_text(e);
                let m = String::from_str("store error: ").concat(text.as_str());
                assert(m@ == "store error: "@ + text@);
                m
            },
            ConfigGraphError::NotFound(d) => String::from_str("no offer found for dataset id '").concat(d.as_str()).concat("'"),
        }
    }
}

/// The configuration graph: an embedded in-memory Oxigraph store holding
/// one triple per fact about each file offer seeded into it. Kept apart from
/// anything the signaling layer persists.
pub struct ConfigGraph {
    store: Store,
    next_blank: u64,
}

/// Every blank node a triple mentions carries a label minted below `n`.
pub open spec fn labels_below(t: Triple, n: nat) -> bool {
    &&& (t.subject matches Node::Bnode(b) ==> exists|k: nat| k < n && b == blank_label(k))
    &&& (t.object matches RdfTerm::Bnode(b) ==> exists|k: nat| k < n && b == blank_label(k))
}

impl ConfigGraph {
    /// The triples the graph holds.
    pub closed spec fn triples(&self) -> Set<Triple> {
        store_triples(self.store)
    }

    /// How many blank nodes the graph has minted.
    pub closed spec fn minted(&self) -> nat {
        self.next_blank as nat
    }

    /// Well-formedness: every blank node in the graph was minted by it, so a
    /// newly minted one is fresh.
    pub open spec fn wf(&self) -> bool {
        forall|t: Triple| #[trigger] self.triples().contains(t) ==> labels_below(t, self.minted())
    }

    /// Opens a fresh, empty, in-process store.
    pub fn open_in_memory() -> (r: Result<ConfigGraph, ConfigGraphError>)
        ensures
            r matches Ok(g) && g.wf() && g.triples() == Set::<Triple>::empty() && g.minted() == 0,
    {
        match store_new() {
            Ok(store) => Ok(ConfigGraph { store, next_blank: 0 }),
            Err(e) => Err(ConfigGraphError::Storage(e)),
        }
    }

    /// Adds one triple whose blank nodes were already minted.
    fn add(&mut self, t: TripleValue)
        requires
            old(self).wf(),
            insertable(t@),
            labels_below(t@, old(self).minted()),
        ensures
            final(self).wf(),
            final(self).triples() == old(self).triples().insert(t@),
            final(self).minted() == old(self).minted(),
    {
        let ghost tv = t@;
        let _ = store_insert(&mut self.store, t);
        assert forall|u: Triple| #[trigger] self.triples().contains(u) implies labels_below(u, self.minted()) by {
            if u != tv {
                assert(old(self).triples().contains(u));
            }
        }
    }

    /// Mints a fresh blank node label.
    fn mint(&mut self) -> (label: String)
        requires
            old(self).wf(),
            old(self).minted() < u64::MAX,
        ensures
            final(self).wf(),
            final(self).triples() == old(self).triples(),
            final(self).minted() == old(self).minted() + 1,
            label@ == blank_label(old(self).minted()),
            is_minted_label(label@),
    {
        let k = self.next_blank;
        self.next_blank = k + 1;
        assert forall|u: Triple| #[trigger] self.triples().contains(u) implies labels_below(u, self.minted()) by {
            assert(old(self).triples().contains(u));
            lemma_labels_below_mono(u, old(self).minted(), self.minted());
        }
        proof {
            reveal_strlit("b");
        }
        let label = String::from_str("b").concat(decimal_string(k).as_str());
        assert(label@ == blank_label(k as nat));
        label
    }
}

proof fn lemma_labels_below_mono(t: Triple, n: nat, m: nat)
    requires
        labels_below(t, n),
        n <= m,
    ensures
        labels_below(t, m),
{
    if let Node::Bnode(b) = t.subject {
        let k = choose|k: nat| k < n && b == blank_label(k);
        assert(k < m && b == blank_label(k));
    }
    if let RdfTerm::Bnode(b) = t.object {
        let k = choose|k: nat| k < n && b == blank_label(k);
        assert(k < m && b == blank_label(k));
    }
}

/// The IRIs seeding an offer builds, each already checked.
struct SeedIris {
    dataset: String,
    distribution: String,
    policy: String,
    rdf_type: String,
    dcat_dataset: String,
    dcterms_title: String,
    dcat_distribution: String,
    dcat_distribution_class: String,
    ds_file_path: String,
    dcat_media_type: String,
    odrl_offer: String,
    odrl_target: String,
    odrl_assigner: String,
    xsd_integer: String,
    odrl_permission: String,
    odrl_permission_class: String,
    ds_order: String,
    odrl_action: String,
    odrl_constraint: String,
    odrl_left_operand: String,
    odrl_operator: String,
    odrl_right_operand: String,
}

impl SeedIris {
    spec fn names(&self, o: OfferView) -> bool {
        &&& self.dataset@ == dataset_iri_of(o.dataset_id)
        &&& self.distribution@ == distribution_iri_of(o.dataset_id)
        &&& self.policy@ == policy_iri_of(o.dataset_id)
        &&& self.rdf_type@ == rdf_type()
        &&& self.dcat_dataset@ == dcat_dataset()
        &&& self.dcterms_title@ == dcterms_title()
        &&& self.dcat_distribution@ == dcat_distribution()
        &&& self.dcat_distribution_class@ == dcat_distribution_class()
        &&& self.ds_file_path@ == ds_file_path()
        &&& self.dcat_media_type@ == dcat_media_type()
        &&& self.odrl_offer@ == odrl_offer()
        &&& self.odrl_target@ == odrl_target()
        &&& self.odrl_assigner@ == odrl_assigner()
        &&& self.xsd_integer@ == xsd_integer_iri()
        &&& self.odrl_permission@ == odrl_permission()
        &&& self.odrl_permission_class@ == odrl_permission_class()
        &&& self.ds_order@ == ds_order()
        &&& self.odrl_action@ == odrl_action()
        &&& self.odrl_constraint@ == odrl_constraint()
        &&& self.odrl_left_operand@ == odrl_left_operand()
        &&& self.odrl_operator@ == odrl_operator()
        &&& self.odrl_right_operand@ == odrl_right_operand()
    }
}

/// Builds and checks every IRI seeding `offer` needs: `Ok` exactly when all
/// of them are valid.
fn seed_iris(offer: &FileOffer) -> (r: Result<SeedIris, ConfigGraphError>)
    ensures
        r is Ok <==> seed_iris_valid(offer@),
        r matches Ok(iris) ==> iris.names(offer@),
        r matches Err(e) ==> e is Iri,
{
    let dataset = dataset_iri(offer.dataset_id.as_str());
    checked(&dataset)?;
    let distribution = distribution_iri(offer.dataset_id.as_str());
    checked(&distribution)?;
    let policy = policy_iri(offer.dataset_id.as_str());
    checked(&policy)?;
    let rdf_type = rdf("type");
    checked(&rdf_type)?;
    let dcat_dataset = dcat("Dataset");
    checked(&dcat_dataset)?;
    let dcterms_title = dcterms("title");
    checked(&dcterms_title)?;
    let dcat_distribution = dcat("distribution");
    checked(&dcat_distribution)?;
    let dcat_distribution_class = dcat("Distribution");
    checked(&dcat_distribution_class)?;
    let ds_file_path = ds("filePath");
    checked(&ds_file_path)?;
    let dcat_media_type = dcat("mediaType");
    checked(&dcat_media_type)?;
    let odrl_offer = odrl("Offer");
    checked(&odrl_offer)?;
    let odrl_target = odrl("target");
    checked(&odrl_target)?;
    let odrl_assigner = odrl("assigner");
    checked(&odrl_assigner)?;
    let xsd_integer = xsd("integer");
    checked(&xsd_integer)?;
    let odrl_permission = odrl("permission");
    let odrl_permission_class = odrl("Permission");
    let ds_order = ds("order");
    let odrl_action = odrl("action");
    if offer.permissions.len() > 0 {
        checked(&odrl_permission)?;
        checked(&odrl_permission_class)?;
        checked(&ds_order)?;
        checked(&odrl_action)?;
    }
    let mut any_constraint = false;
    let n = offer.permissions.len();
    for i in 0..n
        invariant
            n == offer.permissions.len(),
            any_constraint <==> exists|k: int| 0 <= k < i && #[trigger] offer@.permissions[k].constraints.len() > 0,
    {
        if offer.permissions[i].constraints.len() > 0 {
            any_constraint = true;
        }
        assert(offer@.permissions[i as int].constraints.len() == offer.permissions[i as int].constraints@.len());
    }
    let odrl_constraint = odrl("constraint");
    let odrl_left_operand = odrl("leftOperand");
    let odrl_operator = odrl("operator");
    let odrl_right_operand = odrl("rightOperand");
    if any_constraint {
        checked(&odrl_constraint)?;
        checked(&ds_order)?;
        checked(&odrl_left_operand)?;
        checked(&odrl_operator)?;
        checked(&odrl_right_operand)?;
    }
    Ok(SeedIris {
        dataset, distribution, policy, rdf_type, dcat_dataset, dcterms_title, dcat_distribution,
        dcat_distribution_class, ds_file_path, dcat_media_type, odrl_offer, odrl_target,
        odrl_assigner, xsd_integer, odrl_permission, odrl_permission_class, ds_order, odrl_action,
        odrl_constraint, odrl_left_operand, odrl_operator, odrl_right_operand,
    })
}

fn lit(s: &String) -> (t: TermValue)
    ensures
        t@ == simple(s@),
{
    TermValue::Literal(s.clone(), None, None)
}

fn int_term(n: u64, xsd_integer: &String) -> (t: TermValue)
    requires
        xsd_integer@ == xsd_integer_iri(),
    ensures
        t@ == integer(n as nat),
{
    TermValue::Literal(decimal_string(n), Some(xsd_integer.clone()), None)
}

/// The constraint blocks `0..j` of the `i`-th permission.
pub open spec fn constraint_prefix(o: OfferView, base: nat, i: int, j: int) -> Set<Triple> {
    Set::new(|t: Triple| exists|jj: int| 0 <= jj < j && #[trigger] constraint_triples(o, base, i, jj).contains(t))
}

proof fn lemma_blank_offset_step(ps: Seq<PermissionView>, i: int)
    requires
        0 <= i < ps.len(),
    ensures
        blank_offset(ps, i + 1) == blank_offset(ps, i) + 1 + ps[i].constraints.len(),
{
}

proof fn lemma_blank_offset_mono(ps: Seq<PermissionView>, i: int, k: int)
    requires
        0 <= i <= k <= ps.len(),
    ensures
        blank_offset(ps, i) <= blank_offset(ps, k),
    decreases k - i,
{
    if i < k {
        lemma_blank_offset_mono(ps, i, k - 1);
        lemma_blank_offset_step(ps, k - 1);
    }
}

proof fn lemma_upto_step(o: OfferView, base: nat, i: int)
    requires
        0 <= i < o.permissions.len(),
    ensures
        offer_triples_upto(o, base, i + 1) == offer_triples_upto(o, base, i).union(
            permission_triples(o, base, i)).union(
            constraint_prefix(o, base, i, o.permissions[i].constraints.len() as int)),
{
    let a = offer_triples_upto(o, base, i + 1);
    let b = offer_triples_upto(o, base, i).union(permission_triples(o, base, i)).union(
        constraint_prefix(o, base, i, o.permissions[i].constraints.len() as int));
    assert forall|t: Triple| a.contains(t) implies b.contains(t) by {
        if header_triples(o).contains(t) {
        } else if exists|k: int| 0 <= k < i + 1 && #[trigger] permission_triples(o, base, k).contains(t) {
            let k = choose|k: int| 0 <= k < i + 1 && #[trigger] permission_triples(o, base, k).contains(t);
            if k < i {
                assert(offer_triples_upto(o, base, i).contains(t));
            }
        } else {
            let (k, j) = choose|k: int, j: int| 0 <= k < i + 1 && 0 <= j < o.permissions[k].constraints.len()
                && #[trigger] constraint_triples(o, base, k, j).contains(t);
            if k < i {
                assert(offer_triples_upto(o, base, i).contains(t));
            } else {
                assert(constraint_prefix(o, base, i, o.permissions[i].constraints.len() as int).contains(t));
            }
        }
    }
    assert forall|t: Triple| b.contains(t) implies a.contains(t) by {
        if offer_triples_upto(o, base, i).contains(t) {
            if header_triples(o).contains(t) {
            } else if exists|k: int| 0 <= k < i && #[trigger] permission_triples(o, base, k).contains(t) {
                let k = choose|k: int| 0 <= k < i && #[trigger] permission_triples(o, base, k).contains(t);
                assert(0 <= k < i + 1 && permission_triples(o, base, k).contains(t));
            } else {
                let (k, j) = choose|k: int, j: int| 0 <= k < i && 0 <= j < o.permissions[k].constraints.len()
                    && #[trigger] constraint_triples(o, base, k, j).contains(t);
                assert(0 <= k < i + 1 && 0 <= j < o.permissions[k].constraints.len()
                    && constraint_triples(o, base, k, j).contains(t));
            }
        } else if permission_triples(o, base, i).contains(t) {
        } else {
            let j = choose|jj: int| 0 <= jj < o.permissions[i].constraints.len()
                && #[trigger] constraint_triples(o, base, i, jj).contains(t);
            assert(0 <= i < i + 1 && 0 <= j < o.permissions[i].constraints.len()
                && constraint_triples(o, base, i, j).contains(t));
        }
    }
    assert(a =~= b);
}

impl ConfigGraph {
    /// Decomposes a [`FileOffer`] into RDF triples: `dcat:Dataset` and
    /// `dcat:Distribution` for the file's metadata, and an `odrl:Offer`
    /// policy whose permissions and constraints are fresh blank nodes, each
    /// carrying an explicit `ds:order`. Fails, adding nothing, exactly when
    /// an IRI it builds is invalid.
    pub fn seed_offer(&mut self, offer: &FileOffer) -> (r: Result<(), ConfigGraphError>)
        requires
            old(self).wf(),
            old(self).minted() + offer_blank_count(offer@) <= u64::MAX,
        ensures
            final(self).wf(),
            r is Ok <==> seed_iris_valid(offer@),
            r is Ok ==> final(self).triples() == old(self).triples().union(
                offer_triples(offer@, old(self).minted())),
            r is Ok ==> final(self).minted() == old(self).minted() + offer_blank_count(offer@),
            r matches Err(e) ==> e is Iri && final(self).triples() == old(self).triples()
                && final(self).minted() == old(self).minted(),
    {
        let iris = seed_iris(offer)?;
        let ghost o = offer@;
        let ghost base = self.minted();
        let ghost t0 = self.triples();
        self.insert_header(offer, &iris);
        assert(offer_triples_upto(o, base, 0) =~= header_triples(o));
        let n = offer.permissions.len();
        for i in 0..n
            invariant
                n == offer.permissions.len(),
                o == offer@,
                self.wf(),
                iris.names(o),
                seed_iris_valid(o),
                base + offer_blank_count(o) <= u64::MAX,
                self.minted() == base + blank_offset(o.permissions, i as int),
                self.triples() == t0.union(offer_triples_upto(o, base, i as int)),
        {
            proof {
                lemma_blank_offset_step(o.permissions, i as int);
                lemma_blank_offset_mono(o.permissions, i + 1, n as int);
                lemma_upto_step(o, base, i as int);
            }
            self.insert_permission(offer, &iris, i, Ghost(base), Ghost(t0));
            assert(self.triples() =~= t0.union(offer_triples_upto(o, base, i + 1)));
        }
        Ok(())
    }

    fn insert_header(&mut self, offer: &FileOffer, iris: &SeedIris)
        requires
            old(self).wf(),
            iris.names(offer@),
            seed_iris_valid(offer@),
        ensures
            final(self).wf(),
            final(self).triples() == old(self).triples().union(header_triples(offer@)),
            final(self).minted() == old(self).minted(),
    {
        let ghost t0 = self.triples();
        let dataset = NodeValue::Named(iris.dataset.clone());
        let distribution = NodeValue::Named(iris.distribution.clone());
        let policy = NodeValue::Named(iris.policy.clone());
        self.add(TripleValue { subject: dataset.clone_node(), predicate: iris.rdf_type.clone(),
            object: TermValue::Named(iris.dcat_dataset.clone()) });
        self.add(TripleValue { subject: dataset.clone_node(), predicate: iris.dcterms_title.clone(),
            object: lit(&offer.title) });
        self.add(TripleValue { subject: dataset.clone_node(), predicate: iris.dcat_distribution.clone(),
            object: TermValue::Named(iris.distribution.clone()) });
        self.add(TripleValue { subject: distribution.clone_node(), predicate: iris.rdf_type.clone(),
            object: TermValue::Named(iris.dcat_distribution_class.clone()) });
        self.add(TripleValue { subject: distribution.clone_node(), predicate: iris.ds_file_path.clone(),
            object: lit(&offer.file_path) });
        self.add(TripleValue { subject: distribution.clone_node(), predicate: iris.dcat_media_type.clone(),
            object: lit(&offer.media_type) });
        self.add(TripleValue { subject: policy.clone_node(), predicate: iris.rdf_type.clone(),
            object: TermValue::Named(iris.odrl_offer.clone()) });
        self.add(TripleValue { subject: policy.clone_node(), predicate: iris.odrl_target.clone(),
            object: TermValue::Named(iris.dataset.clone()) });
        self.add(TripleValue { subject: policy.clone_node(), predicate: iris.odrl_assigner.clone(),
            object: lit(&offer.assigner) });
        assert(self.triples() =~= t0.union(header_triples(offer@)));
    }

    fn insert_permission(&mut self, offer: &FileOffer, iris: &SeedIris, i: usize, Ghost(base): Ghost<nat>,
        Ghost(t0): Ghost<Set<Triple>>)
        requires
            old(self).wf(),
            iris.names(offer@),
            seed_iris_valid(offer@),
            i < offer.permissions.len(),
            old(self).minted() == base + blank_offset(offer@.permissions, i as int),
            base + blank_offset(offer@.permissions, i + 1) <= u64::MAX,
            old(self).triples() == t0.union(offer_triples_upto(offer@, base, i as int)),
        ensures
            final(self).wf(),
            final(self).minted() == base + blank_offset(offer@.permissions, i + 1),
            final(self).triples() == t0.union(offer_triples_upto(offer@, base, i as int)).union(
                permission_triples(offer@, base, i as int)).union(
                constraint_prefix(offer@, base, i as int, offer@.permissions[i as int].constraints.len() as int)),
    {
        let ghost o = offer@;
        let ghost before = self.triples();
        proof {
            lemma_blank_offset_step(o.permissions, i as int);
            assert(has_constraint(o) ==> iri_valid(ds_order()));
        }
        let perm = &offer.permissions[i];
        let p_label = self.mint();
        let ghost pk = base + blank_offset(o.permissions, i as int);
        assert(labels_below(triple(Node::Iri(policy_iri_of(o.dataset_id)), odrl_permission(),
            RdfTerm::Bnode(p_label@)), self.minted()));
        self.add(TripleValue { subject: NodeValue::Named(iris.policy.clone()), predicate: iris.odrl_permission.clone(),
            object: TermValue::Blank(p_label.clone()) });
        self.add(TripleValue { subject: NodeValue::Blank(p_label.clone()), predicate: iris.rdf_type.clone(),
            object: TermValue::Named(iris.odrl_permission_class.clone()) });
        proof {
            lemma_dec_canonical(i as nat);
        }
        self.add(TripleValue { subject: NodeValue::Blank(p_label.clone()), predicate: iris.ds_order.clone(),
            object: int_term(i as u64, &iris.xsd_integer) });
        self.add(TripleValue { subject: NodeValue::Blank(p_label.clone()), predicate: iris.odrl_action.clone(),
            object: lit(&perm.action) });
        assert(self.triples() =~= before.union(permission_triples(o, base, i as int)));
        assert(constraint_prefix(o, base, i as int, 0) =~= Set::<Triple>::empty());
        let m = perm.constraints.len();
        for j in 0..m
            invariant
                o == offer@,
                perm == &offer.permissions[i as int],
                m == perm.constraints.len(),
                i < offer.permissions.len(),
                self.wf(),
                iris.names(o),
                seed_iris_valid(o),
                p_label@ == blank_label(pk),
                pk == base + blank_offset(o.permissions, i as int),
                blank_offset(o.permissions, i + 1) == blank_offset(o.permissions, i as int) + 1 + m,
                base + blank_offset(o.permissions, i + 1) <= u64::MAX,
                self.minted() == pk + 1 + j,
                self.triples() == before.union(permission_triples(o, base, i as int)).union(
                    constraint_prefix(o, base, i as int, j as int)),
        {
            proof {
                assert(o.permissions[i as int].constraints.len() > 0);
                assert(has_constraint(o));
            }
            let c = &perm.constraints[j];
            let c_label = self.mint();
            let ghost ck = (pk + 1 + j) as nat;
            assert(labels_below(triple(Node::Bnode(p_label@), odrl_constraint(), RdfTerm::Bnode(c_label@)),
                self.minted())) by {
                assert(pk < self.minted() && p_label@ == blank_label(pk));
                assert(ck < self.minted() && c_label@ == blank_label(ck));
            }
            let ghost mid = self.triples();
            self.add(TripleValue { subject: NodeValue::Blank(p_label.clone()), predicate: iris.odrl_constraint.clone(),
                object: TermValue::Blank(c_label.clone()) });
            proof {
                lemma_dec_canonical(j as nat);
            }
            self.add(TripleValue { subject: NodeValue::Blank(c_label.clone()), predicate: iris.ds_order.clone(),
                object: int_term(j as u64, &iris.xsd_integer) });
            self.add(TripleValue { subject: NodeValue::Blank(c_label.clone()), predicate: iris.odrl_left_operand.clone(),
                object: lit(&c.left_operand) });
            self.add(TripleValue { subject: NodeValue::Blank(c_label.clone()), predicate: iris.odrl_operator.clone(),
                object: lit(&c.operator) });
            self.add(TripleValue { subject: NodeValue::Blank(c_label.clone()), predicate: iris.odrl_right_operand.clone(),
                object: lit(&c.right_operand) });
            proof {
                let cp = constraint_prefix(o, base, i as int, j as int);
                let cp2 = constraint_prefix(o, base, i as int, j + 1);
                let ct = constraint_triples(o, base, i as int, j as int);
                assert(self.triples() =~= mid.union(ct));
                assert forall|t: Triple| cp2.contains(t) implies cp.union(ct).contains(t) by {
                    let jj = choose|jj: int| 0 <= jj < j + 1 && #[trigger] constraint_triples(o, base, i as int, jj).contains(t);
                    if jj < j {
                        assert(cp.contains(t));
                    }
                }
                assert forall|t: Triple| cp.union(ct).contains(t) implies cp2.contains(t) by {
                    if cp.contains(t) {
                        let jj = choose|jj: int| 0 <= jj < j && #[trigger] constraint_triples(o, base, i as int, jj).contains(t);
                        assert(0 <= jj < j + 1 && constraint_triples(o, base, i as int, jj).contains(t));
                    } else {
                        assert(0 <= j < j + 1 && constraint_triples(o, base, i as int, j as int).contains(t));
                    }
                }
                assert(cp2 =~= cp.union(ct));
                assert(self.triples() =~= before.union(permission_triples(o, base, i as int)).union(cp2));
            }
        }
    }
}

/// The IRIs reading an offer back needs.
struct ReadIris {
    ds_file_path: String,
    dcat_media_type: String,
    odrl_target: String,
    odrl_assigner: String,
    odrl_permission: String,
    ds_order: String,
    odrl_action: String,
    odrl_constraint: String,
    odrl_left_operand: String,
    odrl_operator: String,
    odrl_right_operand: String,
    xsd_integer: String,
}

impl ReadIris {
    spec fn names(&self) -> bool {
        &&& self.ds_file_path@ == ds_file_path()
        &&& self.dcat_media_type@ == dcat_media_type()
        &&& self.odrl_target@ == odrl_target()
        &&& self.odrl_assigner@ == odrl_assigner()
        &&& self.odrl_permission@ == odrl_permission()
        &&& self.ds_order@ == ds_order()
        &&& self.odrl_action@ == odrl_action()
        &&& self.odrl_constraint@ == odrl_constraint()
        &&& self.odrl_left_operand@ == odrl_left_operand()
        &&& self.odrl_operator@ == odrl_operator()
        &&& self.odrl_right_operand@ == odrl_right_operand()
        &&& self.xsd_integer@ == xsd_integer_iri()
    }

    fn new() -> (r: ReadIris)
        ensures
            r.names(),
    {
        ReadIris {
            ds_file_path: ds("filePath"),
            dcat_media_type: dcat("mediaType"),
            odrl_target: odrl("target"),
            odrl_assigner: odrl("assigner"),
            odrl_permission: odrl("permission"),
            ds_order: ds("order"),
            odrl_action: odrl("action"),
            odrl_constraint: odrl("constraint"),
            odrl_left_operand: odrl("leftOperand"),
            odrl_operator: odrl("operator"),
            odrl_right_operand: odrl("rightOperand"),
            xsd_integer: xsd("integer"),
        }
    }
}

proof fn lemma_node_of_injective(a: RdfTerm, b: RdfTerm)
    requires
        node_of(a) is Some,
        node_of(a) == node_of(b),
    ensures
        a == b,
{
}

/// The text a single-valued read answers: the first object with text, or
/// `NotFound` when none has any.
pub fn text_or_not_found(objects: &Vec<TermValue>, dataset_id: &str) -> (r: Result<String, ConfigGraphError>)
    ensures
        match r {
            Ok(s) => first_text_of(term_views(objects@)) == Some(s@),
            Err(e) => first_text_of(term_views(objects@)) is None && (e matches ConfigGraphError::NotFound(d) && d@ == dataset_id@),
        },
{
    match first_text(objects) {
        Some(s) => Ok(s),
        None => Err(ConfigGraphError::NotFound(String::from_str(dataset_id))),
    }
}

impl ConfigGraph {
    /// The objects of the triples with this subject and predicate.
    fn objects(&self, subject: &NodeValue, predicate: &String) -> (r: Result<Vec<TermValue>, ConfigGraphError>)
        ensures
            r is Ok,
            r matches Ok(v) ==> term_views(v@).no_duplicates()
                && term_views(v@).to_set() == objects_of(self.triples(), subject@, predicate@),
    {
        match store_objects(&self.store, subject, predicate.as_str()) {
            Ok(v) => Ok(v),
            Err(e) => Err(ConfigGraphError::Storage(e)),
        }
    }

    /// The distribution's local file path, read back from the graph: the
    /// text of a `ds:filePath` object of the distribution; `NotFound` when
    /// it has none.
    pub fn file_path(&self, dataset_id: &str) -> (r: Result<String, ConfigGraphError>)
        ensures
            r matches Ok(p) ==> exists|o: RdfTerm| objects_of(self.triples(), Node::Iri(distribution_iri_of(dataset_id@)),
                ds_file_path()).contains(o) && text_of(o) == Some(p@),
            r matches Err(ConfigGraphError::NotFound(d)) ==> d@ == dataset_id@ && forall|o: RdfTerm|
                objects_of(self.triples(), Node::Iri(distribution_iri_of(dataset_id@)), ds_file_path()).contains(o)
                ==> text_of(o) is None,
            r matches Err(e) ==> e is NotFound,
            r is Ok <==> exists|o: RdfTerm| objects_of(self.triples(), Node::Iri(distribution_iri_of(dataset_id@)),
                ds_file_path()).contains(o) && text_of(o) is Some,
    {
        let iris = ReadIris::new();
        let subject = NodeValue::Named(distribution_iri(dataset_id));
        let objects = self.objects(&subject, &iris.ds_file_path)?;
        let r = text_or_not_found(&objects, dataset_id);
        proof { self.lemma_single_text(objects@, r, subject@, ds_file_path()); }
        r
    }

    /// The distribution's media type, read back from the graph: the text
    /// of a `dcat:mediaType` object of the distribution; `NotFound` when it
    /// has none.
    pub fn media_type(&self, dataset_id: &str) -> (r: Result<String, ConfigGraphError>)
        ensures
            r matches Ok(m) ==> exists|o: RdfTerm| objects_of(self.triples(), Node::Iri(distribution_iri_of(dataset_id@)),
                dcat_media_type()).contains(o) && text_of(o) == Some(m@),
            r matches Err(ConfigGraphError::NotFound(d)) ==> d@ == dataset_id@ && forall|o: RdfTerm|
                objects_of(self.triples(), Node::Iri(distribution_iri_of(dataset_id@)), dcat_media_type()).contains(o)
                ==> text_of(o) is None,
            r matches Err(e) ==> e is NotFound,
            r is Ok <==> exists|o: RdfTerm| objects_of(self.triples(), Node::Iri(distribution_iri_of(dataset_id@)),
                dcat_media_type()).contains(o) && text_of(o) is Some,
    {
        let iris = ReadIris::new();
        let subject = NodeValue::Named(distribution_iri(dataset_id));
        let objects = self.objects(&subject, &iris.dcat_media_type)?;
        let r = text_or_not_found(&objects, dataset_id);
        proof { self.lemma_single_text(objects@, r, subject@, dcat_media_type()); }
        r
    }

    proof fn lemma_single_text(&self, objects: Seq<TermValue>, r: Result<String, ConfigGraphError>, s: Node, p: Seq<char>)
        requires
            term_views(objects).to_set() == objects_of(self.triples(), s, p),
            match r {
                Ok(x) => first_text_of(term_views(objects)) == Some(x@),
                Err(e) => first_text_of(term_views(objects)) is None,
            },
        ensures
            r matches Ok(x) ==> exists|o: RdfTerm| objects_of(self.triples(), s, p).contains(o) && text_of(o) == Some(x@),
            r is Err ==> forall|o: RdfTerm| objects_of(self.triples(), s, p).contains(o) ==> text_of(o) is None,
    {
        let tv = term_views(objects);
        lemma_first_text(tv);
        if let Ok(x) = r {
            let k = choose|k: int| 0 <= k < tv.len() && text_of(tv[k]) == Some(x@);
            assert(tv.to_set().contains(tv[k]));
        } else {
            assert forall|o: RdfTerm| objects_of(self.triples(), s, p).contains(o) implies text_of(o) is None by {
                assert(tv.to_set().contains(o));
            }
        }
    }

    /// Reads one constraint node: its order, left operand, operator and
    /// right operand; `None` when it lacks one of them.
    fn read_constraint(&self, c: &NodeValue, iris: &ReadIris) -> (r: Result<Option<(u64, ConstraintSpec)>, ConfigGraphError>)
        requires
            iris.names(),
        ensures
            r is Ok,
            r matches Ok(Some(e)) ==> readable_constraint(self.triples(), c@) && constraint_read(self.triples(), c@, e.0, e.1@),
            r matches Ok(None) ==> !readable_constraint(self.triples(), c@),
    {
        let g = Ghost(self.triples());
        let orders = self.objects(c, &iris.ds_order)?;
        let k = match first_integer(&orders, &iris.xsd_integer) {
            Some(k) => k,
            None => {
                assert forall|k: u64| !objects_of(g@, c@, ds_order()).contains(integer(k as nat)) by {
                    assert(!term_views(orders@).contains(integer(k as nat)));
                }
                return Ok(None);
            },
        };
        let lefts = self.objects(c, &iris.odrl_left_operand)?;
        let left = match first_text(&lefts) {
            Some(l) => l,
            None => {
                assert forall|l: RdfTerm| objects_of(g@, c@, odrl_left_operand()).contains(l) implies text_of(l) is None by {
                    assert(term_views(lefts@).to_set().contains(l));
                    let m = choose|m: int| 0 <= m < term_views(lefts@).len() && term_views(lefts@)[m] == l;
                    assert(lefts@[m]@ == l);
                }
                return Ok(None);
            },
        };
        let ops = self.objects(c, &iris.odrl_operator)?;
        let rights = self.objects(c, &iris.odrl_right_operand)?;
        if ops.len() == 0 || rights.len() == 0 {
            assert(term_views(ops@).len() == 0 || term_views(rights@).len() == 0);
            assert forall|x: RdfTerm| !(term_views(ops@).len() == 0 && objects_of(g@, c@, odrl_operator()).contains(x)) by {
                if term_views(ops@).len() == 0 && objects_of(g@, c@, odrl_operator()).contains(x) {
                    assert(term_views(ops@).to_set().contains(x));
                }
            }
            assert forall|x: RdfTerm| !(term_views(rights@).len() == 0 && objects_of(g@, c@, odrl_right_operand()).contains(x)) by {
                if term_views(rights@).len() == 0 && objects_of(g@, c@, odrl_right_operand()).contains(x) {
                    assert(term_views(rights@).to_set().contains(x));
                }
            }
            return Ok(None);
        }
        let op = first_text_or_empty(&ops);
        let right = first_text_or_empty(&rights);
        proof {
            assert(term_views(orders@).to_set().contains(integer(k as nat)));
            let m = choose|m: int| 0 <= m < lefts@.len() && text_of(#[trigger] lefts@[m]@) == Some(left@);
            assert(term_views(lefts@)[m] == lefts@[m]@);
            assert(term_views(lefts@).to_set().contains(lefts@[m]@));
            assert(term_views(ops@)[0] == ops@[0]@);
            assert(term_views(ops@).to_set().contains(ops@[0]@));
            assert(term_views(rights@)[0] == rights@[0]@);
            assert(term_views(rights@).to_set().contains(rights@[0]@));
        }
        Ok(Some((k, ConstraintSpec { left_operand: left, operator: op, right_operand: right })))
    }
}

/// Splits keyed entries into their payloads, in order, and their keys with
/// nodes.
fn split_entries<T>(v: Vec<(u64, (NodeValue, T))>) -> (r: (Vec<T>, Ghost<Seq<(u64, Node)>>))
    ensures
        r.0@ == v@.map_values(|e: (u64, (NodeValue, T))| e.1.1),
        r.1@ == v@.map_values(|e: (u64, (NodeValue, T))| (e.0, e.1.0@)),
{
    let ghost orig = v@;
    let mut rest = v;
    let mut out: Vec<T> = Vec::new();
    let ghost mut keys: Seq<(u64, Node)> = Seq::empty();
    while rest.len() > 0
        invariant
            out@.len() + rest@.len() == orig.len(),
            rest@ == orig.subrange(out@.len() as int, orig.len() as int),
            out@ == orig.subrange(0, out@.len() as int).map_values(|e: (u64, (NodeValue, T))| e.1.1),
            keys == orig.subrange(0, out@.len() as int).map_values(|e: (u64, (NodeValue, T))| (e.0, e.1.0@)),
        decreases rest.len(),
    {
        let ghost done = out@.len() as int;
        let e = rest.remove(0);
        assert(e == orig[done]);
        proof {
            keys = keys.push((e.0, e.1.0@));
        }
        out.push(e.1.1);
        assert(orig.subrange(0, done + 1) =~= orig.subrange(0, done).push(e));
        assert(out@ =~= orig.subrange(0, done + 1).map_values(|e: (u64, (NodeValue, T))| e.1.1));
        assert(keys =~= orig.subrange(0, done + 1).map_values(|e: (u64, (NodeValue, T))| (e.0, e.1.0@)));
        assert(rest@ =~= orig.subrange(done + 1, orig.len() as int));
    }
    assert(orig.subrange(0, orig.len() as int) =~= orig);
    (out, Ghost(keys))
}

proof fn lemma_node_term_of(c: Node, t: RdfTerm)
    ensures
        node_of(node_term(c)) == Some(c),
        node_of(t) == Some(c) ==> t == node_term(c),
{
}

/// Sorting entries and splitting them gives a listing of the same nodes,
/// ordered by key, whose payloads line up with the keys and nodes.
proof fn lemma_sorted_listing<T>(entries: Seq<(u64, (NodeValue, T))>, sorted: Seq<(u64, (NodeValue, T))>,
    out: Seq<T>, es: Seq<(u64, Node)>)
    requires
        sorted_by_key(sorted),
        sorted.to_multiset() == entries.to_multiset(),
        entries.map_values(|e: (u64, (NodeValue, T))| e.1.0@).no_duplicates(),
        out == sorted.map_values(|e: (u64, (NodeValue, T))| e.1.1),
        es == sorted.map_values(|e: (u64, (NodeValue, T))| (e.0, e.1.0@)),
    ensures
        keys_sorted(es),
        entry_nodes(es).no_duplicates(),
        entry_nodes(es).to_set() == entries.map_values(|e: (u64, (NodeValue, T))| e.1.0@).to_set(),
        es.len() == out.len(),
        forall|i: int| 0 <= i < es.len() ==> #[trigger] entries.contains(sorted[i]) && es[i] == (sorted[i].0, sorted[i].1.0@)
            && out[i] == sorted[i].1.1,
{
    let f = |e: (u64, (NodeValue, T))| e.1.0@;
    lemma_rearranged_projection(entries, sorted, f);
    assert(entry_nodes(es) =~= sorted.map_values(f));
    assert forall|i: int, j: int| 0 <= i <= j < es.len() implies #[trigger] es[i].0 <= #[trigger] es[j].0 by {
        assert(sorted[i].0 <= sorted[j].0);
    }
}

/// `entries` holds, once each and read by `read`, every node named among the
/// first `n` terms of `tv` that `readable` accepts, and nothing else.
#[verifier::opaque]
spec fn collected<T>(tv: Seq<RdfTerm>, n: int, entries: Seq<(u64, (NodeValue, T))>,
    readable: spec_fn(Node) -> bool, read: spec_fn(Node, u64, T) -> bool) -> bool {
    &&& entries.map_values(|e: (u64, (NodeValue, T))| e.1.0@).no_duplicates()
    &&& forall|m: int| 0 <= m < entries.len() ==> {
        &&& readable(#[trigger] entries[m].1.0@)
        &&& read(entries[m].1.0@, entries[m].0, entries[m].1.1)
        &&& exists|q: int| 0 <= q < n && node_of(#[trigger] tv[q]) == Some(entries[m].1.0@)
    }
    &&& forall|q: int| 0 <= q < n && #[trigger] node_of(tv[q]) is Some && readable(node_of(tv[q]).unwrap()) ==>
        exists|m: int| 0 <= m < entries.len() && entries[m].1.0@ == node_of(tv[q]).unwrap()
}

proof fn lemma_collected_start<T>(tv: Seq<RdfTerm>, readable: spec_fn(Node) -> bool, read: spec_fn(Node, u64, T) -> bool)
    ensures
        collected(tv, 0, Seq::<(u64, (NodeValue, T))>::empty(), readable, read),
{
    reveal(collected);
    assert(Seq::<(u64, (NodeValue, T))>::empty().map_values(|e: (u64, (NodeValue, T))| e.1.0@) =~= Seq::empty());
}

proof fn lemma_collected_skip<T>(tv: Seq<RdfTerm>, n: int, entries: Seq<(u64, (NodeValue, T))>,
    readable: spec_fn(Node) -> bool, read: spec_fn(Node, u64, T) -> bool)
    requires
        0 <= n < tv.len(),
        collected(tv, n, entries, readable, read),
        node_of(tv[n]) is None || !readable(node_of(tv[n]).unwrap()),
    ensures
        collected(tv, n + 1, entries, readable, read),
{
    reveal(collected);
    assert forall|m: int| 0 <= m < entries.len() implies
        exists|q: int| 0 <= q < n + 1 && node_of(#[trigger] tv[q]) == Some(#[trigger] entries[m].1.0@) by {
        let q = choose|q: int| 0 <= q < n && node_of(#[trigger] tv[q]) == Some(entries[m].1.0@);
    }
}

proof fn lemma_collected_push<T>(tv: Seq<RdfTerm>, n: int, entries: Seq<(u64, (NodeValue, T))>,
    readable: spec_fn(Node) -> bool, read: spec_fn(Node, u64, T) -> bool, e: (u64, (NodeValue, T)))
    requires
        0 <= n < tv.len(),
        tv.no_duplicates(),
        collected(tv, n, entries, readable, read),
        node_of(tv[n]) == Some(e.1.0@),
        readable(e.1.0@),
        read(e.1.0@, e.0, e.1.1),
    ensures
        collected(tv, n + 1, entries.push(e), readable, read),
{
    reveal(collected);
    let f = |x: (u64, (NodeValue, T))| x.1.0@;
    let c = e.1.0@;
    let after = entries.push(e);
    assert forall|m: int| 0 <= m < entries.len() implies entries[m].1.0@ != c by {
        let q = choose|q: int| 0 <= q < n && node_of(#[trigger] tv[q]) == Some(entries[m].1.0@);
        if entries[m].1.0@ == c {
            lemma_node_of_injective(tv[q], tv[n]);
        }
    }
    assert(after.map_values(f) =~= entries.map_values(f).push(c));
    assert forall|m: int| 0 <= m < after.len() implies {
        &&& readable(#[trigger] after[m].1.0@)
        &&& read(after[m].1.0@, after[m].0, after[m].1.1)
        &&& exists|q: int| 0 <= q < n + 1 && node_of(#[trigger] tv[q]) == Some(after[m].1.0@)
    } by {
        if m < entries.len() {
            assert(after[m] == entries[m]);
            let q = choose|q: int| 0 <= q < n && node_of(#[trigger] tv[q]) == Some(entries[m].1.0@);
        } else {
            assert(node_of(tv[n]) == Some(after[m].1.0@));
        }
    }
    assert forall|q: int| 0 <= q < n + 1 && #[trigger] node_of(tv[q]) is Some && readable(node_of(tv[q]).unwrap()) implies
        exists|m: int| 0 <= m < after.len() && after[m].1.0@ == node_of(tv[q]).unwrap() by {
        if q < n {
            let m = choose|m: int| 0 <= m < entries.len() && entries[m].1.0@ == node_of(tv[q]).unwrap();
            assert(after[m] == entries[m]);
        } else {
            assert(after[entries.len() as int].1.0@ == c);
        }
    }
}

proof fn lemma_collected_finish<T>(tv: Seq<RdfTerm>, entries: Seq<(u64, (NodeValue, T))>,
    readable: spec_fn(Node) -> bool, read: spec_fn(Node, u64, T) -> bool, objs: Set<RdfTerm>)
    requires
        collected(tv, tv.len() as int, entries, readable, read),
        tv.to_set() == objs,
    ensures
        entries.map_values(|e: (u64, (NodeValue, T))| e.1.0@).no_duplicates(),
        entries.map_values(|e: (u64, (NodeValue, T))| e.1.0@).to_set()
            == Set::new(|c: Node| objs.contains(node_term(c)) && readable(c)),
        forall|m: int| 0 <= m < entries.len() ==> #[trigger] read(entries[m].1.0@, entries[m].0, entries[m].1.1),
{
    reveal(collected);
    let f = |e: (u64, (NodeValue, T))| e.1.0@;
    let target = Set::new(|c: Node| objs.contains(node_term(c)) && readable(c));
    assert forall|c: Node| entries.map_values(f).to_set().contains(c) <==> target.contains(c) by {
        lemma_node_term_of(c, node_term(c));
        if entries.map_values(f).to_set().contains(c) {
            let m = choose|m: int| 0 <= m < entries.len() && entries.map_values(f)[m] == c;
            assert(entries[m].1.0@ == c);
            let q = choose|q: int| 0 <= q < tv.len() && node_of(#[trigger] tv[q]) == Some(entries[m].1.0@);
            lemma_node_term_of(c, tv[q]);
            assert(tv.to_set().contains(tv[q]));
        }
        if target.contains(c) {
            assert(tv.to_set().contains(node_term(c)));
            let q = choose|q: int| 0 <= q < tv.len() && tv[q] == node_term(c);
            assert(node_of(tv[q]) == Some(c));
            let m = choose|m: int| 0 <= m < entries.len() && entries[m].1.0@ == node_of(tv[q]).unwrap();
            assert(entries.map_values(f)[m] == c);
        }
    }
    assert(entries.map_values(f).to_set() =~= target);
    assert forall|m: int| 0 <= m < entries.len() implies #[trigger] read(entries[m].1.0@, entries[m].0, entries[m].1.1) by {
        assert(readable(entries[m].1.0@));
    }
}

impl ConfigGraph {
    /// Reads every constraint node of permission `p`, ordered by
    /// `ds:order`, with the keys and nodes they were read from.
    fn read_constraints(&self, p: &NodeValue, iris: &ReadIris)
        -> (r: Result<(Vec<ConstraintSpec>, Ghost<Seq<(u64, Node)>>), ConfigGraphError>)
        requires
            iris.names(),
        ensures
            r matches Ok((v, es)) ==> {
                &&& lists_sorted(es@, constraint_nodes(self.triples(), p@))
                &&& es@.len() == v@.len()
                &&& forall|i: int| 0 <= i < es@.len() ==> constraint_read(self.triples(), #[trigger] es@[i].1, es@[i].0, v@[i]@)
            },
            r is Ok,
    {
        let ghost g = self.triples();
        let ghost readable = |c: Node| readable_constraint(g, c);
        let ghost read = |c: Node, k: u64, x: ConstraintSpec| constraint_read(g, c, k, x@);
        let objs = self.objects(p, &iris.odrl_constraint)?;
        let ghost tv = term_views(objs@);
        let mut entries: Vec<(u64, (NodeValue, ConstraintSpec))> = Vec::new();
        proof { lemma_collected_start(tv, readable, read); }
        for idx in 0..objs.len()
            invariant
                g == self.triples(),
                iris.names(),
                tv == term_views(objs@),
                tv.no_duplicates(),
                readable == (|c: Node| readable_constraint(g, c)),
                read == (|c: Node, k: u64, x: ConstraintSpec| constraint_read(g, c, k, x@)),
                collected(tv, idx as int, entries@, readable, read),
        {
            assert(tv[idx as int] == objs@[idx as int]@);
            let mut added = false;
            if let Some(c) = node_value(&objs[idx]) {
                if let Some((k, spec)) = self.read_constraint(&c, iris)? {
                    proof { lemma_collected_push(tv, idx as int, entries@, readable, read, (k, (c, spec))); }
                    entries.push((k, (c, spec)));
                    added = true;
                }
            }
            if !added {
                proof { lemma_collected_skip(tv, idx as int, entries@, readable, read); }
            }
        }
        let ghost unsorted = entries@;
        proof {
            lemma_collected_finish(tv, unsorted, readable, read, objects_of(g, p@, odrl_constraint()));
            assert(Set::new(|c: Node| objects_of(g, p@, odrl_constraint()).contains(node_term(c)) && readable(c))
                =~= constraint_nodes(g, p@));
        }
        let sorted = sort_by_key(entries);
        let ghost sorted_view = sorted@;
        let (out, es) = split_entries(sorted);
        proof {
            lemma_sorted_listing(unsorted, sorted_view, out@, es@);
            assert forall|i: int| 0 <= i < es@.len() implies constraint_read(g, #[trigger] es@[i].1, es@[i].0, out@[i]@) by {
                assert(unsorted.contains(sorted_view[i]));
                let m = choose|m: int| 0 <= m < unsorted.len() && unsorted[m] == sorted_view[i];
                assert(read(unsorted[m].1.0@, unsorted[m].0, unsorted[m].1.1));
            }
        }
        Ok((out, es))
    }
}

impl ConfigGraph {
    /// Reads one permission node: its order, its action and its
    /// constraints; `None` when it lacks an order or an action.
    fn read_permission(&self, p: &NodeValue, iris: &ReadIris) -> (r: Result<Option<(u64, PermissionSpec)>, ConfigGraphError>)
        requires
            iris.names(),
        ensures
            r matches Ok(Some(e)) ==> readable_permission(self.triples(), p@) && permission_read(self.triples(), p@, e.0, e.1@),
            r matches Ok(None) ==> !readable_permission(self.triples(), p@),
            r is Ok,
    {
        let ghost g = self.triples();
        let orders = self.objects(p, &iris.ds_order)?;
        let k = match first_integer(&orders, &iris.xsd_integer) {
            Some(k) => k,
            None => {
                assert forall|k: u64| !objects_of(g, p@, ds_order()).contains(integer(k as nat)) by {
                    assert(!term_views(orders@).contains(integer(k as nat)));
                }
                return Ok(None);
            },
        };
        let actions = self.objects(p, &iris.odrl_action)?;
        if actions.len() == 0 {
            assert forall|a: RdfTerm| !objects_of(g, p@, odrl_action()).contains(a) by {
                if objects_of(g, p@, odrl_action()).contains(a) {
                    assert(term_views(actions@).to_set().contains(a));
                }
            }
            return Ok(None);
        }
        let action = first_text_or_empty(&actions);
        let (constraints, es) = self.read_constraints(p, iris)?;
        let perm = PermissionSpec { action, constraints };
        proof {
            assert(term_views(orders@).to_set().contains(integer(k as nat)));
            assert(term_views(actions@)[0] == actions@[0]@);
            assert(term_views(actions@).to_set().contains(actions@[0]@));
            assert forall|i: int| 0 <= i < es@.len() implies constraint_read(g, #[trigger] es@[i].1, es@[i].0,
                perm@.constraints[i]) by {
                assert(perm@.constraints[i] == perm.constraints@[i]@);
            }
        }
        Ok(Some((k, perm)))
    }

    /// Reconstructs the dataset's ODRL policy as a JSON-LD document: its IRI,
    /// target and assigner, and its permissions with their constraints, both
    /// ordered by their recorded `ds:order`. `NotFound` when the graph holds
    /// no target or no assigner for the policy.
    pub fn policy_jsonld(&self, dataset_id: &str) -> (r: Result<PolicyDocument, ConfigGraphError>)
        ensures
            r matches Ok(doc) ==> policy_read(self.triples(), dataset_id@, doc@),
            r matches Err(ConfigGraphError::NotFound(d)) ==> d@ == dataset_id@ && !has_policy(self.triples(), dataset_id@),
            r is Ok <==> has_policy(self.triples(), dataset_id@),
            r matches Err(e) ==> e is NotFound,
    {
        let ghost g = self.triples();
        let iris = ReadIris::new();
        let policy_id = policy_iri(dataset_id);
        let policy = NodeValue::Named(policy_id.clone());
        let targets = self.objects(&policy, &iris.odrl_target)?;
        let assigners = self.objects(&policy, &iris.odrl_assigner)?;
        if targets.len() == 0 || assigners.len() == 0 {
            proof {
                assert(term_views(targets@).len() == 0 || term_views(assigners@).len() == 0);
                if has_policy(g, dataset_id@) {
                    let t = choose|t: RdfTerm| objects_of(g, policy@, odrl_target()).contains(t);
                    let a = choose|a: RdfTerm| objects_of(g, policy@, odrl_assigner()).contains(a);
                    assert(term_views(targets@).to_set().contains(t));
                    assert(term_views(assigners@).to_set().contains(a));
                }
            }
            return Err(ConfigGraphError::NotFound(String::from_str(dataset_id)));
        }
        let target = first_text_or_empty(&targets);
        let assigner = first_text_or_empty(&assigners);
        let ghost readable = |c: Node| readable_permission(g, c);
        let ghost read = |c: Node, k: u64, x: PermissionSpec| permission_read(g, c, k, x@);
        let objs = self.objects(&policy, &iris.odrl_permission)?;
        let ghost tv = term_views(objs@);
        let mut entries: Vec<(u64, (NodeValue, PermissionSpec))> = Vec::new();
        proof { lemma_collected_start(tv, readable, read); }
        for idx in 0..objs.len()
            invariant
                g == self.triples(),
                iris.names(),
                tv == term_views(objs@),
                tv.no_duplicates(),
                readable == (|c: Node| readable_permission(g, c)),
                read == (|c: Node, k: u64, x: PermissionSpec| permission_read(g, c, k, x@)),
                collected(tv, idx as int, entries@, readable, read),
        {
            assert(tv[idx as int] == objs@[idx as int]@);
            let mut added = false;
            if let Some(p) = node_value(&objs[idx]) {
                if let Some((k, perm)) = self.read_permission(&p, &iris)? {
                    proof { lemma_collected_push(tv, idx as int, entries@, readable, read, (k, (p, perm))); }
                    entries.push((k, (p, perm)));
                    added = true;
                }
            }
            if !added {
                proof { lemma_collected_skip(tv, idx as int, entries@, readable, read); }
            }
        }
        let ghost unsorted = entries@;
        proof {
            lemma_collected_finish(tv, unsorted, readable, read, objects_of(g, policy@, odrl_permission()));
            assert(Set::new(|c: Node| objects_of(g, policy@, odrl_permission()).contains(node_term(c)) && readable(c))
                =~= permission_nodes(g, dataset_id@));
        }
        let sorted = sort_by_key(entries);
        let ghost sorted_view = sorted@;
        let (permissions, es) = split_entries(sorted);
        let doc = PolicyDocument {
            context: String::from_str(ODRL_CONTEXT),
            id: policy_id,
            policy_type: String::from_str("Offer"),
            target,
            assigner,
            permissions,
        };
        proof {
            lemma_sorted_listing(unsorted, sorted_view, doc.permissions@, es@);
            assert forall|i: int| 0 <= i < es@.len() implies permission_read(g, #[trigger] es@[i].1, es@[i].0,
                doc@.permissions[i]) by {
                assert(unsorted.contains(sorted_view[i]));
                let m = choose|m: int| 0 <= m < unsorted.len() && unsorted[m] == sorted_view[i];
                assert(read(unsorted[m].1.0@, unsorted[m].0, unsorted[m].1.1));
                assert(doc@.permissions[i] == doc.permissions@[i]@);
            }
            assert(term_views(targets@)[0] == targets@[0]@);
            assert(term_views(targets@).to_set().contains(targets@[0]@));
            assert(term_views(assigners@)[0] == assigners@[0]@);
            assert(term_views(assigners@).to_set().contains(assigners@[0]@));
            assert(lists_sorted(es@, permission_nodes(g, dataset_id@)));
            assert(es@.len() == doc@.permissions.len());
            assert(doc@.context == ODRL_CONTEXT@);
            assert(doc@.id == policy_iri_of(dataset_id@));
            assert(doc@.policy_type == "Offer"@);
        }
        Ok(doc)
    }
}

proof fn lemma_first_text(s: Seq<RdfTerm>)
    ensures
        first_text_of(s) matches Some(x) ==> exists|k: int| 0 <= k < s.len() && text_of(s[k]) == Some(x),
        first_text_of(s) is None ==> forall|k: int| 0 <= k < s.len() ==> text_of(s[k]) is None,
    decreases s.len(),
{
    if s.len() > 0 {
        lemma_first_text(s.drop_first());
        if text_of(s[0]) is None {
            if let Some(x) = first_text_of(s) {
                let k = choose|k: int| 0 <= k < s.drop_first().len() && text_of(s.drop_first()[k]) == Some(x);
                assert(text_of(s[k + 1]) == Some(x));
            } else {
                assert forall|k: int| 0 <= k < s.len() implies text_of(s[k]) is None by {
                    if k > 0 {
                        assert(s[k] == s.drop_first()[k - 1]);
                    }
                }
            }
        }
    }
}

/// Checks an IRI, reporting an invalid one as a graph error.
fn checked(iri: &String) -> (r: Result<(), ConfigGraphError>)
    ensures
        r is Ok <==> iri_valid(iri@),
        r matches Err(e) ==> e is Iri,
{
    match check_iri(iri.as_str()) {
        Ok(()) => Ok(()),
        Err(e) => Err(ConfigGraphError::Iri(e)),
    }
}

} // verus!
