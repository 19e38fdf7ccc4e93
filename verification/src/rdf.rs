//! RDF terms and triples as plain values, and the embedded Oxigraph store
//! that holds them.
//!
//! The store is an outside collection: its contents are named by
//! [`store_triples`], the set of triples of its default graph, and each
//! operation this library performs on it is a trusted wrapper whose contract
//! states what it does to that set.

use vstd::prelude::*;
use oxigraph::model::{
    BlankNode, BlankNodeRef, GraphName, GraphNameRef, IriParseError, Literal, NamedNode,
    NamedNodeRef, NamedOrBlankNode, NamedOrBlankNodeRef, Quad, Term,
};
use oxigraph::store::{StorageError, Store};
use crate::decimal::{dec, is_canonical_decimal};

verus! {

#[verifier::external_type_specification]
#[verifier::external_body]
pub struct ExStore(Store);

#[verifier::external_type_specification]
#[verifier::external_body]
pub struct ExStorageError(StorageError);

#[verifier::external_type_specification]
#[verifier::external_body]
pub struct ExIriParseError(IriParseError);

/// A subject node, as a mathematical value.
pub enum Node {
    Iri(Seq<char>),
    Bnode(Seq<char>),
}

/// An RDF term, as a mathematical value. A literal is its lexical form, its
/// datatype IRI unless it is a simple string, and its language tag if it has
/// one.
pub enum RdfTerm {
    Iri(Seq<char>),
    Bnode(Seq<char>),
    Lit(Seq<char>, Option<Seq<char>>, Option<Seq<char>>),
}

/// A triple of the default graph, as a mathematical value.
pub struct Triple {
    pub subject: Node,
    pub predicate: Seq<char>,
    pub object: RdfTerm,
}

/// A subject node: an IRI or a blank node label.
pub enum NodeValue {
    Named(String),
    Blank(String),
}

/// An RDF term: an IRI, a blank node label, or a literal given by its
/// lexical form, its datatype IRI (absent for a simple string) and its
/// language tag (if any).
pub enum TermValue {
    Named(String),
    Blank(String),
    Literal(String, Option<String>, Option<String>),
}

/// One triple of the default graph.
pub struct TripleValue {
    pub subject: NodeValue,
    pub predicate: String,
    pub object: TermValue,
}

pub open spec fn opt_view(o: Option<String>) -> Option<Seq<char>> {
    match o {
        Some(s) => Some(s@),
        None => None,
    }
}

impl View for NodeValue {
    type V = Node;

    open spec fn view(&self) -> Node {
        match self {
            NodeValue::Named(i) => Node::Iri(i@),
            NodeValue::Blank(b) => Node::Bnode(b@),
        }
    }
}

impl View for TermValue {
    type V = RdfTerm;

    open spec fn view(&self) -> RdfTerm {
        match self {
            TermValue::Named(i) => RdfTerm::Iri(i@),
            TermValue::Blank(b) => RdfTerm::Bnode(b@),
            TermValue::Literal(v, d, l) => RdfTerm::Lit(v@, opt_view(*d), opt_view(*l)),
        }
    }
}

impl View for TripleValue {
    type V = Triple;

    open spec fn view(&self) -> Triple {
        Triple { subject: self.subject@, predicate: self.predicate@, object: self.object@ }
    }
}

impl NodeValue {
    pub fn clone_node(&self) -> (r: NodeValue)
        ensures
            r@ == self@,
    {
        match self {
            NodeValue::Named(i) => NodeValue::Named(i.clone()),
            NodeValue::Blank(b) => NodeValue::Blank(b.clone()),
        }
    }
}

/// The IRI of the XML Schema integer datatype.
pub open spec fn xsd_integer_iri() -> Seq<char> {
    crate::vocab::XSD@ + "integer"@
}

/// The blank node label this library mints for its `k`-th blank node: the
/// letter `b` followed by `k` in decimal, a valid blank node label.
pub open spec fn blank_label(k: nat) -> Seq<char> {
    seq!['b'] + dec(k)
}

pub open spec fn is_minted_label(l: Seq<char>) -> bool {
    exists|k: nat| l == blank_label(k)
}

/// Whether a string is a valid IRI, as Oxigraph's `NamedNode::new` decides
/// it (RFC 3987, checked by the `oxiri` crate).
pub uninterp spec fn iri_valid(iri: Seq<char>) -> bool;

/// The triples held by the default graph of a store.
pub uninterp spec fn store_triples(store: Store) -> Set<Triple>;

/// A triple this library may hand to the store and read back unchanged:
/// every IRI in it is valid, every blank node carries a label of the form
/// [`blank_label`], and every literal is either a simple string or an
/// `xsd:integer` in canonical decimal form (the only typed literal whose
/// stored form Oxigraph keeps exactly as written).
pub open spec fn insertable(t: Triple) -> bool {
    &&& match t.subject {
        Node::Iri(i) => iri_valid(i),
        Node::Bnode(b) => is_minted_label(b),
    }
    &&& iri_valid(t.predicate)
    &&& match t.object {
        RdfTerm::Iri(i) => iri_valid(i),
        RdfTerm::Bnode(b) => is_minted_label(b),
        RdfTerm::Lit(v, d, l) => l is None && (d matches Some(dt) ==> dt == xsd_integer_iri()
            && is_canonical_decimal(v)),
    }
}

/// The objects of the triples with the given subject and predicate.
pub open spec fn objects_of(triples: Set<Triple>, subject: Node, predicate: Seq<char>) -> Set<RdfTerm> {
    Set::new(|o: RdfTerm| triples.contains(Triple { subject, predicate, object: o }))
}

pub open spec fn term_views(v: Seq<TermValue>) -> Seq<RdfTerm> {
    v.map_values(|t: TermValue| t@)
}

/// Checks an IRI with Oxigraph's `NamedNode::new`, which validates it with
/// `oxiri` and fails with an `IriParseError` on an invalid one.
#[verifier::external_body]
pub fn check_iri(iri: &str) -> (r: Result<(), IriParseError>)
    ensures
        r is Ok <==> iri_valid(iri@),
{
    NamedNode::new(iri).map(|_| ())
}

/// The text of an IRI error (its `Display`).
#[verifier::external_body]
pub fn iri_error_text(e: &IriParseError) -> String {
    e.to_string()
}

/// The text of a storage error (its `Display`).
#[verifier::external_body]
pub fn storage_error_text(e: &StorageError) -> String {
    e.to_string()
}

/// Opens an empty in-memory store with Oxigraph's `Store::new`. Built
/// without RocksDB, the store is in memory only, and its source returns
/// `Ok` unconditionally.
#[verifier::external_body]
pub fn store_new() -> (r: Result<Store, StorageError>)
    ensures
        r is Ok,
        r matches Ok(s) ==> store_triples(s) == Set::<Triple>::empty(),
{
    Store::new()
}

/// Adds a triple to the default graph with Oxigraph's `Store::insert`. In
/// memory, its transaction cannot fail (the source returns `Ok` from both its
/// start and its commit). Oxigraph stores a simple string and a canonical
/// `xsd:integer` so that reading them back gives the same lexical form, and
/// compares blank nodes by their label, so the stored set grows by exactly
/// this triple.
#[verifier::external_body]
pub fn store_insert(store: &mut Store, t: TripleValue) -> (r: Result<(), StorageError>)
    requires
        insertable(t@),
    ensures
        r is Ok,
        store_triples(*final(store)) == store_triples(*old(store)).insert(t@),
{
    let TripleValue { subject, predicate, object } = t;
    let s: NamedOrBlankNode = match subject {
        NodeValue::Named(i) => NamedNode::new_unchecked(i).into(),
        NodeValue::Blank(b) => BlankNode::new_unchecked(b).into(),
    };
    let o: Term = match object {
        TermValue::Named(i) => NamedNode::new_unchecked(i).into(),
        TermValue::Blank(b) => BlankNode::new_unchecked(b).into(),
        TermValue::Literal(v, None, _) => Literal::new_simple_literal(v).into(),
        TermValue::Literal(v, Some(d), _) => Literal::new_typed_literal(v, NamedNode::new_unchecked(d)).into(),
    };
    store.insert(&Quad::new(s, NamedNode::new_unchecked(predicate), o, GraphName::DefaultGraph))
}

/// The objects of the default-graph triples with the given subject and
/// predicate, read with Oxigraph's `Store::quads_for_pattern` and converted
/// one for one. The store holds a set, so each object comes once; the order
/// is the store's own and is not stated. The store is the in-memory one
/// (built without RocksDB): its pattern iterator yields every entry as `Ok`,
/// and decoding an entry fails only when a string the store itself wrote on
/// insertion is missing, so the read succeeds.
#[verifier::external_body]
pub fn store_objects(store: &Store, subject: &NodeValue, predicate: &str) -> (r: Result<Vec<TermValue>, StorageError>)
    ensures
        r is Ok,
        r matches Ok(v) ==> {
            &&& term_views(v@).no_duplicates()
            &&& term_views(v@).to_set() == objects_of(store_triples(*store), subject@, predicate@)
        },
{
    let s: NamedOrBlankNodeRef = match subject {
        NodeValue::Named(i) => NamedNodeRef::new_unchecked(i).into(),
        NodeValue::Blank(b) => BlankNodeRef::new_unchecked(b).into(),
    };
    store.quads_for_pattern(Some(s), Some(NamedNodeRef::new_unchecked(predicate)), None, Some(GraphNameRef::DefaultGraph))
        .map(|q| q.map(|q| match q.object {
            Term::NamedNode(n) => TermValue::Named(n.into_string()),
            Term::BlankNode(b) => TermValue::Blank(b.into_string()),
            Term::Literal(l) => { let (v, d, g) = l.destruct(); TermValue::Literal(v, d.map(NamedNode::into_string), g) },
        }))
        .collect()
}

} // verus!
