//! Namespace IRIs used to describe a file offer: standard DCAT (dataset
//! metadata) and ODRL (usage policy), plus one small vocabulary of this
//! project's own (`ds:`), whose `ds:order` predicate records the position of
//! each permission and constraint so that their order can be read back.

use vstd::prelude::*;

verus! {

pub const DCAT: &'static str = "http://www.w3.org/ns/dcat#";

pub const DCTERMS: &'static str = "http://purl.org/dc/terms/";

pub const ODRL: &'static str = "http://www.w3.org/ns/odrl/2/";

pub const XSD: &'static str = "http://www.w3.org/2001/XMLSchema#";

pub const RDF: &'static str = "http://www.w3.org/1999/02/22-rdf-syntax-ns#";

/// This project's own vocabulary: the local file path of a distribution,
/// which DCAT has no term for, and `order`.
pub const DS: &'static str = "https://ds42.org/ontologies/ds-sql-dps-rs#";

/// The full IRI of an ODRL term.
pub fn odrl(term: &str) -> (iri: String)
    ensures
        iri@ == ODRL@ + term@,
{
    String::from_str(ODRL).concat(term)
}

/// The full IRI of a DCAT term.
pub fn dcat(term: &str) -> (iri: String)
    ensures
        iri@ == DCAT@ + term@,
{
    String::from_str(DCAT).concat(term)
}

/// The full IRI of a Dublin Core term.
pub fn dcterms(term: &str) -> (iri: String)
    ensures
        iri@ == DCTERMS@ + term@,
{
    String::from_str(DCTERMS).concat(term)
}

/// The full IRI of a term of this project's own vocabulary.
pub fn ds(term: &str) -> (iri: String)
    ensures
        iri@ == DS@ + term@,
{
    String::from_str(DS).concat(term)
}

/// The full IRI of an RDF term.
pub fn rdf(term: &str) -> (iri: String)
    ensures
        iri@ == RDF@ + term@,
{
    String::from_str(RDF).concat(term)
}

/// The full IRI of an XML Schema datatype.
pub fn xsd(term: &str) -> (iri: String)
    ensures
        iri@ == XSD@ + term@,
{
    String::from_str(XSD).concat(term)
}

} // verus!
