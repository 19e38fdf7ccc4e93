//! A file exposed as a dataspace data offer, as authored input to
//! [`crate::graph::ConfigGraph::seed_offer`].

use vstd::prelude::*;

verus! {

/// One file exposed as a data offer: the file path and media type
/// (DCAT-shaped) and its usage policy (ODRL-shaped).
///
/// This is input, not the store's own representation: `seed_offer`
/// decomposes it into RDF triples.
#[derive(Debug, Clone)]
pub struct FileOffer {
    /// Used to build every IRI of this offer and as the DPS `datasetId`.
    pub dataset_id: String,
    pub title: String,
    /// The local path of the file, as text.
    pub file_path: String,
    pub media_type: String,
    /// `odrl:assigner` on the policy: the participant offering the file.
    pub assigner: String,
    pub permissions: Vec<PermissionSpec>,
}

/// One `odrl:permission` entry: an action, optionally gated by constraints.
#[derive(Debug, Clone)]
pub struct PermissionSpec {
    /// A bare ODRL action term, e.g. `"use"`.
    pub action: String,
    pub constraints: Vec<ConstraintSpec>,
}

/// One `odrl:constraint` entry (`leftOperand operator rightOperand`), e.g.
/// `dateTime lteq 2026-12-31T23:59:59Z`.
#[derive(Debug, Clone)]
pub struct ConstraintSpec {
    pub left_operand: String,
    pub operator: String,
    pub right_operand: String,
}

pub struct ConstraintView {
    pub left_operand: Seq<char>,
    pub operator: Seq<char>,
    pub right_operand: Seq<char>,
}

pub struct PermissionView {
    pub action: Seq<char>,
    pub constraints: Seq<ConstraintView>,
}

pub struct OfferView {
    pub dataset_id: Seq<char>,
    pub title: Seq<char>,
    pub file_path: Seq<char>,
    pub media_type: Seq<char>,
    pub assigner: Seq<char>,
    pub permissions: Seq<PermissionView>,
}

impl View for ConstraintSpec {
    type V = ConstraintView;

    open spec fn view(&self) -> ConstraintView {
        ConstraintView {
            left_operand: self.left_operand@,
            operator: self.operator@,
            right_operand: self.right_operand@,
        }
    }
}

pub open spec fn constraint_views(cs: Seq<ConstraintSpec>) -> Seq<ConstraintView> {
    cs.map_values(|c: ConstraintSpec| c@)
}

impl View for PermissionSpec {
    type V = PermissionView;

    open spec fn view(&self) -> PermissionView {
        PermissionView { action: self.action@, constraints: constraint_views(self.constraints@) }
    }
}

pub open spec fn permission_views(ps: Seq<PermissionSpec>) -> Seq<PermissionView> {
    ps.map_values(|p: PermissionSpec| p@)
}

impl View for FileOffer {
    type V = OfferView;

    open spec fn view(&self) -> OfferView {
        OfferView {
            dataset_id: self.dataset_id@,
            title: self.title@,
            file_path: self.file_path@,
            media_type: self.media_type@,
            assigner: self.assigner@,
            permissions: permission_views(self.permissions@),
        }
    }
}

impl ConstraintSpec {
    /// A copy with the same text in every field.
    pub fn duplicate(&self) -> (r: ConstraintSpec)
        ensures
            r@ == self@,
    {
        ConstraintSpec {
            left_operand: self.left_operand.clone(),
            operator: self.operator.clone(),
            right_operand: self.right_operand.clone(),
        }
    }
}

} // verus!
