//! The export of one proof: three documents, transformed, and written one
//! after the other.
//!
//! The library transforms the documents and decides what is written next
//! and when the export has ended; writing itself is left to the caller.

use crate::classify::{Classifier, Policy};
use crate::fallbacks::{count_fallbacks, fallbacks, saturated};
use crate::transform::{serialize_with_key_path, transformed};
use crate::value::{texts, Tree, Value};
use vstd::prelude::*;
use vstd::string::StringExecFns;

verus! {

/// One of the three documents of an export, in the order they are written.
#[derive(Debug, Clone, Copy, PartialEq, Eq)]
pub enum Target {
    /// The circuit parameters common to prover and verifier.
    CommonCircuitData,
    /// The circuit data only the verifier needs.
    VerifierOnlyCircuitData,
    /// The proof, with its public inputs.
    ProofWithPublicInputs,
}

impl Target {
    /// The place of this document in the order of writing, from zero.
    pub open spec fn position(self) -> nat {
        match self {
            Target::CommonCircuitData => 0,
            Target::VerifierOnlyCircuitData => 1,
            Target::ProofWithPublicInputs => 2,
        }
    }

    /// The name of the file this document is written to.
    pub open spec fn name(self) -> Seq<char> {
        match self {
            Target::CommonCircuitData => "common_circuit_data.json"@,
            Target::VerifierOnlyCircuitData => "verifier_only_circuit_data.json"@,
            Target::ProofWithPublicInputs => "proof_with_public_inputs.json"@,
        }
    }

    /// The document written after this one, if any.
    pub open spec fn successor(self) -> Option<Target> {
        match self {
            Target::CommonCircuitData => Some(Target::VerifierOnlyCircuitData),
            Target::VerifierOnlyCircuitData => Some(Target::ProofWithPublicInputs),
            Target::ProofWithPublicInputs => None,
        }
    }

    /// The name of the file this document is written to.
    pub fn file_name(&self) -> (name: String)
        ensures
            name@ == self.name(),
    {
        match self {
            Target::CommonCircuitData => String::from_str("common_circuit_data.json"),
            Target::VerifierOnlyCircuitData => String::from_str("verifier_only_circuit_data.json"),
            Target::ProofWithPublicInputs => String::from_str("proof_with_public_inputs.json"),
        }
    }

    /// The document written after this one, if any.
    pub fn next(&self) -> (following: Option<Target>)
        ensures
            following == self.successor(),
    {
        match self {
            Target::CommonCircuitData => Some(Target::VerifierOnlyCircuitData),
            Target::VerifierOnlyCircuitData => Some(Target::ProofWithPublicInputs),
            Target::ProofWithPublicInputs => None,
        }
    }
}

/// The three documents of an export, transformed.
#[derive(Debug, PartialEq, Eq)]
pub struct Export {
    pub common: Value,
    pub verifier_only: Value,
    pub proof_with_public_inputs: Value,
    /// The malformed limb arrays that were walked instead of packed, over
    /// the three documents, up to the largest `u64`.
    pub fallbacks: u64,
}

impl Export {
    /// The model of the document for `target`.
    pub open spec fn tree(self, target: Target) -> Tree {
        match target {
            Target::CommonCircuitData => self.common@,
            Target::VerifierOnlyCircuitData => self.verifier_only@,
            Target::ProofWithPublicInputs => self.proof_with_public_inputs@,
        }
    }

    /// The document for `target`.
    pub fn document(&self, target: Target) -> (doc: &Value)
        ensures
            doc@ == self.tree(target),
    {
        match target {
            Target::CommonCircuitData => &self.common,
            Target::VerifierOnlyCircuitData => &self.verifier_only,
            Target::ProofWithPublicInputs => &self.proof_with_public_inputs,
        }
    }
}

/// The transform of a whole document: of its root, at the empty path.
pub open spec fn exported(policy: Policy, document: Tree) -> Tree {
    transformed(policy, document, Seq::empty())
}

/// The number of malformed limb arrays that the transforms of the three
/// documents of an export meet.
pub open spec fn export_fallbacks(
    policy: Policy,
    common: Tree,
    verifier_only: Tree,
    proof_with_public_inputs: Tree,
) -> nat {
    fallbacks(policy, common, Seq::empty()) + fallbacks(policy, verifier_only, Seq::empty())
        + fallbacks(policy, proof_with_public_inputs, Seq::empty())
}

/// Transforms the three documents of an export, each on its own and from
/// the empty path, and counts the malformed limb arrays met on the way.
pub fn export_documents(
    classifier: &Classifier,
    common: &Value,
    verifier_only: &Value,
    proof_with_public_inputs: &Value,
) -> (export: Export)
    ensures
        export.common@ == exported(classifier@, common@),
        export.verifier_only@ == exported(classifier@, verifier_only@),
        export.proof_with_public_inputs@ == exported(classifier@, proof_with_public_inputs@),
        export.fallbacks == saturated(
            export_fallbacks(classifier@, common@, verifier_only@, proof_with_public_inputs@),
        ),
{
    let root: Vec<String> = Vec::new();
    assert(texts(root@) =~= Seq::<Seq<char>>::empty());
    let fallbacks = count_fallbacks(classifier, common, &root).saturating_add(
        count_fallbacks(classifier, verifier_only, &root),
    ).saturating_add(count_fallbacks(classifier, proof_with_public_inputs, &root));
    Export {
        fallbacks,
        common: serialize_with_key_path(classifier, common, &root),
        verifier_only: serialize_with_key_path(classifier, verifier_only, &root),
        proof_with_public_inputs: serialize_with_key_path(
            classifier,
            proof_with_public_inputs,
            &root,
        ),
    }
}

/// How far the writing of an export has come.
#[derive(Debug, Clone, Copy, PartialEq, Eq)]
pub enum Progress {
    /// The given document is the next to write; those before it are written.
    Writing(Target),
    /// All three documents are written.
    Done,
    /// Writing the given document failed; those before it are written, and
    /// nothing is written after it.
    Failed(Target),
}

impl Progress {
    /// The progress after the write that was due has succeeded (`written`)
    /// or failed. An export that has ended stays as it is.
    pub open spec fn advanced(self, written: bool) -> Progress {
        match self {
            Progress::Writing(target) => if !written {
                Progress::Failed(target)
            } else {
                match target.successor() {
                    Some(following) => Progress::Writing(following),
                    None => Progress::Done,
                }
            },
            _ => self,
        }
    }

    /// The file for `target` has not been written by this export: it is
    /// missing, or left over from a previous run.
    pub open spec fn stale(self, target: Target) -> bool {
        match self {
            Progress::Writing(due) => target.position() >= due.position(),
            Progress::Failed(failed) => target.position() >= failed.position(),
            Progress::Done => false,
        }
    }

    /// The start of an export: the first document is due.
    pub fn begin() -> (start: Progress)
        ensures
            start == Progress::Writing(Target::CommonCircuitData),
    {
        Progress::Writing(Target::CommonCircuitData)
    }

    /// The progress after the write that was due has succeeded (`written`)
    /// or failed.
    pub fn advance(self, written: bool) -> (after: Progress)
        ensures
            after == self.advanced(written),
    {
        match self {
            Progress::Writing(target) => {
                if !written {
                    Progress::Failed(target)
                } else {
                    match target.next() {
                        Some(following) => Progress::Writing(following),
                        None => Progress::Done,
                    }
                }
            },
            Progress::Done => Progress::Done,
            Progress::Failed(target) => Progress::Failed(target),
        }
    }

    /// Whether the file for `target` has not been written by this export.
    pub fn is_stale(&self, target: Target) -> (stale: bool)
        ensures
            stale == self.stale(target),
    {
        match self {
            Progress::Writing(due) => !precedes(target, *due),
            Progress::Failed(failed) => !precedes(target, *failed),
            Progress::Done => false,
        }
    }
}

/// Whether `a` is written before `b`.
pub fn precedes(a: Target, b: Target) -> (before: bool)
    ensures
        before == (a.position() < b.position()),
{
    match (a, b) {
        (Target::CommonCircuitData, Target::VerifierOnlyCircuitData) => true,
        (Target::CommonCircuitData, Target::ProofWithPublicInputs) => true,
        (Target::VerifierOnlyCircuitData, Target::ProofWithPublicInputs) => true,
        _ => false,
    }
}

} // verus!
