use field_export::classify::Classifier;
use field_export::export::{export_documents, precedes, Progress, Target};
use field_export::fallbacks::{count_fallbacks, is_malformed_limb_array};
use field_export::limbs::Modulus;
use field_export::transform::serialize_with_key_path;
use field_export::value::{Number, Value};

fn keys(names: &[&str]) -> Vec<String> {
    names.iter().map(|s| s.to_string()).collect()
}

fn num(x: u64) -> Value {
    Value::Number(Number::Unsigned(x))
}

fn limbs(values: &[u64]) -> Value {
    Value::Array(values.iter().map(|x| num(*x)).collect())
}

fn text(s: &str) -> Value {
    Value::String(s.to_string())
}

fn object(entries: Vec<(&str, Value)>) -> Value {
    Value::Object(entries.into_iter().map(|(k, v)| (k.to_string(), v)).collect())
}

fn classifier() -> Classifier {
    Classifier::new(keys(&["siblings", "circuit_digest"]), keys(&["coeffs"]), None)
}

#[test]
fn export_transforms_each_document_from_the_root() {
    let common = object(vec![("degree_bits", num(3)), ("coeffs", limbs(&[1, 0, 0, 0]))]);
    let verifier_only = object(vec![("circuit_digest", object(vec![("elements", limbs(&[7, 0, 0, 0]))]))]);
    let proof = object(vec![("siblings", limbs(&[1, 0, 0, 0, 2, 0, 0, 0]))]);
    let c = classifier();
    let export = export_documents(&c, &common, &verifier_only, &proof);
    assert_eq!(export.common, common);
    assert_eq!(export.verifier_only, object(vec![("circuit_digest", text("7"))]));
    assert_eq!(
        export.proof_with_public_inputs,
        object(vec![("siblings", Value::Array(vec![text("1"), text("2")]))])
    );
    assert_eq!(export.common, serialize_with_key_path(&c, &common, &keys(&[])));
    assert_eq!(export.fallbacks, 0);
    assert_eq!(export.document(Target::CommonCircuitData), &export.common);
    assert_eq!(export.document(Target::VerifierOnlyCircuitData), &export.verifier_only);
    assert_eq!(export.document(Target::ProofWithPublicInputs), &export.proof_with_public_inputs);
}

#[test]
fn export_counts_the_fallbacks_of_all_three_documents() {
    let c = classifier();
    let one = object(vec![("siblings", limbs(&[1, 2, 3]))]);
    let two = object(vec![
        ("circuit_digest", limbs(&[1, 2])),
        ("siblings", Value::Array(vec![limbs(&[1, 2, 3, 4, 5])])),
    ]);
    let none = object(vec![("siblings", limbs(&[1, 0, 0, 0])), ("coeffs", limbs(&[1, 2, 3]))]);
    assert_eq!(export_documents(&c, &one, &two, &none).fallbacks, 4);
    assert_eq!(export_documents(&c, &none, &one, &none).fallbacks, 1);
    assert_eq!(export_documents(&c, &none, &none, &none).fallbacks, 0);
    let root = keys(&[]);
    assert_eq!(
        export_documents(&c, &one, &two, &two).fallbacks,
        count_fallbacks(&c, &one, &root) + 2 * count_fallbacks(&c, &two, &root)
    );
}

#[test]
fn export_is_the_same_on_every_run() {
    let doc = object(vec![("siblings", limbs(&[1, 0, 0, 0, 2, 0, 0, 0])), ("n", num(2))]);
    let c = Classifier::new(keys(&["siblings"]), keys(&[]), Some(Modulus::goldilocks()));
    let first = export_documents(&c, &doc, &doc, &doc);
    let second = export_documents(&c, &doc, &doc, &doc);
    assert_eq!(first, second);
    assert_eq!(first.common, first.verifier_only);
}

#[test]
fn targets_have_their_file_names() {
    assert_eq!(Target::CommonCircuitData.file_name(), "common_circuit_data.json");
    assert_eq!(Target::VerifierOnlyCircuitData.file_name(), "verifier_only_circuit_data.json");
    assert_eq!(Target::ProofWithPublicInputs.file_name(), "proof_with_public_inputs.json");
}

#[test]
fn targets_are_written_in_order() {
    assert_eq!(Target::CommonCircuitData.next(), Some(Target::VerifierOnlyCircuitData));
    assert_eq!(Target::VerifierOnlyCircuitData.next(), Some(Target::ProofWithPublicInputs));
    assert_eq!(Target::ProofWithPublicInputs.next(), None);
    assert!(precedes(Target::CommonCircuitData, Target::ProofWithPublicInputs));
    assert!(precedes(Target::VerifierOnlyCircuitData, Target::ProofWithPublicInputs));
    assert!(!precedes(Target::ProofWithPublicInputs, Target::CommonCircuitData));
    assert!(!precedes(Target::VerifierOnlyCircuitData, Target::VerifierOnlyCircuitData));
}

#[test]
fn three_good_writes_end_the_export() {
    let start = Progress::begin();
    assert_eq!(start, Progress::Writing(Target::CommonCircuitData));
    let one = start.advance(true);
    assert_eq!(one, Progress::Writing(Target::VerifierOnlyCircuitData));
    let two = one.advance(true);
    assert_eq!(two, Progress::Writing(Target::ProofWithPublicInputs));
    let three = two.advance(true);
    assert_eq!(three, Progress::Done);
    assert_eq!(three.advance(true), Progress::Done);
    assert_eq!(three.advance(false), Progress::Done);
    for target in [
        Target::CommonCircuitData,
        Target::VerifierOnlyCircuitData,
        Target::ProofWithPublicInputs,
    ] {
        assert!(start.is_stale(target));
        assert!(!three.is_stale(target));
    }
}

#[test]
fn a_failed_write_ends_the_export_and_names_the_target() {
    let failed = Progress::begin().advance(true).advance(false);
    assert_eq!(failed, Progress::Failed(Target::VerifierOnlyCircuitData));
    assert_eq!(failed.advance(true), failed);
    assert_eq!(failed.advance(false), failed);
    assert!(!failed.is_stale(Target::CommonCircuitData));
    assert!(failed.is_stale(Target::VerifierOnlyCircuitData));
    assert!(failed.is_stale(Target::ProofWithPublicInputs));
    assert_eq!(Progress::begin().advance(false), Progress::Failed(Target::CommonCircuitData));
    let last = Progress::begin().advance(true).advance(true).advance(false);
    assert_eq!(last, Progress::Failed(Target::ProofWithPublicInputs));
    assert!(!last.is_stale(Target::VerifierOnlyCircuitData));
    assert!(last.is_stale(Target::ProofWithPublicInputs));
}

#[test]
fn malformed_means_neither_shape_under_a_field_key() {
    let c = classifier();
    let field = keys(&["siblings"]);
    assert!(is_malformed_limb_array(&c, &limbs(&[1, 2, 3]), &field));
    assert!(is_malformed_limb_array(&c, &limbs(&[1, 2, 3, 4, 5]), &field));
    assert!(is_malformed_limb_array(&c, &Value::Array(vec![num(1), text("a")]), &field));
    assert!(is_malformed_limb_array(&c, &Value::Array(vec![limbs(&[1, 2, 3])]), &field));
    assert!(!is_malformed_limb_array(&c, &limbs(&[1]), &field));
    assert!(!is_malformed_limb_array(&c, &limbs(&[1, 2, 3, 4]), &field));
    assert!(!is_malformed_limb_array(&c, &limbs(&[]), &field));
    assert!(!is_malformed_limb_array(&c, &Value::Array(vec![limbs(&[1, 2, 3, 4])]), &field));
    assert!(!is_malformed_limb_array(&c, &limbs(&[1, 2, 3]), &keys(&["other"])));
    assert!(!is_malformed_limb_array(&c, &limbs(&[1, 2, 3]), &keys(&[])));
    assert!(!is_malformed_limb_array(&c, &limbs(&[1, 2, 3]), &keys(&["coeffs"])));
    assert!(!is_malformed_limb_array(&c, &num(1), &field));
}

#[test]
fn fallbacks_are_counted_over_the_whole_walk() {
    let c = classifier();
    let root = keys(&[]);
    assert_eq!(count_fallbacks(&c, &limbs(&[1, 2, 3]), &root), 0);
    assert_eq!(count_fallbacks(&c, &limbs(&[1, 2, 3]), &keys(&["siblings"])), 1);
    assert_eq!(count_fallbacks(&c, &limbs(&[1, 2, 3, 4]), &keys(&["siblings"])), 0);
    let doc = object(vec![
        ("siblings", limbs(&[1, 2, 3])),
        ("circuit_digest", object(vec![("elements", limbs(&[1, 2]))])),
        ("coeffs", object(vec![("siblings", limbs(&[1, 2, 3]))])),
        (
            "nested",
            Value::Array(vec![
                object(vec![("siblings", Value::Array(vec![limbs(&[1, 2, 3]), limbs(&[4, 5])]))]),
                object(vec![("siblings", limbs(&[1, 0, 0, 0]))]),
            ]),
        ),
        ("n", num(1)),
    ]);
    assert_eq!(count_fallbacks(&c, &doc, &root), 5);
    assert_eq!(count_fallbacks(&c, &doc, &keys(&["coeffs"])), 0);
}

#[test]
fn well_formed_documents_have_no_key_twice() {
    let good = object(vec![
        ("a", num(1)),
        ("b", Value::Array(vec![object(vec![("a", num(1)), ("c", Value::Null)])])),
    ]);
    assert!(good.is_well_formed());
    let twice = object(vec![("a", num(1)), ("b", num(2)), ("a", num(3))]);
    assert!(!twice.is_well_formed());
    let deep = object(vec![("x", Value::Array(vec![num(1), twice.clone()]))]);
    assert!(!deep.is_well_formed());
    assert!(Value::Null.is_well_formed());
    assert!(limbs(&[1, 2]).is_well_formed());
    assert!(object(vec![]).is_well_formed());
    let c = classifier();
    assert!(serialize_with_key_path(&c, &good, &keys(&[])).is_well_formed());
}

#[test]
fn clone_copies_the_whole_tree() {
    let doc = object(vec![
        ("a", Value::Array(vec![num(1), text("x"), Value::Bool(true), Value::Null])),
        ("b", Value::Number(Number::Literal("-2.5e3".to_string()))),
        ("c", object(vec![("d", limbs(&[1, 2, 3]))])),
    ]);
    let copy = doc.clone();
    assert_eq!(copy, doc);
    assert_eq!(Number::Unsigned(5).clone(), Number::Unsigned(5));
}
