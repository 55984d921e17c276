use pask::receipt_cbor::{Budget, Role};
use pask::receipt_inspection::{inspect_scitt_receipt, InspectionLimits, InspectionPolicy, InspectionStatus, Problem};

#[test]
fn declared_array_count_over_the_item_budget_is_refused_before_reading() {
    let limits = InspectionLimits::default();
    let mut budget = Budget { limits: &limits, items: 0, unprotected_x5t_invalid: false };
    let bytes = [0x9b, 0xff, 0xff, 0xff, 0xff, 0xff, 0xff, 0xff, 0xff];
    assert_eq!(budget.scan(&bytes, 0, Role::Any, "trailing"), Err(Problem::policy("cbor_item_limit")));
    assert_eq!(budget.items, 1);
}

#[test]
fn labels_and_integers_of_the_wrong_type_get_their_role_codes() {
    let limits = InspectionLimits::default();
    let cases = [
        (Role::HeaderLabel, Problem::structure("header_label_type")),
        (Role::CriticalLabel, Problem::structure("crit_label_type")),
        (Role::ClaimLabel, Problem::claims("claim_label_type")),
        (Role::ThumbprintAlgorithm, Problem::claims("x5t_shape")),
        (Role::RequiredInteger, Problem::claims("required_header_type")),
        (Role::TreeSize, Problem::structure("tree_type")),
        (Role::LeafIndex, Problem::structure("leaf_type")),
    ];
    for (role, problem) in cases {
        let mut budget = Budget { limits: &limits, items: 0, unprotected_x5t_invalid: false };
        assert_eq!(budget.scan(&[0x40], 0, role, "trailing"), Err(problem));
    }
}

#[test]
fn container_at_the_nesting_limit_is_refused() {
    let limits = InspectionLimits::default();
    let mut budget = Budget { limits: &limits, items: 0, unprotected_x5t_invalid: false };
    assert_eq!(budget.scan(&[0x80], 16, Role::Any, "trailing"), Err(Problem::policy("cbor_nesting_limit")));
}

#[test]
fn trailing_bytes_get_the_callers_code_and_a_scan_counts_items() {
    let limits = InspectionLimits::default();
    let mut budget = Budget { limits: &limits, items: 0, unprotected_x5t_invalid: false };
    assert_eq!(budget.scan(&[0xa1, 0x01, 0x02], 0, Role::Any, "trailing"), Ok(()));
    assert_eq!(budget.items, 3);
    assert_eq!(budget.scan(&[0x01, 0x02], 0, Role::Any, "trailing"), Err(Problem::structure("trailing")));
}

#[test]
fn untagged_receipt_fails_with_missing_receipt_tag() {
    let bytes = [0x84, 0x40, 0xa0, 0xf6, 0x40];
    let report = inspect_scitt_receipt(&bytes, &InspectionPolicy::default());
    assert_eq!(report.structure.status, InspectionStatus::Failed);
    assert_eq!(report.structure.code, "missing_receipt_tag");
    assert_eq!(report.required_claims.status, InspectionStatus::NotEvaluated);
    assert_eq!(report.required_claims.code, "dependent_check_not_run");
    assert_eq!(report.support.code, "dependent_check_not_run");
    assert_eq!(report.selected_policy.status, InspectionStatus::Passed);
    assert_eq!(report.cbor_items_inspected, 5);
    assert_eq!(report.encoded_receipt, &bytes[..]);
    assert!(report.unauthenticated_claims.is_none());
}

#[test]
fn declared_string_length_over_the_role_limit_is_refused() {
    let limits = InspectionLimits::default();
    let mut budget = Budget { limits: &limits, items: 0, unprotected_x5t_invalid: false };
    let bytes = [0x5a, 0xff, 0xff, 0xff, 0xff];
    assert_eq!(budget.scan(&bytes, 0, Role::Signature, "trailing"), Err(Problem::policy("signature_byte_limit")));
    let mut budget = Budget { limits: &limits, items: 0, unprotected_x5t_invalid: false };
    assert_eq!(budget.scan(&bytes, 0, Role::Any, "trailing"), Err(Problem::policy("receipt_byte_limit")));
}
