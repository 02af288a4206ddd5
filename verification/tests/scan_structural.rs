//! The paragraph-level structural scanner.

use unai::rules::structural::apply_structural_rules;

#[test]
fn structural_connector_density_fires() {
let para = "Moreover, this is important. Furthermore, we note that. Additionally, as a result, the data shows. Consequently, we conclude.";
let findings = apply_structural_rules(para);
assert!(
    findings.iter().any(|f| f.message.contains("connector density")),
    "high connector density should fire, got: {:?}",
    findings.iter().map(|f| &f.message).collect::<Vec<_>>()
);
}

#[test]
fn structural_connector_density_exactly_three_fires() {
let para = "Moreover, this is the case. Furthermore, it matters. Additionally, we note this.";
let findings = apply_structural_rules(para);
assert!(
    findings.iter().any(|f| f.message.contains("connector density")),
    "exactly 3 connectors should fire at the >= 3 threshold"
);
}

#[test]
fn structural_connector_density_low_count_no_fire() {
let para = "Moreover, this is important. Furthermore, this helps.";
let findings = apply_structural_rules(para);
assert!(
    !findings.iter().any(|f| f.message.contains("connector density")),
    "2 connectors should not fire"
);
}

#[test]
fn structural_structural_rules_empty_input() {
let findings = apply_structural_rules("");
assert!(findings.is_empty());
}
