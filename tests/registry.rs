use bounty_builder::contract::{classify, order_for_output, Contract, ContractKind};
use bounty_builder::registry::ContractRegistry;

fn record(name: &str, bytecode: &str) -> Contract {
    Contract {
        contract_name: name.to_string(),
        kind: classify(bytecode),
        bytecode: bytecode.to_string(),
        deployed_bytecode: None,
        sourcemap: None,
        deployed_sourcemap: None,
        absolute_path: None,
        id: None,
        file_contents: None,
        imports: None,
    }
}

#[test]
fn classify_by_creation_code() {
    assert!(matches!(classify("0x"), ContractKind::Interface));
    assert!(matches!(classify(""), ContractKind::Interface));
    assert!(matches!(classify("0x60006000"), ContractKind::Contract));
    assert!(matches!(classify("6080"), ContractKind::Contract));
    assert!(matches!(classify("0"), ContractKind::Contract));
    assert!(matches!(classify("0x0"), ContractKind::Contract));
}

#[test]
fn insert_replaces_same_name_in_place() {
    let mut registry = ContractRegistry::new();
    registry.insert(record("A", "0x6000"));
    registry.insert(record("B", "0x"));
    registry.insert(record("A", "0x"));
    assert_eq!(registry.len(), 2);
    assert_eq!(registry.get(0).contract_name, "A");
    assert_eq!(registry.get(0).bytecode, "0x");
    assert_eq!(registry.position(&"B".to_string()), Some(1));
    assert_eq!(registry.position(&"C".to_string()), None);
}

#[test]
fn snapshot_is_independent() {
    let mut registry = ContractRegistry::new();
    registry.insert(record("A", "0x6000"));
    registry.insert(record("B", "0x"));
    let snapshot = registry.snapshot();
    let found = snapshot.resolve_names(&vec!["B".to_string()], &"A".to_string());
    registry.attach_imports(0, found);
    assert!(snapshot.get(0).imports.is_none());
    assert_eq!(registry.get(0).imports.as_ref().unwrap().len(), 1);
    assert!(registry.get(1).imports.is_none());
}

#[test]
fn resolve_links_leaves_other_records_alone() {
    let mut registry = ContractRegistry::new();
    registry.insert(record("A", "0x6000"));
    registry.insert(record("B", "0x"));
    registry.insert(record("C", "0x6001"));
    let snapshot = registry.snapshot();
    registry.resolve_links(&"A".to_string(), &vec!["B".to_string(), "A".to_string(), "Z".to_string()], &snapshot);
    let a = registry.get(0);
    let names: Vec<&str> = a.imports.as_ref().unwrap().iter().map(|c| c.contract_name.as_str()).collect();
    assert_eq!(names, vec!["B"]);
    assert!(registry.get(1).imports.is_none());
    assert!(registry.get(2).imports.is_none());
    registry.resolve_links(&"Q".to_string(), &vec!["B".to_string()], &snapshot);
    assert!(registry.get(1).imports.is_none());
}

#[test]
fn attach_appends_after_prior_imports() {
    let mut registry = ContractRegistry::new();
    registry.insert(record("A", "0x6000"));
    registry.attach_imports(0, vec![record("B", "0x")]);
    registry.attach_imports(0, vec![record("C", "0x")]);
    let names: Vec<String> =
        registry.get(0).imports.as_ref().unwrap().iter().map(|c| c.contract_name.clone()).collect();
    assert_eq!(names, vec!["B".to_string(), "C".to_string()]);
    registry.attach_imports(0, vec![]);
    assert_eq!(registry.get(0).imports.as_ref().unwrap().len(), 2);
}

#[test]
fn duplicate_is_deep() {
    let mut a = record("A", "0x6000");
    a.imports = Some(vec![record("B", "0x")]);
    let copy = a.duplicate();
    a.imports.as_mut().unwrap()[0].contract_name = "Changed".to_string();
    assert_eq!(copy.imports.as_ref().unwrap()[0].contract_name, "B");
    assert_eq!(copy.bytecode, "0x6000");
}

#[test]
fn interfaces_come_first_and_order_is_kept() {
    let records = vec![
        record("C1", "0x60"),
        record("I1", "0x"),
        record("C2", "0x61"),
        record("I2", ""),
    ];
    let ordered = order_for_output(records);
    let names: Vec<&str> = ordered.iter().map(|c| c.contract_name.as_str()).collect();
    assert_eq!(names, vec!["I1", "I2", "C1", "C2"]);
    assert!(order_for_output(Vec::new()).is_empty());
}

#[test]
fn into_records_keeps_registry_order() {
    let mut registry = ContractRegistry::new();
    registry.insert(record("Z", "0x"));
    registry.insert(record("A", "0x"));
    let records = registry.into_records();
    assert_eq!(records[0].contract_name, "Z");
    assert_eq!(records[1].contract_name, "A");
}
