use bounty_builder::builders::forge::{
    self, AstNode, BytecodeObject, DeployedBytecodeObject, ForgeArtifact, SourceUnit,
};
use bounty_builder::builders::hardhat::{
    self, ArtifactFile, Ast, BuildInfoFile, Bytecode, ContractInfo, ContractMetadata,
    DeployedBytecode, Evm, Input, InputInfo, LinkReferences, Output, Reference, SourceInfo,
};
use bounty_builder::builders::truffle::{self, TruffleArtifact};
use bounty_builder::contract::{order_for_output, Contract, ContractKind};

fn code(object: &str) -> BytecodeObject {
    BytecodeObject { object: object.to_string(), source_map: Some("0:1:0".to_string()) }
}

fn forge_artifact(name: &str, bytecode: Option<&str>, imports: &[&str]) -> ForgeArtifact {
    ForgeArtifact {
        contract_name: name.to_string(),
        id: Some(3),
        bytecode: bytecode.map(code),
        deployed_bytecode: Some(DeployedBytecodeObject { bytecode: Some(code("0x6000")) }),
        ast: Some(SourceUnit {
            absolute_path: format!("src/{}.sol", name),
            nodes: vec![
                AstNode { node_type: "PragmaDirective".to_string(), symbol_aliases: vec![] },
                AstNode {
                    node_type: "ImportDirective".to_string(),
                    symbol_aliases: imports.iter().map(|s| s.to_string()).collect(),
                },
            ],
        }),
        file_contents: Some(format!("contract {} {{}}", name)),
    }
}

fn truffle_artifact(name: &str, bytecode: &str, files: &[&str]) -> TruffleArtifact {
    let mut nodes = vec![truffle::Node {
        absolute_path: None,
        file: None,
        id: 1,
        node_type: "PragmaDirective".to_string(),
    }];
    for (i, f) in files.iter().enumerate() {
        nodes.push(truffle::Node {
            absolute_path: Some(format!("project:/contracts/{}", f)),
            file: Some(f.to_string()),
            id: 2 + i as i64,
            node_type: "ImportDirective".to_string(),
        });
    }
    TruffleArtifact {
        contract_name: name.to_string(),
        metadata: truffle::Metadata {
            contract_name: name.to_string(),
            metadata: String::new(),
            bytecode: bytecode.to_string(),
            deployed_bytecode: bytecode.to_string(),
            immutable_references: None,
            source_map: String::new(),
            deployed_source_map: String::new(),
            source: String::new(),
            source_path: format!("contracts/{}.sol", name),
            ast: truffle::Ast {
                absolute_path: Some(format!("project:/contracts/{}.sol", name)),
                id: 0,
                license: None,
                node_type: "SourceUnit".to_string(),
                nodes,
                src: "0:0:0".to_string(),
            },
            schema_version: "3.4.4".to_string(),
            updated_at: String::new(),
        },
    }
}

fn find<'a>(contracts: &'a [Contract], name: &str) -> &'a Contract {
    contracts.iter().find(|c| c.contract_name == name).expect("record present")
}

fn import_names(c: &Contract) -> Vec<String> {
    c.imports.as_ref().map(|v| v.iter().map(|i| i.contract_name.clone()).collect()).unwrap_or_default()
}

#[test]
fn round_trip_forge() {
    let artifacts = vec![
        forge_artifact("A", Some("0x60006000"), &["B"]),
        forge_artifact("B", Some("0x"), &[]),
    ];
    let (dir, contracts) = forge::process_out_directory("repos/demo", &artifacts);
    assert_eq!(dir, "repos/demo");
    assert_eq!(contracts.len(), 2);
    let a = find(&contracts, "A");
    let b = find(&contracts, "B");
    assert!(matches!(a.kind, ContractKind::Contract));
    assert!(matches!(b.kind, ContractKind::Interface));
    assert_eq!(import_names(a), vec!["B".to_string()]);
    assert!(import_names(b).is_empty());
    let imported = &a.imports.as_ref().unwrap()[0];
    assert_eq!(imported.bytecode, "0x");
    assert_eq!(imported.absolute_path.as_deref(), Some("src/B.sol"));
    assert_eq!(a.deployed_bytecode.as_deref(), Some("0x6000"));
    assert_eq!(a.file_contents.as_deref(), Some("contract A {}"));
    assert_eq!(a.id, Some(3));
    let ordered = order_for_output(contracts);
    let names: Vec<&str> = ordered.iter().map(|c| c.contract_name.as_str()).collect();
    assert_eq!(names, vec!["B", "A"]);
}

#[test]
fn round_trip_truffle() {
    let artifacts = vec![
        truffle_artifact("A", "0x60006000", &["./B.sol"]),
        truffle_artifact("B", "0x", &[]),
    ];
    let (_, contracts) = truffle::process_truffle_directory("repos/demo", &artifacts);
    let a = find(&contracts, "A");
    let b = find(&contracts, "B");
    assert!(matches!(a.kind, ContractKind::Contract));
    assert!(matches!(b.kind, ContractKind::Interface));
    assert_eq!(import_names(a), vec!["B".to_string()]);
    assert!(import_names(b).is_empty());
    let ordered = order_for_output(contracts);
    let names: Vec<&str> = ordered.iter().map(|c| c.contract_name.as_str()).collect();
    assert_eq!(names, vec!["B", "A"]);
}

#[test]
fn missing_bytecode_is_excluded() {
    let artifacts = vec![forge_artifact("A", Some("0x6000"), &["C"]), forge_artifact("C", None, &[])];
    let (_, contracts) = forge::process_out_directory("repos/demo", &artifacts);
    assert_eq!(contracts.len(), 1);
    assert_eq!(contracts[0].contract_name, "A");
    assert!(import_names(&contracts[0]).is_empty());
    assert!(forge::record_of(&artifacts[1]).is_none());
}

#[test]
fn missing_runtime_code_or_ast_is_excluded() {
    let mut no_runtime = forge_artifact("A", Some("0x6000"), &[]);
    no_runtime.deployed_bytecode = Some(DeployedBytecodeObject { bytecode: None });
    let mut no_ast = forge_artifact("B", Some("0x6000"), &[]);
    no_ast.ast = None;
    assert!(forge::record_of(&no_runtime).is_none());
    assert!(forge::record_of(&no_ast).is_none());
    let (_, contracts) = forge::process_out_directory("r", &vec![no_runtime, no_ast]);
    assert!(contracts.is_empty());
}

#[test]
fn self_import_is_not_recorded() {
    let artifacts = vec![forge_artifact("A", Some("0x6000"), &["A", "B"]), forge_artifact("B", Some("0x"), &[])];
    let (_, contracts) = forge::process_out_directory("r", &artifacts);
    assert_eq!(import_names(find(&contracts, "A")), vec!["B".to_string()]);
    let truffle_artifacts = vec![truffle_artifact("A", "0x6000", &["./A.sol"])];
    let (_, contracts) = truffle::process_truffle_directory("r", &truffle_artifacts);
    assert!(import_names(find(&contracts, "A")).is_empty());
}

#[test]
fn unresolvable_import_is_dropped() {
    let artifacts = vec![
        forge_artifact("A", Some("0x6000"), &["Missing", "B", "AlsoMissing"]),
        forge_artifact("B", Some("0x6001"), &[]),
    ];
    let (_, contracts) = forge::process_out_directory("r", &artifacts);
    assert_eq!(contracts.len(), 2);
    assert_eq!(import_names(find(&contracts, "A")), vec!["B".to_string()]);
}

#[test]
fn walk_order_does_not_matter() {
    let make = || {
        vec![
            forge_artifact("A", Some("0x6000"), &["B", "C"]),
            forge_artifact("B", Some("0x"), &["C"]),
            forge_artifact("C", Some("0x6001"), &[]),
        ]
    };
    let mut reversed = make();
    reversed.reverse();
    let (_, first) = forge::process_out_directory("r", &make());
    let (_, second) = forge::process_out_directory("r", &reversed);
    assert_eq!(first.len(), second.len());
    for c in &first {
        let other = find(&second, &c.contract_name);
        assert_eq!(c.bytecode, other.bytecode);
        assert_eq!(import_names(c), import_names(other));
    }
}

#[test]
fn later_artifact_of_same_name_wins() {
    let artifacts = vec![forge_artifact("A", Some("0x6000"), &[]), forge_artifact("A", Some("0x"), &[])];
    let registry = forge::populate(&artifacts);
    assert_eq!(registry.len(), 1);
    assert_eq!(registry.get(0).bytecode, "0x");
    assert!(matches!(registry.get(0).kind, ContractKind::Interface));
}

#[test]
fn forge_import_names_come_from_symbol_aliases() {
    let a = forge_artifact("A", Some("0x6000"), &["B", "C"]);
    assert_eq!(forge::import_names(&a), vec!["B".to_string(), "C".to_string()]);
}

#[test]
fn truffle_import_names_strip_directories_and_extension() {
    let a = truffle_artifact("A", "0x6000", &["../lib/Token.sol", "Plain", "x/Double.sol.sol"]);
    assert_eq!(
        truffle::import_names(&a),
        vec!["Token".to_string(), "Plain".to_string(), "Double".to_string()]
    );
}

#[test]
fn truffle_artifact_dir_prefers_build() {
    assert_eq!(truffle::TruffleBuilder::artifact_dir(true, true), "build");
    assert_eq!(truffle::TruffleBuilder::artifact_dir(true, false), "src");
    assert_eq!(truffle::TruffleBuilder::artifact_dir(false, false), "");
}

fn unit(object: &str) -> ContractInfo {
    ContractInfo {
        evm: Evm {
            bytecode: Bytecode { object: object.to_string(), source_map: "1:2:0".to_string() },
            deployed_bytecode: DeployedBytecode { object: object.to_string(), source_map: "3:4:0".to_string() },
        },
    }
}

fn source(path: &str, id: u32) -> SourceInfo {
    SourceInfo {
        ast: Ast {
            absolute_path: path.to_string(),
            id,
            license: "MIT".to_string(),
            node_type: "SourceUnit".to_string(),
            src: "0:0:0".to_string(),
        },
    }
}

fn build_info() -> BuildInfoFile {
    BuildInfoFile {
        file_stem: "4f2a".to_string(),
        metadata: hardhat::Metadata {
            id: "4f2a".to_string(),
            format: "hh-sol-build-info-1".to_string(),
            solc_version: "0.8.19".to_string(),
            solc_long_version: "0.8.19+commit".to_string(),
            input: Input {
                sources: vec![
                    ("contracts/A.sol".to_string(), InputInfo { content: "A source".to_string() }),
                    ("contracts/B.sol".to_string(), InputInfo { content: "B source".to_string() }),
                ],
            },
            output: Output {
                sources: vec![
                    ("contracts/A.sol".to_string(), source("contracts/A.sol", 0)),
                    ("contracts/B.sol".to_string(), source("contracts/B.sol", 1)),
                ],
                contracts: vec![
                    ("contracts/A.sol".to_string(), vec![("A".to_string(), unit("60006000"))]),
                    ("contracts/B.sol".to_string(), vec![("B".to_string(), unit(""))]),
                    ("contracts/Gone.sol".to_string(), vec![("Gone".to_string(), unit("6000"))]),
                ],
            },
        },
    }
}

fn hardhat_artifact(stem: &str, links: &[&str]) -> ArtifactFile {
    ArtifactFile {
        contract_name: stem.to_string(),
        metadata: ContractMetadata {
            format: "hh-sol-artifact-1".to_string(),
            contract_name: stem.to_string(),
            source_name: format!("contracts/{}.sol", stem),
            bytecode: String::new(),
            deployed_bytecode: String::new(),
            link_references: LinkReferences {
                contracts: vec![(
                    "contracts/Lib.sol".to_string(),
                    links.iter().map(|l| (l.to_string(), vec![Reference { length: 20, start: 1 }])).collect(),
                )],
            },
        },
    }
}

#[test]
fn round_trip_hardhat() {
    let infos = vec![build_info()];
    let artifacts = vec![hardhat_artifact("A", &["B"]), hardhat_artifact("B", &[]), hardhat_artifact("A.dbg", &["B"])];
    let (_, contracts) = hardhat::process_artifacts_directory("repos/demo", &infos, &artifacts);
    assert_eq!(contracts.len(), 2);
    let a = find(&contracts, "A");
    let b = find(&contracts, "B");
    assert!(matches!(a.kind, ContractKind::Contract));
    assert!(matches!(b.kind, ContractKind::Interface));
    assert_eq!(import_names(a), vec!["B".to_string()]);
    assert!(import_names(b).is_empty());
    assert_eq!(a.file_contents.as_deref(), Some("A source"));
    assert_eq!(b.id, Some(1));
    assert_eq!(a.sourcemap.as_deref(), Some("1:2:0"));
    assert_eq!(a.deployed_sourcemap.as_deref(), Some("3:4:0"));
    let ordered = order_for_output(contracts);
    let names: Vec<&str> = ordered.iter().map(|c| c.contract_name.as_str()).collect();
    assert_eq!(names, vec!["B", "A"]);
}

#[test]
fn hardhat_debug_build_info_is_ignored() {
    let mut info = build_info();
    info.file_stem = "4f2a.dbg".to_string();
    let registry = hardhat::populate(&vec![info]);
    assert_eq!(registry.len(), 0);
}

#[test]
fn hardhat_find_entry_takes_first_match() {
    let entries = vec![("k".to_string(), 1u32), ("k".to_string(), 2u32), ("j".to_string(), 3u32)];
    assert_eq!(hardhat::find_entry(&entries, &"k".to_string()), Some(&1));
    assert_eq!(hardhat::find_entry(&entries, &"j".to_string()), Some(&3));
    assert_eq!(hardhat::find_entry(&entries, &"x".to_string()), None);
}
