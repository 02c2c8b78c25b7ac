//! Foundry build output: one JSON artifact per contract under `out/`, holding
//! its bytecode and its compiler AST.
use vstd::prelude::*;
use crate::contract::{
    classify, copy_text, is_code_less, kind_of, text_view, Contract, ContractKind, ContractView,
};
use crate::registry::{
    all_classified, as_map, lemma_map_members, lemma_permutation_members, lemma_two_pass_members,
    lemma_two_pass_sound, names_unique, names_view, no_self_import, owners_unique, resolve_all,
    two_pass, unresolved, upsert_all, ContractRegistry, ImportLinks,
};
use crate::text::same_text;

verus! {

/// The Foundry toolchain.
pub struct ForgeBuilder;

/// Creation or runtime code of an artifact: `0x`-prefixed hex and its source map.
pub struct BytecodeObject {
    pub object: String,
    pub source_map: Option<String>,
}

/// The runtime part of an artifact.
pub struct DeployedBytecodeObject {
    pub bytecode: Option<BytecodeObject>,
}

/// A top-level node of a source unit's AST, with the names its symbol aliases import.
pub struct AstNode {
    pub node_type: String,
    pub symbol_aliases: Vec<String>,
}

/// The AST of the source unit an artifact was compiled from.
pub struct SourceUnit {
    pub absolute_path: String,
    pub nodes: Vec<AstNode>,
}

/// One artifact file: its file stem, the fields read from it, and the text of
/// its source file when that could be read.
pub struct ForgeArtifact {
    pub contract_name: String,
    pub id: Option<u32>,
    pub bytecode: Option<BytecodeObject>,
    pub deployed_bytecode: Option<DeployedBytecodeObject>,
    pub ast: Option<SourceUnit>,
    pub file_contents: Option<String>,
}

/// The record an artifact yields: none unless it has creation code, runtime
/// code and an AST.
pub open spec fn forge_record(a: ForgeArtifact) -> Option<ContractView> {
    match (a.bytecode, a.deployed_bytecode, a.ast) {
        (Some(code), Some(DeployedBytecodeObject { bytecode: Some(runtime) }), Some(ast)) => Some(
            ContractView {
                name: a.contract_name@,
                kind: kind_of(code.object@),
                bytecode: code.object@,
                deployed_bytecode: Some(runtime.object@),
                sourcemap: text_view(code.source_map),
                deployed_sourcemap: text_view(runtime.source_map),
                absolute_path: Some(ast.absolute_path@),
                id: a.id,
                file_contents: text_view(a.file_contents),
                imports: None,
            },
        ),
        _ => None,
    }
}

/// The records that a sequence of artifacts yields, in order.
pub open spec fn forge_records(arts: Seq<ForgeArtifact>) -> Seq<ContractView>
    decreases arts.len(),
{
    if arts.len() == 0 {
        Seq::empty()
    } else {
        let prior = forge_records(arts.drop_last());
        match forge_record(arts.last()) {
            Some(r) => prior.push(r),
            None => prior,
        }
    }
}

pub open spec fn is_import_directive(n: AstNode) -> bool {
    n.node_type@ == "ImportDirective"@
}

/// The names that the import directives among `nodes` bring in by symbol alias, in order.
pub open spec fn alias_names(nodes: Seq<AstNode>) -> Seq<Seq<char>>
    decreases nodes.len(),
{
    if nodes.len() == 0 {
        Seq::empty()
    } else {
        let prior = alias_names(nodes.drop_last());
        if is_import_directive(nodes.last()) {
            prior + names_view(nodes.last().symbol_aliases@)
        } else {
            prior
        }
    }
}

/// The import links of an artifact.
pub open spec fn forge_links(a: ForgeArtifact) -> ImportLinks {
    ImportLinks {
        own: a.contract_name@,
        names: match a.ast {
            Some(ast) => alias_names(ast.nodes@),
            None => Seq::empty(),
        },
    }
}

/// The registry that the two passes produce from a sequence of artifacts.
pub open spec fn forge_output(arts: Seq<ForgeArtifact>) -> Seq<ContractView> {
    two_pass(forge_records(arts), arts.map_values(|a: ForgeArtifact| forge_links(a)))
}

/// No two artifacts share a file stem.
pub open spec fn stems_distinct(arts: Seq<ForgeArtifact>) -> bool {
    forall|i: int, j: int|
        0 <= i < arts.len() && 0 <= j < arts.len() && i != j ==> arts[i].contract_name@
            != arts[j].contract_name@
}

/// The records of a sequence of artifacts are classified, have no imports yet,
/// and are exactly those of its artifacts; with distinct stems their names are distinct.
proof fn lemma_forge_records(arts: Seq<ForgeArtifact>)
    ensures
        all_classified(forge_records(arts)),
        unresolved(forge_records(arts)),
        forall|x: ContractView|
            forge_records(arts).contains(x) <==> exists|i: int|
                0 <= i < arts.len() && #[trigger] forge_record(arts[i]) == Some(x),
        stems_distinct(arts) ==> names_unique(forge_records(arts)),
    decreases arts.len(),
{
    if arts.len() > 0 {
        let prior_arts = arts.drop_last();
        lemma_forge_records(prior_arts);
        let prior = forge_records(prior_arts);
        let out = forge_records(arts);
        let last = arts.len() - 1;
        assert(arts.last() == arts[last]);
        assert forall|i: int| 0 <= i < prior_arts.len() implies prior_arts[i] == arts[i] by {}
        assert forall|x: ContractView|
            out.contains(x) <==> exists|i: int|
                0 <= i < arts.len() && #[trigger] forge_record(arts[i]) == Some(x) by {
            if out.contains(x) {
                let k = choose|k: int| 0 <= k < out.len() && out[k] == x;
                if k < prior.len() {
                    assert(prior.contains(x));
                    let i = choose|i: int|
                        0 <= i < prior_arts.len() && #[trigger] forge_record(prior_arts[i]) == Some(x);
                    assert(forge_record(arts[i]) == Some(x));
                } else {
                    assert(forge_record(arts[last]) == Some(x));
                }
            }
            if exists|i: int| 0 <= i < arts.len() && #[trigger] forge_record(arts[i]) == Some(x) {
                let i = choose|i: int| 0 <= i < arts.len() && #[trigger] forge_record(arts[i]) == Some(x);
                if i < last {
                    assert(forge_record(prior_arts[i]) == Some(x));
                    assert(prior.contains(x));
                    let k = choose|k: int| 0 <= k < prior.len() && prior[k] == x;
                    assert(out[k] == x);
                } else {
                    assert(out[out.len() - 1] == x);
                }
            }
        }
        assert forall|k: int| 0 <= k < out.len() implies #[trigger] out[k].kind == kind_of(
            out[k].bytecode,
        ) && out[k].imports is None by {
            if k < prior.len() {
                assert(out[k] == prior[k]);
            }
        }
        if stems_distinct(arts) {
            assert(stems_distinct(prior_arts)) by {
                assert forall|i: int, j: int|
                    0 <= i < prior_arts.len() && 0 <= j < prior_arts.len() && i != j implies prior_arts[i].contract_name@
                    != prior_arts[j].contract_name@ by {
                    assert(prior_arts[i] == arts[i] && prior_arts[j] == arts[j]);
                }
            }
            assert forall|a: int, b: int|
                0 <= a < out.len() && 0 <= b < out.len() && a != b implies out[a].name
                != out[b].name by {
                if a < prior.len() && b < prior.len() {
                    assert(out[a] == prior[a] && out[b] == prior[b]);
                } else if a < prior.len() {
                    assert(out[a] == prior[a]);
                    assert(prior.contains(prior[a]));
                    let i = choose|i: int|
                        0 <= i < prior_arts.len() && #[trigger] forge_record(prior_arts[i]) == Some(
                            prior[a],
                        );
                    assert(forge_record(arts[last]) == Some(out[b]));
                    assert(arts[i].contract_name@ != arts[last].contract_name@);
                } else if b < prior.len() {
                    assert(out[b] == prior[b]);
                    assert(prior.contains(prior[b]));
                    let i = choose|i: int|
                        0 <= i < prior_arts.len() && #[trigger] forge_record(prior_arts[i]) == Some(
                            prior[b],
                        );
                    assert(forge_record(arts[last]) == Some(out[a]));
                    assert(arts[i].contract_name@ != arts[last].contract_name@);
                }
            }
        }
    }
}

/// Every record that a Foundry output tree yields is an interface exactly
/// when its creation code is empty, and no record is among its own imports.
pub proof fn lemma_forge_output_sound(arts: Seq<ForgeArtifact>)
    ensures
        forall|i: int|
            0 <= i < forge_output(arts).len() ==> (#[trigger] forge_output(arts)[i].kind
                == ContractKind::Interface <==> is_code_less(forge_output(arts)[i].bytecode)),
        no_self_import(forge_output(arts)),
{
    lemma_forge_records(arts);
    lemma_two_pass_sound(forge_records(arts), arts.map_values(|a: ForgeArtifact| forge_links(a)));
    let out = forge_output(arts);
    assert forall|i: int| 0 <= i < out.len() implies (#[trigger] out[i].kind
        == ContractKind::Interface <==> is_code_less(out[i].bytecode)) by {
        assert(out[i].kind == kind_of(out[i].bytecode));
    }
}

/// Distinct stems give import links with distinct owners.
proof fn lemma_forge_links_unique(arts: Seq<ForgeArtifact>)
    requires
        stems_distinct(arts),
    ensures
        owners_unique(arts.map_values(|a: ForgeArtifact| forge_links(a))),
{
    let links = arts.map_values(|a: ForgeArtifact| forge_links(a));
    assert forall|i: int, j: int|
        0 <= i < links.len() && 0 <= j < links.len() && i != j implies links[i].own
        != links[j].own by {
        assert(links[i].own == arts[i].contract_name@);
        assert(links[j].own == arts[j].contract_name@);
    }
}

/// The same artifact files, walked in any order, give the same registry:
/// the same names, each with the same record and imports.
pub proof fn lemma_forge_order_independent(arts1: Seq<ForgeArtifact>, arts2: Seq<ForgeArtifact>)
    requires
        arts1.to_multiset() == arts2.to_multiset(),
        stems_distinct(arts1),
        stems_distinct(arts2),
    ensures
        as_map(forge_output(arts1)) == as_map(forge_output(arts2)),
{
    lemma_permutation_members(arts1, arts2);
    lemma_forge_records(arts1);
    lemma_forge_records(arts2);
    let r1 = forge_records(arts1);
    let r2 = forge_records(arts2);
    assert forall|x: ContractView| r1.contains(x) implies r2.contains(x) by {
        let i = choose|i: int| 0 <= i < arts1.len() && #[trigger] forge_record(arts1[i]) == Some(x);
        assert(arts1.contains(arts1[i]));
        let j = choose|j: int| 0 <= j < arts2.len() && arts2[j] == arts1[i];
        assert(forge_record(arts2[j]) == Some(x));
    }
    assert forall|x: ContractView| r2.contains(x) implies r1.contains(x) by {
        let j = choose|j: int| 0 <= j < arts2.len() && #[trigger] forge_record(arts2[j]) == Some(x);
        assert(arts2.contains(arts2[j]));
        let i = choose|i: int| 0 <= i < arts1.len() && arts1[i] == arts2[j];
        assert(forge_record(arts1[i]) == Some(x));
    }
    let f = |a: ForgeArtifact| forge_links(a);
    lemma_map_members(arts1, arts2, f);
    lemma_forge_links_unique(arts1);
    lemma_forge_links_unique(arts2);
    lemma_two_pass_members(r1, r2, arts1.map_values(f), arts2.map_values(f));
}

/// Copies a bytecode object.
fn copy_code(b: &BytecodeObject) -> (r: BytecodeObject)
    ensures
        r == *b,
{
    BytecodeObject { object: b.object.clone(), source_map: copy_text(&b.source_map) }
}

/// The record an artifact yields, if any.
pub fn record_of(a: &ForgeArtifact) -> (r: Option<Contract>)
    ensures
        match r {
            Some(c) => forge_record(*a) == Some(c@),
            None => forge_record(*a) is None,
        },
{
    let code = match &a.bytecode {
        Some(code) => code,
        None => return None,
    };
    let runtime = match &a.deployed_bytecode {
        Some(DeployedBytecodeObject { bytecode: Some(runtime) }) => runtime,
        _ => return None,
    };
    let ast = match &a.ast {
        Some(ast) => ast,
        None => return None,
    };
    let code = copy_code(code);
    let runtime = copy_code(runtime);
    Some(
        Contract {
            contract_name: a.contract_name.clone(),
            kind: classify(code.object.as_str()),
            bytecode: code.object,
            deployed_bytecode: Some(runtime.object),
            sourcemap: code.source_map,
            deployed_sourcemap: runtime.source_map,
            absolute_path: Some(ast.absolute_path.clone()),
            id: a.id,
            file_contents: copy_text(&a.file_contents),
            imports: None,
        },
    )
}

/// The names an artifact imports by symbol alias, in order.
pub fn import_names(a: &ForgeArtifact) -> (names: Vec<String>)
    ensures
        names_view(names@) == forge_links(*a).names,
{
    let mut names: Vec<String> = Vec::new();
    match &a.ast {
        None => {},
        Some(ast) => {
            let mut i: usize = 0;
            while i < ast.nodes.len()
                invariant
                    i <= ast.nodes@.len(),
                    names_view(names@) == alias_names(ast.nodes@.take(i as int)),
                decreases ast.nodes@.len() - i,
            {
                assert(ast.nodes@.take(i + 1).drop_last() =~= ast.nodes@.take(i as int));
                let node = &ast.nodes[i];
                if same_text(node.node_type.as_str(), "ImportDirective") {
                    let mut j: usize = 0;
                    let ghost before = names_view(names@);
                    while j < node.symbol_aliases.len()
                        invariant
                            j <= node.symbol_aliases@.len(),
                            names_view(names@) == before + names_view(
                                node.symbol_aliases@.take(j as int),
                            ),
                        decreases node.symbol_aliases@.len() - j,
                    {
                        let ghost prev = names@;
                        let ghost aliases = node.symbol_aliases@;
                        names.push(node.symbol_aliases[j].clone());
                        proof {
                            assert(names_view(names@) =~= names_view(prev).push(aliases[j as int]@));
                            assert(names_view(aliases.take(j + 1)) =~= names_view(
                                aliases.take(j as int),
                            ).push(aliases[j as int]@));
                            assert(names_view(names@) =~= before + names_view(
                                node.symbol_aliases@.take(j + 1),
                            ));
                        }
                        j += 1;
                    }
                    assert(node.symbol_aliases@.take(j as int) =~= node.symbol_aliases@);
                }
                i += 1;
            }
            assert(ast.nodes@.take(i as int) =~= ast.nodes@);
        },
    }
    names
}

/// The first pass: every artifact that yields a record is inserted, in order.
pub fn populate(artifacts: &Vec<ForgeArtifact>) -> (registry: ContractRegistry)
    ensures
        registry.wf(),
        registry@ == upsert_all(Seq::empty(), forge_records(artifacts@)),
{
    let mut registry = ContractRegistry::new();
    let mut i: usize = 0;
    while i < artifacts.len()
        invariant
            i <= artifacts@.len(),
            registry.wf(),
            registry@ == upsert_all(Seq::empty(), forge_records(artifacts@.take(i as int))),
        decreases artifacts@.len() - i,
    {
        let ghost prefix = artifacts@.take(i as int);
        assert(artifacts@.take(i + 1).drop_last() =~= prefix);
        match record_of(&artifacts[i]) {
            Some(record) => {
                let ghost r = record@;
                registry.insert(record);
                assert(forge_records(artifacts@.take(i + 1)) == forge_records(prefix).push(r));
                assert(forge_records(prefix).push(r).drop_last() =~= forge_records(prefix));
            },
            None => {},
        }
        i += 1;
    }
    assert(artifacts@.take(i as int) =~= artifacts@);
    registry
}

/// The second pass: each artifact's imports are looked up in a snapshot taken
/// before the pass and attached to its record.
pub fn resolve_imports(artifacts: &Vec<ForgeArtifact>, registry: &mut ContractRegistry)
    requires
        old(registry).wf(),
    ensures
        final(registry).wf(),
        final(registry)@ == resolve_all(
            old(registry)@,
            artifacts@.map_values(|a: ForgeArtifact| forge_links(a)),
            old(registry)@,
        ),
{
    let snapshot = registry.snapshot();
    let ghost links = artifacts@.map_values(|a: ForgeArtifact| forge_links(a));
    let ghost start = registry@;
    let mut i: usize = 0;
    while i < artifacts.len()
        invariant
            i <= artifacts@.len(),
            registry.wf(),
            snapshot.wf(),
            snapshot@ == start,
            links == artifacts@.map_values(|a: ForgeArtifact| forge_links(a)),
            registry@ == resolve_all(start, links.take(i as int), start),
        decreases artifacts@.len() - i,
    {
        assert(links.take(i + 1).drop_last() =~= links.take(i as int));
        let names = import_names(&artifacts[i]);
        registry.resolve_links(&artifacts[i].contract_name, &names, &snapshot);
        i += 1;
    }
    assert(links.take(i as int) =~= links);
}

/// Both passes over the artifacts of a Foundry output tree; the records come in registry order.
pub fn process_out_directory(repo_directory: &str, artifacts: &Vec<ForgeArtifact>) -> (result: (
    String,
    Vec<Contract>,
))
    ensures
        result.0@ == repo_directory@,
        result.1@.map_values(|c: Contract| c@) == forge_output(artifacts@),
{
    let mut registry = populate(artifacts);
    resolve_imports(artifacts, &mut registry);
    (repo_directory.to_owned(), registry.into_records())
}

} // verus!
