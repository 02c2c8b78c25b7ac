//! Truffle build output: one JSON artifact per contract, whose AST names each
//! import by the path of the imported file.
use vstd::prelude::*;
use crate::contract::{classify, is_code_less, kind_of, Contract, ContractKind, ContractView};
use crate::registry::{
    all_classified, as_map, lemma_map_members, lemma_permutation_members, lemma_two_pass_members,
    lemma_two_pass_sound, names_unique, names_view, no_self_import, owners_unique, resolve_all,
    two_pass, unresolved, upsert_all, ContractRegistry, ImportLinks,
};
use crate::text::{final_segment, final_segment_of, same_text, trim_sol, trim_sol_of};

verus! {

/// The fields of a Truffle artifact.
pub struct Metadata {
    pub contract_name: String,
    pub metadata: String,
    pub bytecode: String,
    pub deployed_bytecode: String,
    pub immutable_references: Option<ImmutableReferences>,
    pub source_map: String,
    pub deployed_source_map: String,
    pub source: String,
    pub source_path: String,
    pub ast: Ast,
    pub schema_version: String,
    pub updated_at: String,
}

pub struct ImmutableReferences {}

/// The AST of the source unit an artifact was compiled from.
pub struct Ast {
    pub absolute_path: Option<String>,
    pub id: i64,
    pub license: Option<String>,
    pub node_type: String,
    pub nodes: Vec<Node>,
    pub src: String,
}

/// A top-level node of a source unit; an import directive names the imported file.
pub struct Node {
    pub absolute_path: Option<String>,
    pub file: Option<String>,
    pub id: i64,
    pub node_type: String,
}

pub struct Documentation {
    pub id: i64,
    pub node_type: String,
    pub src: String,
    pub text: String,
}

/// The Truffle toolchain.
pub struct TruffleBuilder;

impl TruffleBuilder {
    /// The directory below the project that holds the artifacts: `build` when
    /// it exists, else `src` when that exists, else the project itself.
    pub fn artifact_dir(src_exists: bool, build_exists: bool) -> (dir: &'static str)
        ensures
            build_exists ==> dir@ == "build"@,
            !build_exists && src_exists ==> dir@ == "src"@,
            !build_exists && !src_exists ==> dir@ == ""@,
    {
        if build_exists {
            "build"
        } else if src_exists {
            "src"
        } else {
            ""
        }
    }
}

/// One artifact file: its file stem and its contents.
pub struct TruffleArtifact {
    pub contract_name: String,
    pub metadata: Metadata,
}

/// The record an artifact yields: named by the file stem, with its creation code only.
pub open spec fn truffle_record(a: TruffleArtifact) -> ContractView {
    ContractView {
        name: a.contract_name@,
        kind: kind_of(a.metadata.bytecode@),
        bytecode: a.metadata.bytecode@,
        deployed_bytecode: None,
        sourcemap: None,
        deployed_sourcemap: None,
        absolute_path: None,
        id: None,
        file_contents: None,
        imports: None,
    }
}

/// The contract name an imported file path stands for: its final segment, less any `.sol`.
pub open spec fn imported_name(file: Seq<char>) -> Seq<char> {
    trim_sol(final_segment(file))
}

/// The names that the import directives among `nodes` refer to, in order.
pub open spec fn file_import_names(nodes: Seq<Node>) -> Seq<Seq<char>>
    decreases nodes.len(),
{
    if nodes.len() == 0 {
        Seq::empty()
    } else {
        let prior = file_import_names(nodes.drop_last());
        let n = nodes.last();
        if n.node_type@ == "ImportDirective"@ && n.file is Some {
            prior.push(imported_name(n.file.unwrap()@))
        } else {
            prior
        }
    }
}

pub open spec fn truffle_links(a: TruffleArtifact) -> ImportLinks {
    ImportLinks { own: a.contract_name@, names: file_import_names(a.metadata.ast.nodes@) }
}

/// The registry that the two passes produce from a sequence of artifacts.
pub open spec fn truffle_output(arts: Seq<TruffleArtifact>) -> Seq<ContractView> {
    two_pass(
        arts.map_values(|a: TruffleArtifact| truffle_record(a)),
        arts.map_values(|a: TruffleArtifact| truffle_links(a)),
    )
}

/// No two artifacts share a file stem.
pub open spec fn stems_distinct(arts: Seq<TruffleArtifact>) -> bool {
    forall|i: int, j: int|
        0 <= i < arts.len() && 0 <= j < arts.len() && i != j ==> arts[i].contract_name@
            != arts[j].contract_name@
}

/// Every record that a Truffle output tree yields is an interface exactly
/// when its creation code is empty, and no record is among its own imports.
pub proof fn lemma_truffle_output_sound(arts: Seq<TruffleArtifact>)
    ensures
        forall|i: int|
            0 <= i < truffle_output(arts).len() ==> (#[trigger] truffle_output(arts)[i].kind
                == ContractKind::Interface <==> is_code_less(truffle_output(arts)[i].bytecode)),
        no_self_import(truffle_output(arts)),
{
    let recs = arts.map_values(|a: TruffleArtifact| truffle_record(a));
    assert(all_classified(recs));
    assert(unresolved(recs));
    lemma_two_pass_sound(recs, arts.map_values(|a: TruffleArtifact| truffle_links(a)));
    let out = truffle_output(arts);
    assert forall|i: int| 0 <= i < out.len() implies (#[trigger] out[i].kind
        == ContractKind::Interface <==> is_code_less(out[i].bytecode)) by {
        assert(out[i].kind == kind_of(out[i].bytecode));
    }
}

/// Distinct stems give records with distinct names and links with distinct owners.
proof fn lemma_truffle_unique(arts: Seq<TruffleArtifact>)
    requires
        stems_distinct(arts),
    ensures
        names_unique(arts.map_values(|a: TruffleArtifact| truffle_record(a))),
        owners_unique(arts.map_values(|a: TruffleArtifact| truffle_links(a))),
{
    let recs = arts.map_values(|a: TruffleArtifact| truffle_record(a));
    let links = arts.map_values(|a: TruffleArtifact| truffle_links(a));
    assert forall|i: int, j: int|
        0 <= i < recs.len() && 0 <= j < recs.len() && i != j implies recs[i].name
        != recs[j].name by {
        assert(recs[i].name == arts[i].contract_name@);
        assert(recs[j].name == arts[j].contract_name@);
    }
    assert forall|i: int, j: int|
        0 <= i < links.len() && 0 <= j < links.len() && i != j implies links[i].own
        != links[j].own by {
        assert(links[i].own == arts[i].contract_name@);
        assert(links[j].own == arts[j].contract_name@);
    }
}

/// The same artifact files, walked in any order, give the same registry:
/// the same names, each with the same record and imports.
pub proof fn lemma_truffle_order_independent(
    arts1: Seq<TruffleArtifact>,
    arts2: Seq<TruffleArtifact>,
)
    requires
        arts1.to_multiset() == arts2.to_multiset(),
        stems_distinct(arts1),
        stems_distinct(arts2),
    ensures
        as_map(truffle_output(arts1)) == as_map(truffle_output(arts2)),
{
    let f = |a: TruffleArtifact| truffle_record(a);
    let g = |a: TruffleArtifact| truffle_links(a);
    lemma_permutation_members(arts1, arts2);
    lemma_map_members(arts1, arts2, f);
    lemma_map_members(arts1, arts2, g);
    lemma_truffle_unique(arts1);
    lemma_truffle_unique(arts2);
    lemma_two_pass_members(
        arts1.map_values(f),
        arts2.map_values(f),
        arts1.map_values(g),
        arts2.map_values(g),
    );
}

/// The record an artifact yields.
pub fn record_of(a: &TruffleArtifact) -> (c: Contract)
    ensures
        c@ == truffle_record(*a),
{
    Contract {
        contract_name: a.contract_name.clone(),
        kind: classify(a.metadata.bytecode.as_str()),
        bytecode: a.metadata.bytecode.clone(),
        deployed_bytecode: None,
        sourcemap: None,
        deployed_sourcemap: None,
        absolute_path: None,
        id: None,
        file_contents: None,
        imports: None,
    }
}

/// The names an artifact imports, in order.
pub fn import_names(a: &TruffleArtifact) -> (names: Vec<String>)
    ensures
        names_view(names@) == truffle_links(*a).names,
{
    let nodes = &a.metadata.ast.nodes;
    let mut names: Vec<String> = Vec::new();
    let mut i: usize = 0;
    while i < nodes.len()
        invariant
            i <= nodes@.len(),
            names_view(names@) == file_import_names(nodes@.take(i as int)),
        decreases nodes@.len() - i,
    {
        assert(nodes@.take(i + 1).drop_last() =~= nodes@.take(i as int));
        let node = &nodes[i];
        if same_text(node.node_type.as_str(), "ImportDirective") {
            match &node.file {
                Some(file) => {
                    let ghost prev = names@;
                    let name = trim_sol_of(final_segment_of(file.as_str())).to_owned();
                    names.push(name);
                    assert(names_view(names@) =~= names_view(prev).push(name@));
                },
                None => {},
            }
        }
        i += 1;
    }
    assert(nodes@.take(i as int) =~= nodes@);
    names
}

/// The first pass: every artifact's record is inserted, in order.
pub fn populate(artifacts: &Vec<TruffleArtifact>) -> (registry: ContractRegistry)
    ensures
        registry.wf(),
        registry@ == upsert_all(
            Seq::empty(),
            artifacts@.map_values(|a: TruffleArtifact| truffle_record(a)),
        ),
{
    let ghost records = artifacts@.map_values(|a: TruffleArtifact| truffle_record(a));
    let mut registry = ContractRegistry::new();
    let mut i: usize = 0;
    while i < artifacts.len()
        invariant
            i <= artifacts@.len(),
            registry.wf(),
            records == artifacts@.map_values(|a: TruffleArtifact| truffle_record(a)),
            registry@ == upsert_all(Seq::empty(), records.take(i as int)),
        decreases artifacts@.len() - i,
    {
        assert(records.take(i + 1).drop_last() =~= records.take(i as int));
        registry.insert(record_of(&artifacts[i]));
        i += 1;
    }
    assert(records.take(i as int) =~= records);
    registry
}

/// The second pass: each artifact's imports are looked up in a snapshot taken
/// before the pass and attached to its record.
pub fn resolve_imports(artifacts: &Vec<TruffleArtifact>, registry: &mut ContractRegistry)
    requires
        old(registry).wf(),
    ensures
        final(registry).wf(),
        final(registry)@ == resolve_all(
            old(registry)@,
            artifacts@.map_values(|a: TruffleArtifact| truffle_links(a)),
            old(registry)@,
        ),
{
    let snapshot = registry.snapshot();
    let ghost links = artifacts@.map_values(|a: TruffleArtifact| truffle_links(a));
    let ghost start = registry@;
    let mut i: usize = 0;
    while i < artifacts.len()
        invariant
            i <= artifacts@.len(),
            registry.wf(),
            snapshot.wf(),
            snapshot@ == start,
            links == artifacts@.map_values(|a: TruffleArtifact| truffle_links(a)),
            registry@ == resolve_all(start, links.take(i as int), start),
        decreases artifacts@.len() - i,
    {
        assert(links.take(i + 1).drop_last() =~= links.take(i as int));
        let names = import_names(&artifacts[i]);
        registry.resolve_links(&artifacts[i].contract_name, &names, &snapshot);
        i += 1;
    }
    assert(links.take(i as int) =~= links);
}

/// Both passes over the artifacts of a Truffle output tree; the records come in registry order.
pub fn process_truffle_directory(repo_directory: &str, artifacts: &Vec<TruffleArtifact>) -> (result: (
    String,
    Vec<Contract>,
))
    ensures
        result.0@ == repo_directory@,
        result.1@.map_values(|c: Contract| c@) == truffle_output(artifacts@),
{
    let mut registry = populate(artifacts);
    resolve_imports(artifacts, &mut registry);
    (repo_directory.to_owned(), registry.into_records())
}

} // verus!
