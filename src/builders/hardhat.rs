//! Hardhat build output: combined build-info files under `artifacts/build-info/`
//! hold the compiled contracts with their sources and ASTs, and per-contract
//! artifacts hold the link references from which imports are recovered.
use vstd::prelude::*;
use crate::contract::{classify, is_code_less, kind_of, Contract, ContractKind, ContractView};
use crate::registry::{
    all_classified, as_map, lemma_permutation_members, lemma_two_pass_members,
    lemma_two_pass_sound, lemma_upsert_all_concat, names_unique, names_view, no_self_import,
    owners_unique, resolve_all, two_pass, unresolved, upsert_all, ContractRegistry,
    ImportLinks,
};
use crate::text::{ends_with, has_suffix};

verus! {

/// A build-info file: the compiler input and output of one compilation.
pub struct Metadata {
    pub id: String,
    pub format: String,
    pub solc_version: String,
    pub solc_long_version: String,
    pub input: Input,
    pub output: Output,
}

/// Source texts by file path.
pub struct Input {
    pub sources: Vec<(String, InputInfo)>,
}

pub struct InputInfo {
    pub content: String,
}

/// ASTs by file path, and compiled contracts by file path and then by contract name.
pub struct Output {
    pub sources: Vec<(String, SourceInfo)>,
    pub contracts: Vec<(String, Vec<(String, ContractInfo)>)>,
}

pub struct SourceInfo {
    pub ast: Ast,
}

pub struct Ast {
    pub absolute_path: String,
    pub id: u32,
    pub license: String,
    pub node_type: String,
    pub src: String,
}

pub struct ContractInfo {
    pub evm: Evm,
}

pub struct Evm {
    pub bytecode: Bytecode,
    pub deployed_bytecode: DeployedBytecode,
}

/// Creation code as hex without prefix (empty for an interface), and its source map.
pub struct Bytecode {
    pub object: String,
    pub source_map: String,
}

pub struct DeployedBytecode {
    pub object: String,
    pub source_map: String,
}

/// A per-contract artifact.
pub struct ContractMetadata {
    pub format: String,
    pub contract_name: String,
    pub source_name: String,
    pub bytecode: String,
    pub deployed_bytecode: String,
    pub link_references: LinkReferences,
}

/// Libraries to link, by file path and then by contract name.
pub struct LinkReferences {
    pub contracts: Vec<(String, Vec<(String, Vec<Reference>)>)>,
}

pub struct Reference {
    pub length: u32,
    pub start: u32,
}

/// The package manager that drives a Hardhat build.
#[derive(Clone, Copy, Debug, PartialEq, Eq, Structural)]
pub enum HardhatMode {
    Yarn,
    Npm,
}

/// The Hardhat toolchain, in one of its two modes.
pub struct HardhatBuilder {
    pub mode: HardhatMode,
}

impl HardhatBuilder {
    pub fn new(mode: HardhatMode) -> (b: Self)
        ensures
            b.mode == mode,
    {
        Self { mode }
    }

    pub fn set_mode(&mut self, mode: HardhatMode)
        ensures
            final(self).mode == mode,
    {
        self.mode = mode;
    }

    /// The install and compile commands of the current mode, each as program and argument.
    pub fn commands(&self) -> (r: (&'static str, &'static str, &'static str, &'static str))
        ensures
            self.mode == HardhatMode::Yarn ==> r.0@ == "yarn"@ && r.1@ == "install"@ && r.2@
                == "yarn"@ && r.3@ == "compile"@,
            self.mode == HardhatMode::Npm ==> r.0@ == "npm"@ && r.1@ == "install"@ && r.2@
                == "npx"@ && r.3@ == "hardhat compile"@,
    {
        match self.mode {
            HardhatMode::Yarn => ("yarn", "install", "yarn", "compile"),
            HardhatMode::Npm => ("npm", "install", "npx", "hardhat compile"),
        }
    }

    /// Switches to the other mode.
    pub fn flip_mode(&mut self)
        ensures
            final(self).mode == match old(self).mode {
                HardhatMode::Yarn => HardhatMode::Npm,
                HardhatMode::Npm => HardhatMode::Yarn,
            },
    {
        match self.mode {
            HardhatMode::Yarn => self.mode = HardhatMode::Npm,
            HardhatMode::Npm => self.mode = HardhatMode::Yarn,
        }
    }
}

/// A build-info file: its file stem and its contents.
pub struct BuildInfoFile {
    pub file_stem: String,
    pub metadata: Metadata,
}

/// A per-contract artifact file: its file stem and its contents.
pub struct ArtifactFile {
    pub contract_name: String,
    pub metadata: ContractMetadata,
}

pub open spec fn debug_suffix() -> Seq<char> {
    seq!['.', 'd', 'b', 'g']
}

/// Files whose stem ends in `.dbg` are debug companions, not artifacts.
pub open spec fn is_debug_stem(stem: Seq<char>) -> bool {
    ends_with(stem, debug_suffix())
}

/// The value of the first entry whose key is `key`.
pub open spec fn find_key<T>(entries: Seq<(String, T)>, key: Seq<char>) -> Option<T>
    decreases entries.len(),
{
    if entries.len() == 0 {
        None
    } else {
        match find_key(entries.drop_last(), key) {
            Some(v) => Some(v),
            None => if entries.last().0@ == key {
                Some(entries.last().1)
            } else {
                None
            },
        }
    }
}

/// The record of one compiled contract, with the AST and text of its source file.
pub open spec fn hardhat_record(
    name: String,
    info: ContractInfo,
    source: SourceInfo,
    input: InputInfo,
) -> ContractView {
    ContractView {
        name: name@,
        kind: kind_of(info.evm.bytecode.object@),
        bytecode: info.evm.bytecode.object@,
        deployed_bytecode: Some(info.evm.deployed_bytecode.object@),
        sourcemap: Some(info.evm.bytecode.source_map@),
        deployed_sourcemap: Some(info.evm.deployed_bytecode.source_map@),
        absolute_path: Some(source.ast.absolute_path@),
        id: Some(source.ast.id),
        file_contents: Some(input.content@),
        imports: None,
    }
}

/// The records of the contracts of one source file.
pub open spec fn unit_records(
    units: Seq<(String, ContractInfo)>,
    source: SourceInfo,
    input: InputInfo,
) -> Seq<ContractView> {
    units.map_values(|u: (String, ContractInfo)| hardhat_record(u.0, u.1, source, input))
}

/// The records of the compiled contracts, file by file; a file whose AST or
/// source text is missing yields none.
pub open spec fn entries_records(
    entries: Seq<(String, Vec<(String, ContractInfo)>)>,
    m: Metadata,
) -> Seq<ContractView>
    decreases entries.len(),
{
    if entries.len() == 0 {
        Seq::empty()
    } else {
        let prior = entries_records(entries.drop_last(), m);
        let path = entries.last().0@;
        match (find_key(m.output.sources@, path), find_key(m.input.sources@, path)) {
            (Some(source), Some(input)) => prior + unit_records(entries.last().1@, source, input),
            _ => prior,
        }
    }
}

pub open spec fn build_info_records(m: Metadata) -> Seq<ContractView> {
    entries_records(m.output.contracts@, m)
}

/// The records that a sequence of build-info files yields, in order.
pub open spec fn hardhat_records(files: Seq<BuildInfoFile>) -> Seq<ContractView>
    decreases files.len(),
{
    if files.len() == 0 {
        Seq::empty()
    } else {
        let prior = hardhat_records(files.drop_last());
        if is_debug_stem(files.last().file_stem@) {
            prior
        } else {
            prior + build_info_records(files.last().metadata)
        }
    }
}

/// The contract names in a link-reference table, in order.
pub open spec fn linked_names(table: Seq<(String, Vec<(String, Vec<Reference>)>)>) -> Seq<
    Seq<char>,
>
    decreases table.len(),
{
    if table.len() == 0 {
        Seq::empty()
    } else {
        linked_names(table.drop_last()) + table.last().1@.map_values(
            |e: (String, Vec<Reference>)| e.0@,
        )
    }
}

/// The import links of the artifact files, debug companions left out.
pub open spec fn hardhat_links(arts: Seq<ArtifactFile>) -> Seq<ImportLinks>
    decreases arts.len(),
{
    if arts.len() == 0 {
        Seq::empty()
    } else {
        let prior = hardhat_links(arts.drop_last());
        let a = arts.last();
        if is_debug_stem(a.contract_name@) {
            prior
        } else {
            prior.push(links_of_artifact(a))
        }
    }
}

/// The registry that the two passes produce.
pub open spec fn hardhat_output(files: Seq<BuildInfoFile>, arts: Seq<ArtifactFile>) -> Seq<
    ContractView,
> {
    two_pass(hardhat_records(files), hardhat_links(arts))
}

/// Records that are classified and have no imports yet.
pub open spec fn fresh(s: Seq<ContractView>) -> bool {
    all_classified(s) && unresolved(s)
}

proof fn lemma_fresh_concat(a: Seq<ContractView>, b: Seq<ContractView>)
    requires
        fresh(a),
        fresh(b),
    ensures
        fresh(a + b),
{
    assert forall|i: int| 0 <= i < (a + b).len() implies #[trigger] (a + b)[i].kind == kind_of(
        (a + b)[i].bytecode,
    ) && (a + b)[i].imports is None by {
        if i < a.len() {
            assert((a + b)[i] == a[i]);
        } else {
            assert((a + b)[i] == b[i - a.len()]);
        }
    }
}

proof fn lemma_entries_fresh(entries: Seq<(String, Vec<(String, ContractInfo)>)>, m: Metadata)
    ensures
        fresh(entries_records(entries, m)),
    decreases entries.len(),
{
    if entries.len() > 0 {
        lemma_entries_fresh(entries.drop_last(), m);
        let path = entries.last().0@;
        match (find_key(m.output.sources@, path), find_key(m.input.sources@, path)) {
            (Some(source), Some(input)) => {
                let units = unit_records(entries.last().1@, source, input);
                assert(fresh(units));
                lemma_fresh_concat(entries_records(entries.drop_last(), m), units);
            },
            _ => {},
        }
    }
}

/// The records of a sequence of build-info files are classified and have no
/// imports yet, and are exactly those of its files that are not debug companions.
proof fn lemma_hardhat_records(files: Seq<BuildInfoFile>)
    ensures
        fresh(hardhat_records(files)),
        forall|x: ContractView|
            hardhat_records(files).contains(x) <==> exists|i: int|
                0 <= i < files.len() && !is_debug_stem(files[i].file_stem@)
                    && #[trigger] build_info_records(files[i].metadata).contains(x),
    decreases files.len(),
{
    if files.len() > 0 {
        let prior_files = files.drop_last();
        lemma_hardhat_records(prior_files);
        let prior = hardhat_records(prior_files);
        let last = files.len() - 1;
        assert(files.last() == files[last]);
        assert forall|i: int| 0 <= i < prior_files.len() implies prior_files[i] == files[i] by {}
        if !is_debug_stem(files[last].file_stem@) {
            let added = build_info_records(files[last].metadata);
            lemma_entries_fresh(files[last].metadata.output.contracts@, files[last].metadata);
            lemma_fresh_concat(prior, added);
            let out = prior + added;
            assert forall|x: ContractView|
                out.contains(x) <==> exists|i: int|
                    0 <= i < files.len() && !is_debug_stem(files[i].file_stem@)
                        && #[trigger] build_info_records(files[i].metadata).contains(x) by {
                if out.contains(x) {
                    let k = choose|k: int| 0 <= k < out.len() && out[k] == x;
                    if k < prior.len() {
                        assert(prior[k] == x);
                        assert(prior.contains(x));
                        let i = choose|i: int|
                            0 <= i < prior_files.len() && !is_debug_stem(prior_files[i].file_stem@)
                                && #[trigger] build_info_records(prior_files[i].metadata).contains(x);
                        assert(files[i] == prior_files[i]);
                    } else {
                        assert(added[k - prior.len()] == x);
                        assert(added.contains(x));
                    }
                }
                if exists|i: int|
                    0 <= i < files.len() && !is_debug_stem(files[i].file_stem@)
                        && #[trigger] build_info_records(files[i].metadata).contains(x) {
                    let i = choose|i: int|
                        0 <= i < files.len() && !is_debug_stem(files[i].file_stem@)
                            && #[trigger] build_info_records(files[i].metadata).contains(x);
                    if i < last {
                        assert(files[i] == prior_files[i]);
                        assert(prior.contains(x));
                        let k = choose|k: int| 0 <= k < prior.len() && prior[k] == x;
                        assert(out[k] == x);
                    } else {
                        let k = choose|k: int| 0 <= k < added.len() && added[k] == x;
                        assert(out[prior.len() + k] == x);
                    }
                }
            }
        } else {
            assert forall|x: ContractView|
                prior.contains(x) <==> exists|i: int|
                    0 <= i < files.len() && !is_debug_stem(files[i].file_stem@)
                        && #[trigger] build_info_records(files[i].metadata).contains(x) by {
                if exists|i: int|
                    0 <= i < files.len() && !is_debug_stem(files[i].file_stem@)
                        && #[trigger] build_info_records(files[i].metadata).contains(x) {
                    let i = choose|i: int|
                        0 <= i < files.len() && !is_debug_stem(files[i].file_stem@)
                            && #[trigger] build_info_records(files[i].metadata).contains(x);
                    assert(i != last);
                    assert(files[i] == prior_files[i]);
                }
                if prior.contains(x) {
                    let i = choose|i: int|
                        0 <= i < prior_files.len() && !is_debug_stem(prior_files[i].file_stem@)
                            && #[trigger] build_info_records(prior_files[i].metadata).contains(x);
                    assert(files[i] == prior_files[i]);
                }
            }
        }
    }
}

/// The import links of one artifact file.
pub open spec fn links_of_artifact(a: ArtifactFile) -> ImportLinks {
    ImportLinks { own: a.contract_name@, names: linked_names(a.metadata.link_references.contracts@) }
}

/// The links are exactly those of the artifact files that are not debug companions.
proof fn lemma_hardhat_links(arts: Seq<ArtifactFile>)
    ensures
        forall|l: ImportLinks|
            hardhat_links(arts).contains(l) <==> exists|i: int|
                0 <= i < arts.len() && !is_debug_stem(arts[i].contract_name@)
                    && #[trigger] links_of_artifact(arts[i]) == l,
    decreases arts.len(),
{
    if arts.len() > 0 {
        let prior_arts = arts.drop_last();
        lemma_hardhat_links(prior_arts);
        let prior = hardhat_links(prior_arts);
        let out = hardhat_links(arts);
        let last = arts.len() - 1;
        assert(arts.last() == arts[last]);
        assert forall|i: int| 0 <= i < prior_arts.len() implies prior_arts[i] == arts[i] by {}
        assert forall|l: ImportLinks|
            out.contains(l) <==> exists|i: int|
                0 <= i < arts.len() && !is_debug_stem(arts[i].contract_name@)
                    && #[trigger] links_of_artifact(arts[i]) == l by {
            if out.contains(l) {
                let k = choose|k: int| 0 <= k < out.len() && out[k] == l;
                if k < prior.len() {
                    assert(prior[k] == l);
                    assert(prior.contains(l));
                    let i = choose|i: int|
                        0 <= i < prior_arts.len() && !is_debug_stem(prior_arts[i].contract_name@)
                            && #[trigger] links_of_artifact(prior_arts[i]) == l;
                    assert(arts[i] == prior_arts[i]);
                } else {
                    assert(links_of_artifact(arts[last]) == l);
                }
            }
            if exists|i: int|
                0 <= i < arts.len() && !is_debug_stem(arts[i].contract_name@)
                    && #[trigger] links_of_artifact(arts[i]) == l {
                let i = choose|i: int|
                    0 <= i < arts.len() && !is_debug_stem(arts[i].contract_name@)
                        && #[trigger] links_of_artifact(arts[i]) == l;
                if i < last {
                    assert(arts[i] == prior_arts[i]);
                    assert(prior.contains(l));
                    let k = choose|k: int| 0 <= k < prior.len() && prior[k] == l;
                    assert(out[k] == l);
                } else {
                    assert(out[out.len() - 1] == l);
                }
            }
        }
    }
}

/// Every record that a Hardhat output tree yields is an interface exactly
/// when its creation code is empty, and no record is among its own imports.
pub proof fn lemma_hardhat_output_sound(files: Seq<BuildInfoFile>, arts: Seq<ArtifactFile>)
    ensures
        forall|i: int|
            0 <= i < hardhat_output(files, arts).len() ==> (#[trigger] hardhat_output(
                files,
                arts,
            )[i].kind == ContractKind::Interface <==> is_code_less(
                hardhat_output(files, arts)[i].bytecode,
            )),
        no_self_import(hardhat_output(files, arts)),
{
    lemma_hardhat_records(files);
    lemma_two_pass_sound(hardhat_records(files), hardhat_links(arts));
    let out = hardhat_output(files, arts);
    assert forall|i: int| 0 <= i < out.len() implies (#[trigger] out[i].kind
        == ContractKind::Interface <==> is_code_less(out[i].bytecode)) by {
        assert(out[i].kind == kind_of(out[i].bytecode));
    }
}

/// The same build-info and artifact files, walked in any order, give the same
/// registry, when no contract name is compiled twice and no artifact stem repeats.
pub proof fn lemma_hardhat_order_independent(
    files1: Seq<BuildInfoFile>,
    files2: Seq<BuildInfoFile>,
    arts1: Seq<ArtifactFile>,
    arts2: Seq<ArtifactFile>,
)
    requires
        files1.to_multiset() == files2.to_multiset(),
        arts1.to_multiset() == arts2.to_multiset(),
        names_unique(hardhat_records(files1)),
        names_unique(hardhat_records(files2)),
        owners_unique(hardhat_links(arts1)),
        owners_unique(hardhat_links(arts2)),
    ensures
        as_map(hardhat_output(files1, arts1)) == as_map(hardhat_output(files2, arts2)),
{
    lemma_permutation_members(files1, files2);
    lemma_permutation_members(arts1, arts2);
    lemma_hardhat_records(files1);
    lemma_hardhat_records(files2);
    lemma_hardhat_links(arts1);
    lemma_hardhat_links(arts2);
    let r1 = hardhat_records(files1);
    let r2 = hardhat_records(files2);
    assert forall|x: ContractView| r1.contains(x) implies r2.contains(x) by {
        let i = choose|i: int|
            0 <= i < files1.len() && !is_debug_stem(files1[i].file_stem@)
                && #[trigger] build_info_records(files1[i].metadata).contains(x);
        assert(files1.contains(files1[i]));
        let j = choose|j: int| 0 <= j < files2.len() && files2[j] == files1[i];
        assert(build_info_records(files2[j].metadata).contains(x));
    }
    assert forall|x: ContractView| r2.contains(x) implies r1.contains(x) by {
        let j = choose|j: int|
            0 <= j < files2.len() && !is_debug_stem(files2[j].file_stem@)
                && #[trigger] build_info_records(files2[j].metadata).contains(x);
        assert(files2.contains(files2[j]));
        let i = choose|i: int| 0 <= i < files1.len() && files1[i] == files2[j];
        assert(build_info_records(files1[i].metadata).contains(x));
    }
    let l1 = hardhat_links(arts1);
    let l2 = hardhat_links(arts2);
    assert forall|l: ImportLinks| l1.contains(l) implies l2.contains(l) by {
        let i = choose|i: int|
            0 <= i < arts1.len() && !is_debug_stem(arts1[i].contract_name@)
                && #[trigger] links_of_artifact(arts1[i]) == l;
        assert(arts1.contains(arts1[i]));
        let j = choose|j: int| 0 <= j < arts2.len() && arts2[j] == arts1[i];
        assert(links_of_artifact(arts2[j]) == l);
    }
    assert forall|l: ImportLinks| l2.contains(l) implies l1.contains(l) by {
        let j = choose|j: int|
            0 <= j < arts2.len() && !is_debug_stem(arts2[j].contract_name@)
                && #[trigger] links_of_artifact(arts2[j]) == l;
        assert(arts2.contains(arts2[j]));
        let i = choose|i: int| 0 <= i < arts1.len() && arts1[i] == arts2[j];
        assert(links_of_artifact(arts1[i]) == l);
    }
    lemma_two_pass_members(r1, r2, l1, l2);
}

/// The value of the first entry whose key is `key`.
pub fn find_entry<'a, T>(entries: &'a Vec<(String, T)>, key: &String) -> (r: Option<&'a T>)
    ensures
        match find_key(entries@, key@) {
            Some(v) => r == Some(&v),
            None => r is None,
        },
{
    let mut i: usize = 0;
    while i < entries.len()
        invariant
            i <= entries@.len(),
            find_key(entries@.take(i as int), key@) is None,
        decreases entries@.len() - i,
    {
        assert(entries@.take(i + 1).drop_last() =~= entries@.take(i as int));
        if entries[i].0 == *key {
            proof {
                lemma_find_key_prefix(entries@, key@, i as int + 1);
            }
            return Some(&entries[i].1);
        }
        i += 1;
    }
    assert(entries@.take(i as int) =~= entries@);
    None
}

/// A match in a prefix is the first match of the whole sequence.
proof fn lemma_find_key_prefix<T>(entries: Seq<(String, T)>, key: Seq<char>, k: int)
    requires
        0 <= k <= entries.len(),
        find_key(entries.take(k), key) is Some,
    ensures
        find_key(entries, key) == find_key(entries.take(k), key),
    decreases entries.len(),
{
    if k < entries.len() {
        assert(entries.drop_last().take(k) =~= entries.take(k));
        lemma_find_key_prefix(entries.drop_last(), key, k);
    } else {
        assert(entries.take(k) =~= entries);
    }
}

/// The record of one compiled contract.
fn record_of(name: &String, info: &ContractInfo, source: &SourceInfo, input: &InputInfo) -> (c:
    Contract)
    ensures
        c@ == hardhat_record(*name, *info, *source, *input),
{
    Contract {
        contract_name: name.clone(),
        kind: classify(info.evm.bytecode.object.as_str()),
        bytecode: info.evm.bytecode.object.clone(),
        deployed_bytecode: Some(info.evm.deployed_bytecode.object.clone()),
        sourcemap: Some(info.evm.bytecode.source_map.clone()),
        deployed_sourcemap: Some(info.evm.deployed_bytecode.source_map.clone()),
        absolute_path: Some(source.ast.absolute_path.clone()),
        id: Some(source.ast.id),
        file_contents: Some(input.content.clone()),
        imports: None,
    }
}

/// Inserts the records of one build-info file, in order.
fn add_build_info(registry: &mut ContractRegistry, m: &Metadata)
    requires
        old(registry).wf(),
    ensures
        final(registry).wf(),
        final(registry)@ == upsert_all(old(registry)@, build_info_records(*m)),
{
    let ghost start = registry@;
    let entries = &m.output.contracts;
    let mut k: usize = 0;
    while k < entries.len()
        invariant
            k <= entries@.len(),
            entries == &m.output.contracts,
            registry.wf(),
            registry@ == upsert_all(start, entries_records(entries@.take(k as int), *m)),
        decreases entries@.len() - k,
    {
        let ghost prefix = entries@.take(k as int);
        assert(entries@.take(k + 1).drop_last() =~= prefix);
        let path = &entries[k].0;
        let units = &entries[k].1;
        match (find_entry(&m.output.sources, path), find_entry(&m.input.sources, path)) {
            (Some(source), Some(input)) => {
                let ghost before = registry@;
                let ghost records = unit_records(units@, *source, *input);
                let mut j: usize = 0;
                while j < units.len()
                    invariant
                        j <= units@.len(),
                        registry.wf(),
                        records == unit_records(units@, *source, *input),
                        registry@ == upsert_all(before, records.take(j as int)),
                    decreases units@.len() - j,
                {
                    assert(records.take(j + 1).drop_last() =~= records.take(j as int));
                    registry.insert(record_of(&units[j].0, &units[j].1, source, input));
                    j += 1;
                }
                proof {
                    assert(records.take(j as int) =~= records);
                    lemma_upsert_all_concat(start, entries_records(prefix, *m), records);
                }
            },
            _ => {},
        }
        k += 1;
    }
    assert(entries@.take(k as int) =~= entries@);
}

/// The first pass: the records of every build-info file are inserted, in order.
pub fn populate(files: &Vec<BuildInfoFile>) -> (registry: ContractRegistry)
    ensures
        registry.wf(),
        registry@ == upsert_all(Seq::empty(), hardhat_records(files@)),
{
    let mut registry = ContractRegistry::new();
    let mut i: usize = 0;
    while i < files.len()
        invariant
            i <= files@.len(),
            registry.wf(),
            registry@ == upsert_all(Seq::empty(), hardhat_records(files@.take(i as int))),
        decreases files@.len() - i,
    {
        let ghost prefix = files@.take(i as int);
        assert(files@.take(i + 1).drop_last() =~= prefix);
        proof {
            reveal_strlit(".dbg");
            assert(".dbg"@ =~= debug_suffix());
        }
        if !has_suffix(files[i].file_stem.as_str(), ".dbg") {
            add_build_info(&mut registry, &files[i].metadata);
            proof {
                lemma_upsert_all_concat(
                    Seq::empty(),
                    hardhat_records(prefix),
                    build_info_records(files@[i as int].metadata),
                );
            }
        }
        i += 1;
    }
    assert(files@.take(i as int) =~= files@);
    registry
}

/// The contract names in an artifact's link-reference table, in order.
pub fn import_names(a: &ArtifactFile) -> (names: Vec<String>)
    ensures
        names_view(names@) == linked_names(a.metadata.link_references.contracts@),
{
    let table = &a.metadata.link_references.contracts;
    let mut names: Vec<String> = Vec::new();
    let mut k: usize = 0;
    while k < table.len()
        invariant
            k <= table@.len(),
            names_view(names@) == linked_names(table@.take(k as int)),
        decreases table@.len() - k,
    {
        assert(table@.take(k + 1).drop_last() =~= table@.take(k as int));
        let inner = &table[k].1;
        let ghost before = names_view(names@);
        let ghost inner_names = inner@.map_values(|e: (String, Vec<Reference>)| e.0@);
        let mut j: usize = 0;
        while j < inner.len()
            invariant
                j <= inner@.len(),
                inner_names == inner@.map_values(|e: (String, Vec<Reference>)| e.0@),
                names_view(names@) == before + inner_names.take(j as int),
            decreases inner@.len() - j,
        {
            let ghost prev = names@;
            names.push(inner[j].0.clone());
            proof {
                assert(names_view(names@) =~= names_view(prev).push(inner_names[j as int]));
                assert(inner_names.take(j + 1) =~= inner_names.take(j as int).push(
                    inner_names[j as int],
                ));
                assert(names_view(names@) =~= before + inner_names.take(j + 1));
            }
            j += 1;
        }
        assert(inner_names.take(j as int) =~= inner_names);
        k += 1;
    }
    assert(table@.take(k as int) =~= table@);
    names
}

/// The second pass: each artifact's link references are looked up in a
/// snapshot taken before the pass and attached to its record.
pub fn resolve_imports(artifacts: &Vec<ArtifactFile>, registry: &mut ContractRegistry)
    requires
        old(registry).wf(),
    ensures
        final(registry).wf(),
        final(registry)@ == resolve_all(old(registry)@, hardhat_links(artifacts@), old(registry)@),
{
    let snapshot = registry.snapshot();
    let ghost start = registry@;
    let mut i: usize = 0;
    while i < artifacts.len()
        invariant
            i <= artifacts@.len(),
            registry.wf(),
            snapshot.wf(),
            snapshot@ == start,
            registry@ == resolve_all(start, hardhat_links(artifacts@.take(i as int)), start),
        decreases artifacts@.len() - i,
    {
        let ghost prefix = artifacts@.take(i as int);
        assert(artifacts@.take(i + 1).drop_last() =~= prefix);
        proof {
            reveal_strlit(".dbg");
            assert(".dbg"@ =~= debug_suffix());
        }
        let a = &artifacts[i];
        if !has_suffix(a.contract_name.as_str(), ".dbg") {
            let names = import_names(a);
            registry.resolve_links(&a.contract_name, &names, &snapshot);
            proof {
                let links = hardhat_links(artifacts@.take(i + 1));
                assert(links.drop_last() == hardhat_links(prefix));
            }
        }
        i += 1;
    }
    assert(artifacts@.take(i as int) =~= artifacts@);
}

/// Both passes over a Hardhat output tree; the records come in registry order.
pub fn process_artifacts_directory(
    repo_directory: &str,
    build_infos: &Vec<BuildInfoFile>,
    artifacts: &Vec<ArtifactFile>,
) -> (result: (String, Vec<Contract>))
    ensures
        result.0@ == repo_directory@,
        result.1@.map_values(|c: Contract| c@) == hardhat_output(build_infos@, artifacts@),
{
    let mut registry = populate(build_infos);
    resolve_imports(artifacts, &mut registry);
    (repo_directory.to_owned(), registry.into_records())
}

} // verus!
