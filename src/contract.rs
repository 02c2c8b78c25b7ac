//! Compiled contract records and how they are classified.
use vstd::prelude::*;
use vstd::string::*;

verus! {

/// Whether a compiled unit carries creation code (`Contract`) or none (`Interface`).
#[derive(Clone, Copy, Debug, PartialEq, Eq, Structural)]
pub enum ContractKind {
    Interface,
    Contract,
}

/// Creation bytecode that marks a code-less unit: empty, or the bare `0x` prefix.
pub open spec fn is_code_less(bytecode: Seq<char>) -> bool {
    bytecode.len() == 0 || bytecode == seq!['0', 'x']
}

/// The kind that creation bytecode implies.
pub open spec fn kind_of(bytecode: Seq<char>) -> ContractKind {
    if is_code_less(bytecode) {
        ContractKind::Interface
    } else {
        ContractKind::Contract
    }
}

/// Derives the kind of a unit from its creation bytecode.
pub fn classify(bytecode: &str) -> (kind: ContractKind)
    ensures
        kind == kind_of(bytecode@),
{
    let n = bytecode.unicode_len();
    if n == 0 {
        ContractKind::Interface
    } else if n == 2 && bytecode.get_char(0) == '0' && bytecode.get_char(1) == 'x' {
        proof {
            assert(bytecode@ =~= seq!['0', 'x']);
        }
        ContractKind::Interface
    } else {
        ContractKind::Contract
    }
}

/// One compiled unit of a repository's build output.
#[derive(Debug)]
pub struct Contract {
    pub contract_name: String,
    pub kind: ContractKind,
    pub bytecode: String,
    pub deployed_bytecode: Option<String>,
    pub sourcemap: Option<String>,
    pub deployed_sourcemap: Option<String>,
    pub absolute_path: Option<String>,
    pub id: Option<u32>,
    pub file_contents: Option<String>,
    pub imports: Option<Vec<Contract>>,
}

/// The mathematical value of a [`Contract`]: texts as character sequences and
/// the import list as the values of the imported records.
pub struct ContractView {
    pub name: Seq<char>,
    pub kind: ContractKind,
    pub bytecode: Seq<char>,
    pub deployed_bytecode: Option<Seq<char>>,
    pub sourcemap: Option<Seq<char>>,
    pub deployed_sourcemap: Option<Seq<char>>,
    pub absolute_path: Option<Seq<char>>,
    pub id: Option<u32>,
    pub file_contents: Option<Seq<char>>,
    pub imports: Option<Seq<ContractView>>,
}

pub open spec fn text_view(t: Option<String>) -> Option<Seq<char>> {
    match t {
        Some(s) => Some(s@),
        None => None,
    }
}

/// The value of a record with its import list left out.
pub open spec fn unimported_view(c: Contract) -> ContractView {
    ContractView {
        name: c.contract_name@,
        kind: c.kind,
        bytecode: c.bytecode@,
        deployed_bytecode: text_view(c.deployed_bytecode),
        sourcemap: text_view(c.sourcemap),
        deployed_sourcemap: text_view(c.deployed_sourcemap),
        absolute_path: text_view(c.absolute_path),
        id: c.id,
        file_contents: text_view(c.file_contents),
        imports: None,
    }
}

pub open spec fn contract_view(c: Contract) -> ContractView
    decreases c,
{
    ContractView {
        imports: match c.imports {
            Some(list) => Some(
                Seq::new(
                    list@.len(),
                    |i: int|
                        if 0 <= i < list@.len() {
                            contract_view(list@[i])
                        } else {
                            unimported_view(c)
                        },
                ),
            ),
            None => None,
        },
        ..unimported_view(c)
    }
}

impl View for Contract {
    type V = ContractView;

    open spec fn view(&self) -> ContractView {
        contract_view(*self)
    }
}

impl Contract {
    /// Returns an independent deep copy of this record.
    pub fn duplicate(&self) -> (copy: Contract)
        ensures
            copy@ == self@,
        decreases self,
    {
        let imports = match &self.imports {
            None => None,
            Some(list) => {
                let mut copies: Vec<Contract> = Vec::new();
                let mut i: usize = 0;
                while i < list.len()
                    invariant
                        self.imports == Some(*list),
                        i <= list@.len(),
                        copies@.len() == i,
                        forall|j: int|
                            0 <= j < i ==> #[trigger] contract_view(copies@[j]) == contract_view(
                                list@[j],
                            ),
                    decreases list@.len() - i,
                {
                    proof {
                        vstd::std_specs::vec::axiom_vec_index_decreases(*list, i as int);
                        assert(decreases_to!(*self => self.imports));
                        assert(decreases_to!(self.imports => self.imports->Some_0));
                        assert(decreases_to!(*list => list@[i as int]));
                    }
                    copies.push(list[i].duplicate());
                    i += 1;
                }
                Some(copies)
            },
        };
        let copy = Contract {
            contract_name: self.contract_name.clone(),
            kind: self.kind,
            bytecode: self.bytecode.clone(),
            deployed_bytecode: copy_text(&self.deployed_bytecode),
            sourcemap: copy_text(&self.sourcemap),
            deployed_sourcemap: copy_text(&self.deployed_sourcemap),
            absolute_path: copy_text(&self.absolute_path),
            id: self.id,
            file_contents: copy_text(&self.file_contents),
            imports,
        };
        proof {
            if self.imports is Some {
                let ours = copy@.imports.unwrap();
                let theirs = self@.imports.unwrap();
                assert(ours.len() == theirs.len());
                assert forall|j: int| 0 <= j < ours.len() implies ours[j] == theirs[j] by {
                    assert(contract_view(copy.imports.unwrap()@[j]) == contract_view(
                        self.imports.unwrap()@[j],
                    ));
                }
                assert(ours =~= theirs);
            }
        }
        copy
    }
}

/// Copies an optional text.
pub fn copy_text(t: &Option<String>) -> (r: Option<String>)
    ensures
        r == *t,
{
    match t {
        Some(s) => Some(s.clone()),
        None => None,
    }
}

/// The views of a sequence of records.
pub open spec fn views(s: Seq<Contract>) -> Seq<ContractView> {
    s.map_values(|c: Contract| c@)
}

/// The records of kind `kind`, in their order.
pub open spec fn of_kind(s: Seq<ContractView>, kind: ContractKind) -> Seq<ContractView>
    decreases s.len(),
{
    if s.len() == 0 {
        Seq::empty()
    } else {
        let prior = of_kind(s.drop_last(), kind);
        if s.last().kind == kind {
            prior.push(s.last())
        } else {
            prior
        }
    }
}

/// Interfaces first, then implementations; each group keeps its order.
pub open spec fn interfaces_first(s: Seq<ContractView>) -> Seq<ContractView> {
    of_kind(s, ContractKind::Interface) + of_kind(s, ContractKind::Contract)
}

/// Orders records for output: a stable sort that puts every interface before
/// every implementation.
pub fn order_for_output(contracts: Vec<Contract>) -> (ordered: Vec<Contract>)
    ensures
        views(ordered@) == interfaces_first(views(contracts@)),
{
    let ghost all = views(contracts@);
    let mut interfaces: Vec<Contract> = Vec::new();
    let mut implementations: Vec<Contract> = Vec::new();
    for c in it: contracts.into_iter()
        invariant
            all == views(it.seq()),
            views(interfaces@) == of_kind(all.take(it.index() as int), ContractKind::Interface),
            views(implementations@) == of_kind(all.take(it.index() as int), ContractKind::Contract),
    {
        let ghost i = it.index() as int;
        assert(all.take(i + 1).drop_last() =~= all.take(i));
        let ghost before_i = interfaces@;
        let ghost before_c = implementations@;
        match c.kind {
            ContractKind::Interface => {
                interfaces.push(c);
                assert(views(interfaces@) =~= views(before_i).push(all[i]));
            },
            ContractKind::Contract => {
                implementations.push(c);
                assert(views(implementations@) =~= views(before_c).push(all[i]));
            },
        }
    }
    assert(all.take(all.len() as int) =~= all);
    let ghost head = interfaces@;
    interfaces.append(&mut implementations);
    assert(views(interfaces@) =~= interfaces_first(all));
    interfaces
}

} // verus!
