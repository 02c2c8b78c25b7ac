//! Which toolchain builds a repository, and what to do when a build yields nothing.
use vstd::prelude::*;
use vstd::string::*;
use crate::builders::hardhat::HardhatMode;
use crate::text::same_text;

verus! {

/// A build toolchain, with the mode it is driven in.
#[derive(Clone, Copy, Debug, PartialEq, Eq, Structural)]
pub enum Toolchain {
    Hardhat(HardhatMode),
    Foundry,
    Truffle,
}

/// The toolchain marker files present in one directory.
#[derive(Clone, Copy, Debug, PartialEq, Eq, Structural)]
pub struct Markers {
    /// `hardhat.config.ts` or `hardhat.config.js`.
    pub hardhat_config: bool,
    /// `yarn.lock`, which selects Yarn over npm for a Hardhat build.
    pub yarn_lock: bool,
    /// `foundry.toml`.
    pub foundry_config: bool,
    /// `truffle-config.js`.
    pub truffle_config: bool,
}

/// Whether a directory declares any toolchain.
pub open spec fn declares_toolchain(m: Markers) -> bool {
    m.hardhat_config || m.foundry_config || m.truffle_config
}

pub open spec fn other_mode(mode: HardhatMode) -> HardhatMode {
    match mode {
        HardhatMode::Yarn => HardhatMode::Npm,
        HardhatMode::Npm => HardhatMode::Yarn,
    }
}

/// The attempts that Hardhat gets: the mode the lock file suggests, then the other one.
pub open spec fn hardhat_attempts(m: Markers) -> Seq<Toolchain> {
    let first = if m.yarn_lock {
        HardhatMode::Yarn
    } else {
        HardhatMode::Npm
    };
    seq![Toolchain::Hardhat(first), Toolchain::Hardhat(other_mode(first))]
}

/// The attempts for a directory, in the fixed preference order Hardhat,
/// Foundry, Truffle; only toolchains the directory declares take part.
pub open spec fn plan_of(m: Markers) -> Seq<Toolchain> {
    (if m.hardhat_config {
        hardhat_attempts(m)
    } else {
        Seq::empty()
    }) + (if m.foundry_config {
        seq![Toolchain::Foundry]
    } else {
        Seq::empty()
    }) + (if m.truffle_config {
        seq![Toolchain::Truffle]
    } else {
        Seq::empty()
    })
}

/// The position of the first directory that declares a toolchain.
pub open spec fn first_declaring(dirs: Seq<Markers>) -> Option<int>
    decreases dirs.len(),
{
    if dirs.len() == 0 {
        None
    } else {
        match first_declaring(dirs.drop_last()) {
            Some(i) => Some(i),
            None => if declares_toolchain(dirs.last()) {
                Some(dirs.len() - 1)
            } else {
                None
            },
        }
    }
}

/// The directory to build in: the first, in walk order, that declares a toolchain.
pub fn select_directory(dirs: &Vec<Markers>) -> (r: Option<usize>)
    ensures
        match first_declaring(dirs@) {
            Some(i) => r == Some(i as usize),
            None => r is None,
        },
{
    let mut i: usize = 0;
    while i < dirs.len()
        invariant
            i <= dirs@.len(),
            first_declaring(dirs@.take(i as int)) is None,
        decreases dirs@.len() - i,
    {
        assert(dirs@.take(i + 1).drop_last() =~= dirs@.take(i as int));
        let m = dirs[i];
        if m.hardhat_config || m.foundry_config || m.truffle_config {
            proof {
                lemma_first_declaring_prefix(dirs@, i as int + 1);
            }
            return Some(i);
        }
        i += 1;
    }
    assert(dirs@.take(i as int) =~= dirs@);
    None
}

proof fn lemma_first_declaring_prefix(dirs: Seq<Markers>, k: int)
    requires
        0 <= k <= dirs.len(),
        first_declaring(dirs.take(k)) is Some,
    ensures
        first_declaring(dirs) == first_declaring(dirs.take(k)),
    decreases dirs.len(),
{
    if k < dirs.len() {
        assert(dirs.drop_last().take(k) =~= dirs.take(k));
        lemma_first_declaring_prefix(dirs.drop_last(), k);
    } else {
        assert(dirs.take(k) =~= dirs);
    }
}

/// The attempts for a directory.
pub fn build_plan(m: &Markers) -> (plan: Vec<Toolchain>)
    ensures
        plan@ == plan_of(*m),
{
    let mut plan: Vec<Toolchain> = Vec::new();
    if m.hardhat_config {
        let first = if m.yarn_lock {
            HardhatMode::Yarn
        } else {
            HardhatMode::Npm
        };
        let second = match first {
            HardhatMode::Yarn => HardhatMode::Npm,
            HardhatMode::Npm => HardhatMode::Yarn,
        };
        plan.push(Toolchain::Hardhat(first));
        plan.push(Toolchain::Hardhat(second));
    }
    if m.foundry_config {
        plan.push(Toolchain::Foundry);
    }
    if m.truffle_config {
        plan.push(Toolchain::Truffle);
    }
    assert(plan@ =~= plan_of(*m));
    plan
}

/// What the caller does next for a repository.
#[derive(Clone, Copy, Debug, PartialEq, Eq, Structural)]
pub enum BuildAction {
    /// Run this toolchain and report how many records it produced.
    Run(Toolchain),
    /// Keep the records of the build just reported.
    Accept,
    /// Every declared toolchain produced nothing: the repository failed to build.
    Quarantine,
}

/// The action after `attempted` attempts of `plan`, the last of which produced
/// `produced` records.
pub open spec fn next_action(plan: Seq<Toolchain>, attempted: int, produced: nat) -> BuildAction {
    if produced > 0 {
        BuildAction::Accept
    } else if attempted < plan.len() {
        BuildAction::Run(plan[attempted])
    } else {
        BuildAction::Quarantine
    }
}

/// The toolchain whose records a repository ends up with, when each attempt
/// of `plan` from position `from` on produces `produced(t)` records; none
/// when all of them produce nothing.
pub open spec fn chosen_toolchain(
    plan: Seq<Toolchain>,
    from: int,
    produced: spec_fn(Toolchain) -> nat,
) -> Option<Toolchain>
    decreases plan.len() - from,
{
    if from < 0 || from >= plan.len() {
        None
    } else if produced(plan[from]) > 0 {
        Some(plan[from])
    } else {
        chosen_toolchain(plan, from + 1, produced)
    }
}

/// The attempts of the first toolchain, in preference order, that a directory declares.
pub open spec fn first_toolchain_attempts(m: Markers) -> Seq<Toolchain> {
    if m.hardhat_config {
        hardhat_attempts(m)
    } else if m.foundry_config {
        seq![Toolchain::Foundry]
    } else if m.truffle_config {
        seq![Toolchain::Truffle]
    } else {
        Seq::empty()
    }
}

/// The markers of a directory less those of its first declared toolchain.
pub open spec fn without_first_toolchain(m: Markers) -> Markers {
    if m.hardhat_config {
        Markers { hardhat_config: false, ..m }
    } else if m.foundry_config {
        Markers { foundry_config: false, ..m }
    } else {
        Markers { truffle_config: false, ..m }
    }
}

proof fn lemma_plan_split(m: Markers)
    ensures
        plan_of(m) == first_toolchain_attempts(m) + plan_of(without_first_toolchain(m)),
{
    assert(plan_of(m) =~= first_toolchain_attempts(m) + plan_of(without_first_toolchain(m)));
}

/// Attempts that all produce nothing are passed over.
proof fn lemma_skip_unproductive(
    a: Seq<Toolchain>,
    b: Seq<Toolchain>,
    k: int,
    produced: spec_fn(Toolchain) -> nat,
)
    requires
        0 <= k <= a.len(),
        forall|i: int| 0 <= i < a.len() ==> produced(#[trigger] a[i]) == 0,
    ensures
        chosen_toolchain(a + b, k, produced) == chosen_toolchain(b, 0, produced),
    decreases a.len() - k,
{
    if k < a.len() {
        assert((a + b)[k] == a[k]);
        lemma_skip_unproductive(a, b, k + 1, produced);
    } else {
        lemma_shift(a, b, 0, produced);
    }
}

proof fn lemma_shift(a: Seq<Toolchain>, b: Seq<Toolchain>, j: int, produced: spec_fn(Toolchain) -> nat)
    requires
        0 <= j,
    ensures
        chosen_toolchain(a + b, a.len() + j, produced) == chosen_toolchain(b, j, produced),
    decreases b.len() - j,
{
    if j < b.len() {
        assert((a + b)[a.len() + j] == b[j]);
        lemma_shift(a, b, j + 1, produced);
    }
}

/// When every attempt of the first toolchain a directory declares produces
/// nothing, the repository ends up exactly as if that toolchain were not
/// declared: with what the remaining toolchains alone produce.
pub proof fn lemma_fallback_to_next_toolchain(m: Markers, produced: spec_fn(Toolchain) -> nat)
    requires
        forall|i: int|
            0 <= i < first_toolchain_attempts(m).len() ==> produced(
                #[trigger] first_toolchain_attempts(m)[i],
            ) == 0,
    ensures
        chosen_toolchain(plan_of(m), 0, produced) == chosen_toolchain(
            plan_of(without_first_toolchain(m)),
            0,
            produced,
        ),
{
    lemma_plan_split(m);
    lemma_skip_unproductive(
        first_toolchain_attempts(m),
        plan_of(without_first_toolchain(m)),
        0,
        produced,
    );
}

/// Where a session ends up when each toolchain `t` produces `produced(t)`
/// records: it has just run the attempt at position `k` of `plan` and follows
/// [`next_action`] from there. `Some(t)` when it accepts the records of `t`,
/// none when it quarantines the repository.
pub open spec fn session_outcome(
    plan: Seq<Toolchain>,
    k: int,
    produced: spec_fn(Toolchain) -> nat,
) -> Option<Toolchain>
    decreases plan.len() - k,
{
    if k < 0 || k >= plan.len() {
        None
    } else {
        match next_action(plan, k + 1, produced(plan[k])) {
            BuildAction::Accept => Some(plan[k]),
            BuildAction::Run(_) => session_outcome(plan, k + 1, produced),
            BuildAction::Quarantine => None,
        }
    }
}

/// A session accepts the records of the first attempt in its plan that
/// produces any, and quarantines the repository when none does.
pub proof fn lemma_session_accepts_chosen(
    plan: Seq<Toolchain>,
    k: int,
    produced: spec_fn(Toolchain) -> nat,
)
    requires
        0 <= k,
    ensures
        session_outcome(plan, k, produced) == chosen_toolchain(plan, k, produced),
    decreases plan.len() - k,
{
    if k < plan.len() {
        lemma_session_accepts_chosen(plan, k + 1, produced);
    }
}

/// The path of a repository directory below `repos`: none when it is not below it.
pub open spec fn below_repos(name: Seq<char>) -> Option<Seq<char>> {
    if name == "repos"@ {
        Some(Seq::empty())
    } else if name.len() >= 6 && name.subrange(0, 6) == "repos/"@ {
        Some(name.subrange(6, name.len() as int))
    } else {
        None
    }
}

/// `base`, followed by `/` and the path below `repos` when there is one.
pub open spec fn under(base: Seq<char>, name: Seq<char>) -> Seq<char> {
    match below_repos(name) {
        Some(rest) => base + seq!['/'] + rest,
        None => base,
    }
}

/// The path of a repository directory below `repos`.
pub fn below_repos_of(name: &str) -> (r: Option<&str>)
    ensures
        match below_repos(name@) {
            Some(rest) => r is Some && r.unwrap()@ == rest,
            None => r is None,
        },
{
    proof {
        reveal_strlit("repos");
        reveal_strlit("repos/");
    }
    let n = name.unicode_len();
    if same_text(name, "repos") {
        return Some(name.substring_char(n, n));
    }
    if n >= 6 && same_text(name.substring_char(0, 6), "repos/") {
        return Some(name.substring_char(6, n));
    }
    None
}

fn path_under(base: &str, name: &str) -> (r: String)
    ensures
        r@ == under(base@, name@),
{
    let mut path = base.to_owned();
    match below_repos_of(name) {
        Some(rest) => {
            path.append("/");
            path.append(rest);
            proof {
                reveal_strlit("/");
            }
        },
        None => {},
    }
    path
}

/// Where a repository goes when none of its toolchains produced records.
pub fn quarantine_directory(name: &str) -> (r: String)
    ensures
        r@ == under("repos/error"@, name@),
{
    path_under("repos/error", name)
}

/// Where a repository goes when it declares no toolchain.
pub fn unsupported_directory(parser: &str, name: &str) -> (r: String)
    ensures
        r@ == under("repos/unsupported/"@ + parser@, name@),
{
    let mut base = "repos/unsupported/".to_owned();
    base.append(parser);
    path_under(base.as_str(), name)
}

/// The file the records of a repository are written to:
/// `results/<parser>_<path below repos>_contracts.json`; none when the
/// repository is not below `repos`.
pub fn results_file(parser: &str, name: &str) -> (r: Option<String>)
    ensures
        match below_repos(name@) {
            Some(rest) => r is Some && r.unwrap()@ == "results/"@ + parser@ + "_"@ + rest
                + "_contracts.json"@,
            None => r is None,
        },
{
    match below_repos_of(name) {
        Some(rest) => {
            let mut file = "results/".to_owned();
            file.append(parser);
            file.append("_");
            file.append(rest);
            file.append("_contracts.json");
            Some(file)
        },
        None => None,
    }
}

/// The build of one repository: its plan and how many attempts have been made.
pub struct BuildSession {
    plan: Vec<Toolchain>,
    attempted: usize,
}

impl BuildSession {
    pub closed spec fn plan(&self) -> Seq<Toolchain> {
        self.plan@
    }

    pub closed spec fn attempted(&self) -> int {
        self.attempted as int
    }

    pub open spec fn wf(&self) -> bool {
        0 < self.attempted() <= self.plan().len()
    }

    /// Starts building in a directory with markers `m`: none when it declares
    /// no toolchain (the repository is unsupported), else the session and the
    /// first toolchain to run.
    pub fn start(m: &Markers) -> (r: Option<(BuildSession, BuildAction)>)
        ensures
            match r {
                None => !declares_toolchain(*m),
                Some((s, action)) => {
                    &&& declares_toolchain(*m)
                    &&& s.wf()
                    &&& s.plan() == plan_of(*m)
                    &&& s.attempted() == 1
                    &&& action == BuildAction::Run(plan_of(*m)[0])
                },
            },
    {
        let plan = build_plan(m);
        if plan.len() == 0 {
            return None;
        }
        let first = plan[0];
        Some((BuildSession { plan, attempted: 1 }, BuildAction::Run(first)))
    }

    /// Takes the number of records the last attempt produced and says what to do next.
    pub fn on_result(&mut self, produced: usize) -> (action: BuildAction)
        requires
            old(self).wf(),
        ensures
            action == next_action(old(self).plan(), old(self).attempted(), produced as nat),
            final(self).plan() == old(self).plan(),
            final(self).wf(),
            final(self).attempted() == if action is Run {
                old(self).attempted() + 1
            } else {
                old(self).attempted()
            },
    {
        if produced > 0 {
            BuildAction::Accept
        } else if self.attempted < self.plan.len() {
            let t = self.plan[self.attempted];
            self.attempted += 1;
            BuildAction::Run(t)
        } else {
            BuildAction::Quarantine
        }
    }
}

} // verus!
