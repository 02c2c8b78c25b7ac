use bounty_builder::builders::hardhat::{HardhatBuilder, HardhatMode};
use bounty_builder::selection::{
    build_plan, quarantine_directory, results_file, select_directory, unsupported_directory,
    BuildAction, BuildSession, Markers, Toolchain,
};

fn markers(hardhat: bool, yarn: bool, foundry: bool, truffle: bool) -> Markers {
    Markers { hardhat_config: hardhat, yarn_lock: yarn, foundry_config: foundry, truffle_config: truffle }
}

#[test]
fn plan_follows_preference_order() {
    assert_eq!(
        build_plan(&markers(true, false, true, true)),
        vec![
            Toolchain::Hardhat(HardhatMode::Npm),
            Toolchain::Hardhat(HardhatMode::Yarn),
            Toolchain::Foundry,
            Toolchain::Truffle
        ]
    );
    assert_eq!(
        build_plan(&markers(true, true, false, false)),
        vec![Toolchain::Hardhat(HardhatMode::Yarn), Toolchain::Hardhat(HardhatMode::Npm)]
    );
    assert_eq!(build_plan(&markers(false, true, false, true)), vec![Toolchain::Truffle]);
    assert!(build_plan(&markers(false, true, false, false)).is_empty());
}

#[test]
fn first_declaring_directory_wins() {
    let dirs = vec![markers(false, true, false, false), markers(false, false, true, false), markers(true, false, false, false)];
    assert_eq!(select_directory(&dirs), Some(1));
    assert_eq!(select_directory(&vec![markers(false, false, false, false)]), None);
    assert_eq!(select_directory(&vec![]), None);
}

#[test]
fn unsupported_repository_has_no_session() {
    assert!(BuildSession::start(&markers(false, true, false, false)).is_none());
}

fn run(m: &Markers, produced: impl Fn(Toolchain) -> usize) -> (Vec<Toolchain>, BuildAction) {
    let (mut session, mut action) = BuildSession::start(m).expect("declares a toolchain");
    let mut ran = Vec::new();
    loop {
        match action {
            BuildAction::Run(t) => {
                ran.push(t);
                action = session.on_result(produced(t));
            }
            other => return (ran, other),
        }
    }
}

#[test]
fn falls_back_to_second_toolchain() {
    let both = markers(true, false, true, false);
    let produced = |t: Toolchain| if t == Toolchain::Foundry { 5 } else { 0 };
    let (ran, action) = run(&both, produced);
    assert_eq!(action, BuildAction::Accept);
    assert_eq!(ran.last(), Some(&Toolchain::Foundry));
    let (alone, alone_action) = run(&markers(false, false, true, false), produced);
    assert_eq!(alone_action, BuildAction::Accept);
    assert_eq!(alone.last(), ran.last());
}

#[test]
fn alternate_mode_is_tried_before_other_toolchains() {
    let produced = |t: Toolchain| if t == Toolchain::Hardhat(HardhatMode::Yarn) { 1 } else { 0 };
    let (ran, action) = run(&markers(true, false, true, false), produced);
    assert_eq!(action, BuildAction::Accept);
    assert_eq!(ran, vec![Toolchain::Hardhat(HardhatMode::Npm), Toolchain::Hardhat(HardhatMode::Yarn)]);
}

#[test]
fn every_toolchain_empty_quarantines() {
    let (ran, action) = run(&markers(true, true, false, true), |_| 0);
    assert_eq!(action, BuildAction::Quarantine);
    assert_eq!(ran.len(), 3);
}

#[test]
fn hardhat_modes() {
    let mut b = HardhatBuilder::new(HardhatMode::Npm);
    assert_eq!(b.commands(), ("npm", "install", "npx", "hardhat compile"));
    b.flip_mode();
    assert_eq!(b.mode, HardhatMode::Yarn);
    assert_eq!(b.commands(), ("yarn", "install", "yarn", "compile"));
    b.set_mode(HardhatMode::Npm);
    assert_eq!(b.mode, HardhatMode::Npm);
    b.flip_mode();
    b.flip_mode();
    assert_eq!(b.mode, HardhatMode::Npm);
}

#[test]
fn output_locations() {
    assert_eq!(quarantine_directory("repos/acme"), "repos/error/acme");
    assert_eq!(quarantine_directory("elsewhere/acme"), "repos/error");
    assert_eq!(unsupported_directory("sherlock", "repos/org/acme"), "repos/unsupported/sherlock/org/acme");
    assert_eq!(results_file("hats", "repos/acme"), Some("results/hats_acme_contracts.json".to_string()));
    assert_eq!(results_file("hats", "acme"), None);
    assert_eq!(results_file("hats", "reposacme"), None);
}
