use vstd::prelude::*;
use crate::envelope::{start_calldata, selector_of, START_SIGNATURE};
use crate::link::{create_address, create_address_of, ADDRESS_LEN};

verus! {

/// Where the boot sequence stands.
#[derive(Debug, PartialEq, Eq, Structural, Clone, Copy)]
pub enum BootStage {
    ResetNonce,
    FundDeployer,
    DeployLibrary(usize),
    FundTarget,
    DeployTarget,
    MarkPersistent,
    Initialize,
    Serving,
    Aborted,
}

/// What the engine reported of the last action.
pub enum BootEvent {
    Succeeded,
    Failed,
    /// The target was deployed at this address.
    TargetDeployed(Vec<u8>),
    /// The call reverted.
    Reverted,
}

/// What the engine must do next.
pub enum BootAction {
    /// Set the sequence number of the account to the value.
    SetNonce(Vec<u8>, u64),
    /// Give the account the largest balance there is.
    FundMax(Vec<u8>),
    /// Deploy the library at this position of the plan from the deployer.
    DeployLibrary(usize),
    /// Deploy the linked target from the deployer.
    DeployTarget,
    /// Keep the account across fork rolls.
    MarkPersistent(Vec<u8>),
    /// Call the program at the address with the call data, and commit on success.
    CallInitializer(Vec<u8>, Vec<u8>),
    /// Start accepting connections for the program at the address.
    Serve(Vec<u8>),
    /// Stop: the program cannot be served.
    Abort,
}

/// The boot sequence of one program with `libraries` libraries to deploy
/// first, all from `deployer`.
pub struct Boot {
    pub stage: BootStage,
    pub libraries: usize,
    pub deployer: Vec<u8>,
    pub address: Vec<u8>,
}

/// The engine reports a deployment at a full address.
pub open spec fn deployed_at(ev: BootEvent) -> bool {
    match ev {
        BootEvent::TargetDeployed(a) => a@.len() == ADDRESS_LEN,
        _ => false,
    }
}

/// The stage after `s` once the engine has reported `ev`; a program with `n`
/// libraries.
pub open spec fn next_stage(s: BootStage, n: usize, ev: BootEvent) -> BootStage {
    match s {
        BootStage::Serving => BootStage::Serving,
        BootStage::Aborted => BootStage::Aborted,
        BootStage::ResetNonce => if ev is Succeeded {
            BootStage::FundDeployer
        } else {
            BootStage::Aborted
        },
        BootStage::FundDeployer => if !(ev is Succeeded) {
            BootStage::Aborted
        } else if n == 0 {
            BootStage::FundTarget
        } else {
            BootStage::DeployLibrary(0)
        },
        BootStage::DeployLibrary(i) => if !(ev is Succeeded) {
            BootStage::Aborted
        } else if i + 1 < n {
            BootStage::DeployLibrary((i + 1) as usize)
        } else {
            BootStage::FundTarget
        },
        BootStage::FundTarget => if ev is Succeeded {
            BootStage::DeployTarget
        } else {
            BootStage::Aborted
        },
        BootStage::DeployTarget => if deployed_at(ev) {
            BootStage::MarkPersistent
        } else {
            BootStage::Aborted
        },
        BootStage::MarkPersistent => if ev is Succeeded {
            BootStage::Initialize
        } else {
            BootStage::Aborted
        },
        BootStage::Initialize => if ev is Succeeded {
            BootStage::Serving
        } else {
            BootStage::Aborted
        },
    }
}

impl Boot {
    /// The stage names a library that exists, the deployer and, once known,
    /// the target hold full addresses.
    pub open spec fn wf(&self) -> bool {
        &&& self.stage matches BootStage::DeployLibrary(i) ==> i < self.libraries
        &&& self.deployer@.len() == ADDRESS_LEN
        &&& self.address@.len() == ADDRESS_LEN
    }

    /// Starts the sequence for a program with `libraries` libraries.
    pub fn new(libraries: usize, deployer: Vec<u8>) -> (r: Boot)
        requires
            deployer@.len() == ADDRESS_LEN,
            libraries < u64::MAX,
        ensures
            r.wf(),
            r.stage == BootStage::ResetNonce,
            r.libraries == libraries,
            r.deployer@ == deployer@,
    {
        let address = deployer.clone();
        Boot { stage: BootStage::ResetNonce, libraries, deployer, address }
    }

    /// The action that the current stage asks for. The target is funded at
    /// the address that it will receive once the libraries are deployed.
    pub fn action(&self) -> (r: BootAction)
        requires
            self.wf(),
            self.libraries < u64::MAX,
        ensures
            r == match self.stage {
                BootStage::ResetNonce => BootAction::SetNonce(r->SetNonce_0, 0),
                BootStage::FundDeployer => BootAction::FundMax(r->FundMax_0),
                BootStage::DeployLibrary(i) => BootAction::DeployLibrary(i),
                BootStage::FundTarget => BootAction::FundMax(r->FundMax_0),
                BootStage::DeployTarget => BootAction::DeployTarget,
                BootStage::MarkPersistent => BootAction::MarkPersistent(r->MarkPersistent_0),
                BootStage::Initialize => BootAction::CallInitializer(
                    r->CallInitializer_0,
                    r->CallInitializer_1,
                ),
                BootStage::Serving => BootAction::Serve(r->Serve_0),
                BootStage::Aborted => BootAction::Abort,
            },
            self.stage == BootStage::ResetNonce ==> r->SetNonce_0@ == self.deployer@,
            self.stage == BootStage::FundDeployer ==> r->FundMax_0@ == self.deployer@,
            self.stage == BootStage::FundTarget ==> r->FundMax_0@ == create_address(
                self.deployer@,
                self.libraries as u64,
            ),
            self.stage == BootStage::MarkPersistent ==> r->MarkPersistent_0@ == self.address@,
            self.stage == BootStage::Initialize ==> r->CallInitializer_0@ == self.address@
                && r->CallInitializer_1@ == selector_of(START_SIGNATURE@),
            self.stage == BootStage::Serving ==> r->Serve_0@ == self.address@,
    {
        match self.stage {
            BootStage::ResetNonce => BootAction::SetNonce(self.deployer.clone(), 0),
            BootStage::FundDeployer => BootAction::FundMax(self.deployer.clone()),
            BootStage::DeployLibrary(i) => BootAction::DeployLibrary(i),
            BootStage::FundTarget => BootAction::FundMax(
                create_address_of(&self.deployer, self.libraries as u64),
            ),
            BootStage::DeployTarget => BootAction::DeployTarget,
            BootStage::MarkPersistent => BootAction::MarkPersistent(self.address.clone()),
            BootStage::Initialize => BootAction::CallInitializer(
                self.address.clone(),
                start_calldata(),
            ),
            BootStage::Serving => BootAction::Serve(self.address.clone()),
            BootStage::Aborted => BootAction::Abort,
        }
    }

    /// Advances the sequence by what the engine reported. Any failure or
    /// revert before serving aborts; nothing is retried.
    pub fn step(&mut self, ev: BootEvent)
        requires
            old(self).wf(),
        ensures
            final(self).wf(),
            final(self).stage == next_stage(old(self).stage, old(self).libraries, ev),
            final(self).libraries == old(self).libraries,
            final(self).deployer == old(self).deployer,
            old(self).stage == BootStage::DeployTarget && deployed_at(ev) ==> final(self).address@
                == ev->TargetDeployed_0@,
            !(old(self).stage == BootStage::DeployTarget) ==> final(self).address
                == old(self).address,
    {
        let n = self.libraries;
        let ok = match ev {
            BootEvent::Succeeded => true,
            _ => false,
        };
        let next = match self.stage {
            BootStage::Serving => BootStage::Serving,
            BootStage::Aborted => BootStage::Aborted,
            BootStage::ResetNonce => if ok {
                BootStage::FundDeployer
            } else {
                BootStage::Aborted
            },
            BootStage::FundDeployer => if !ok {
                BootStage::Aborted
            } else if n == 0 {
                BootStage::FundTarget
            } else {
                BootStage::DeployLibrary(0)
            },
            BootStage::DeployLibrary(i) => if !ok {
                BootStage::Aborted
            } else if i + 1 < n {
                BootStage::DeployLibrary(i + 1)
            } else {
                BootStage::FundTarget
            },
            BootStage::FundTarget => if ok {
                BootStage::DeployTarget
            } else {
                BootStage::Aborted
            },
            BootStage::DeployTarget => {
                match ev {
                    BootEvent::TargetDeployed(a) => {
                        if a.len() == ADDRESS_LEN {
                            self.address = a;
                            BootStage::MarkPersistent
                        } else {
                            BootStage::Aborted
                        }
                    },
                    _ => BootStage::Aborted,
                }
            },
            BootStage::MarkPersistent => if ok {
                BootStage::Initialize
            } else {
                BootStage::Aborted
            },
            BootStage::Initialize => if ok {
                BootStage::Serving
            } else {
                BootStage::Aborted
            },
        };
        self.stage = next;
    }
}

/// The stage reached from `s` after the events `evs`, in order.
pub open spec fn run(s: BootStage, n: usize, evs: Seq<BootEvent>) -> BootStage
    decreases evs.len(),
{
    if evs.len() == 0 {
        s
    } else {
        next_stage(run(s, n, evs.drop_last()), n, evs.last())
    }
}

/// The sequence reaches `Serving` only from the initializer stage on a call
/// that succeeded; a failed or reverted initializer aborts; an aborted
/// sequence stays aborted.
pub proof fn lemma_serving_needs_initializer(s: BootStage, n: usize, ev: BootEvent)
    ensures
        next_stage(s, n, ev) == BootStage::Serving ==> s == BootStage::Serving || (s
            == BootStage::Initialize && ev is Succeeded),
        s == BootStage::Initialize && !(ev is Succeeded) ==> next_stage(s, n, ev)
            == BootStage::Aborted,
        s == BootStage::Aborted ==> next_stage(s, n, ev) == BootStage::Aborted,
{
}

/// If the initializer call reverts, whatever the engine reports afterwards,
/// the sequence ends aborted and never starts serving.
pub proof fn lemma_revert_blocks_serving(n: usize, evs: Seq<BootEvent>, i: int)
    requires
        0 <= i < evs.len(),
        run(BootStage::ResetNonce, n, evs.subrange(0, i)) == BootStage::Initialize,
        evs[i] is Reverted,
    ensures
        run(BootStage::ResetNonce, n, evs) == BootStage::Aborted,
    decreases evs.len(),
{
    if evs.len() == i + 1 {
        assert(evs.drop_last() =~= evs.subrange(0, i));
    } else {
        assert(evs.drop_last().subrange(0, i) =~= evs.subrange(0, i));
        lemma_revert_blocks_serving(n, evs.drop_last(), i);
    }
}

} // verus!
