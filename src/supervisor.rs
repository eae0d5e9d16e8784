use vstd::prelude::*;
use crate::chain::Chain;

verus! {

/// One step of the supervisor's work, performed in order by the process around it.
#[derive(Clone, Copy, Debug, PartialEq, Eq, Structural, Hash)]
pub enum Step {
    /// Download and unpack the archive of daemon binaries.
    DownloadBinaries,
    /// Set up the account-model sidechain's regtest genesis.
    SetupRegtestGenesis,
    /// Fetch the parameter file that the sidechain node needs.
    FetchParams,
    /// Spawn the daemon of a chain.
    Spawn(Chain),
    /// Let the daemons settle before any RPC traffic.
    Settle,
    /// Propose and acknowledge the sidechains on the mainchain.
    ActivateSidechains,
    /// Start the gateway server and serve until a stop signal.
    StartServer,
    /// Stop the gateway server, letting requests in flight complete.
    StopServer,
    /// Ask the mainchain and sidechain nodes to stop over RPC.
    StopClients,
    /// Ask a daemon's process to stop.
    Interrupt(Chain),
    /// Wait for a daemon's process to exit.
    Wait(Chain),
}

/// What the supervisor finds on disk and in its configuration at boot.
#[derive(Clone, Copy, Debug, PartialEq, Eq, Structural, Hash)]
pub struct BootFacts {
    pub binaries_present: bool,
    pub params_present: bool,
    pub regtest: bool,
}

/// How many times `x` stands in `s`.
pub open spec fn step_count(s: Seq<Step>, x: Step) -> nat
    decreases s.len(),
{
    if s.len() == 0 {
        0
    } else {
        (if s[0] == x { 1nat } else { 0nat }) + step_count(s.skip(1), x)
    }
}

pub open spec fn provision_steps(f: BootFacts) -> Seq<Step> {
    (if f.binaries_present {
        seq![]
    } else if f.regtest {
        seq![Step::DownloadBinaries, Step::SetupRegtestGenesis]
    } else {
        seq![Step::DownloadBinaries]
    }) + (if f.params_present { seq![] } else { seq![Step::FetchParams] })
}

pub open spec fn spawn_steps() -> Seq<Step> {
    seq![Step::Spawn(Chain::Main), Step::Spawn(Chain::Zcash), Step::Spawn(Chain::Ethereum)]
}

/// Activation happens on regtest, and only on the first launch: the one that provisioned
/// the binaries.
pub open spec fn activation_steps(f: BootFacts) -> Seq<Step> {
    if !f.binaries_present && f.regtest {
        seq![Step::ActivateSidechains]
    } else {
        seq![]
    }
}

/// The steps of a boot: provisioning, spawning, settling, activation, serving.
pub open spec fn boot_steps(f: BootFacts) -> Seq<Step> {
    provision_steps(f) + spawn_steps() + seq![Step::Settle] + activation_steps(f) + seq![
        Step::StartServer,
    ]
}

/// The steps of a shutdown: drain the server, stop the nodes, then wait for the daemons
/// in dependency order.
pub open spec fn shutdown_steps() -> Seq<Step> {
    seq![
        Step::StopServer,
        Step::StopClients,
        Step::Interrupt(Chain::Ethereum),
        Step::Wait(Chain::Zcash),
        Step::Wait(Chain::Main),
        Step::Wait(Chain::Ethereum),
    ]
}

fn push_all(out: &mut Vec<Step>, steps: Vec<Step>)
    ensures
        final(out)@ == old(out)@ + steps@,
{
    let mut i: usize = 0;
    while i < steps.len()
        invariant
            i <= steps@.len(),
            out@ == old(out)@ + steps@.take(i as int),
        decreases steps@.len() - i,
    {
        out.push(steps[i]);
        i = i + 1;
        assert(out@ =~= old(out)@ + steps@.take(i as int));
    }
    assert(steps@.take(i as int) =~= steps@);
}

/// The steps that a boot performs, given what is already present.
pub fn boot_plan(facts: BootFacts) -> (r: Vec<Step>)
    ensures
        r@ == boot_steps(facts),
{
    let mut r: Vec<Step> = Vec::new();
    if !facts.binaries_present {
        r.push(Step::DownloadBinaries);
        if facts.regtest {
            r.push(Step::SetupRegtestGenesis);
        }
    }
    if !facts.params_present {
        r.push(Step::FetchParams);
    }
    assert(r@ =~= provision_steps(facts));
    r.push(Step::Spawn(Chain::Main));
    r.push(Step::Spawn(Chain::Zcash));
    r.push(Step::Spawn(Chain::Ethereum));
    r.push(Step::Settle);
    if !facts.binaries_present && facts.regtest {
        r.push(Step::ActivateSidechains);
    }
    r.push(Step::StartServer);
    assert(r@ =~= boot_steps(facts));
    r
}

/// The steps that a shutdown performs.
pub fn shutdown_plan() -> (r: Vec<Step>)
    ensures
        r@ == shutdown_steps(),
{
    let mut r: Vec<Step> = Vec::new();
    push_all(&mut r, vec![Step::StopServer, Step::StopClients, Step::Interrupt(Chain::Ethereum)]);
    r.push(Step::Wait(Chain::Zcash));
    r.push(Step::Wait(Chain::Main));
    r.push(Step::Wait(Chain::Ethereum));
    assert(r@ =~= shutdown_steps());
    r
}

proof fn lemma_count_concat(a: Seq<Step>, b: Seq<Step>, x: Step)
    ensures
        step_count(a + b, x) == step_count(a, x) + step_count(b, x),
    decreases a.len(),
{
    if a.len() == 0 {
        assert(a + b =~= b);
    } else {
        assert((a + b).skip(1) =~= a.skip(1) + b);
        lemma_count_concat(a.skip(1), b, x);
    }
}

proof fn lemma_count_one(y: Step, x: Step)
    ensures
        step_count(seq![y], x) == (if y == x { 1nat } else { 0nat }),
{
    assert(seq![y].skip(1) =~= Seq::<Step>::empty());
    assert(step_count(Seq::<Step>::empty(), x) == 0);
    assert(seq![y][0] == y);
}

proof fn lemma_count_empty(x: Step)
    ensures
        step_count(Seq::<Step>::empty(), x) == 0,
{
}

proof fn lemma_count_two(y: Step, z: Step, x: Step)
    ensures
        step_count(seq![y, z], x) == (if y == x { 1nat } else { 0nat }) + (if z == x { 1nat } else { 0nat }),
{
    assert(seq![y, z] =~= seq![y] + seq![z]);
    lemma_count_concat(seq![y], seq![z], x);
    lemma_count_one(y, x);
    lemma_count_one(z, x);
}

proof fn lemma_count_three(y: Step, z: Step, w: Step, x: Step)
    ensures
        step_count(seq![y, z, w], x) == (if y == x { 1nat } else { 0nat }) + (if z == x { 1nat } else { 0nat }) + (if w == x { 1nat } else { 0nat }),
{
    assert(seq![y, z, w] =~= seq![y, z] + seq![w]);
    lemma_count_concat(seq![y, z], seq![w], x);
    lemma_count_two(y, z, x);
    lemma_count_one(w, x);
}

proof fn lemma_boot_counts(f: BootFacts, x: Step)
    ensures
        step_count(boot_steps(f), x) == step_count(provision_steps(f), x) + step_count(spawn_steps(), x)
            + step_count(seq![Step::Settle], x) + step_count(activation_steps(f), x)
            + step_count(seq![Step::StartServer], x),
        step_count(provision_steps(f), x) == (if !f.binaries_present && x == Step::DownloadBinaries { 1nat } else { 0nat })
            + (if !f.binaries_present && f.regtest && x == Step::SetupRegtestGenesis { 1nat } else { 0nat })
            + (if !f.params_present && x == Step::FetchParams { 1nat } else { 0nat }),
        step_count(activation_steps(f), x) == (if !f.binaries_present && f.regtest && x == Step::ActivateSidechains { 1nat } else { 0nat }),
{
    let p = provision_steps(f);
    let a = activation_steps(f);
    let s1 = p + spawn_steps();
    let s2 = s1 + seq![Step::Settle];
    let s3 = s2 + a;
    lemma_count_concat(p, spawn_steps(), x);
    lemma_count_concat(s1, seq![Step::Settle], x);
    lemma_count_concat(s2, a, x);
    lemma_count_concat(s3, seq![Step::StartServer], x);
    let p1: Seq<Step> = if f.binaries_present {
        seq![]
    } else if f.regtest {
        seq![Step::DownloadBinaries, Step::SetupRegtestGenesis]
    } else {
        seq![Step::DownloadBinaries]
    };
    let p2: Seq<Step> = if f.params_present { seq![] } else { seq![Step::FetchParams] };
    lemma_count_concat(p1, p2, x);
    lemma_count_empty(x);
    lemma_count_one(Step::DownloadBinaries, x);
    lemma_count_one(Step::FetchParams, x);
    lemma_count_one(Step::ActivateSidechains, x);
    lemma_count_two(Step::DownloadBinaries, Step::SetupRegtestGenesis, x);
}

/// A boot provisions once when the binaries are absent, and then spawns the three daemons,
/// one each; on regtest it then activates the sidechains once. A boot that finds the
/// binaries and the parameters present provisions nothing and activates nothing. In
/// either case provisioning comes before the first spawn, and activation after the last.
pub proof fn lemma_boot_sequence(f: BootFacts)
    ensures
        step_count(boot_steps(f), Step::DownloadBinaries) == (if f.binaries_present { 0nat } else { 1nat }),
        step_count(boot_steps(f), Step::Spawn(Chain::Main)) == 1,
        step_count(boot_steps(f), Step::Spawn(Chain::Zcash)) == 1,
        step_count(boot_steps(f), Step::Spawn(Chain::Ethereum)) == 1,
        step_count(boot_steps(f), Step::ActivateSidechains) == (if !f.binaries_present && f.regtest { 1nat } else { 0nat }),
        f.binaries_present && f.params_present ==> step_count(boot_steps(f), Step::FetchParams) == 0
            && step_count(boot_steps(f), Step::SetupRegtestGenesis) == 0,
        boot_steps(f).subrange(
            provision_steps(f).len() as int,
            provision_steps(f).len() + 3int,
        ) == spawn_steps(),
        step_count(provision_steps(f), Step::DownloadBinaries) == step_count(boot_steps(f), Step::DownloadBinaries),
        !f.binaries_present && f.regtest ==> boot_steps(f)[provision_steps(f).len() + 4int] == Step::ActivateSidechains,
{
    let xs = seq![
        Step::DownloadBinaries,
        Step::Spawn(Chain::Main),
        Step::Spawn(Chain::Zcash),
        Step::Spawn(Chain::Ethereum),
        Step::ActivateSidechains,
        Step::FetchParams,
        Step::SetupRegtestGenesis,
    ];
    assert forall|i: int| 0 <= i < xs.len() implies {
        let x = #[trigger] xs[i];
        &&& step_count(boot_steps(f), x) == step_count(provision_steps(f), x) + step_count(spawn_steps(), x)
            + step_count(activation_steps(f), x)
        &&& step_count(spawn_steps(), x) == (if x is Spawn { 1nat } else { 0nat })
    } by {
        let x = xs[i];
        lemma_boot_counts(f, x);
        lemma_count_one(Step::Settle, x);
        lemma_count_one(Step::StartServer, x);
        lemma_count_three(Step::Spawn(Chain::Main), Step::Spawn(Chain::Zcash), Step::Spawn(Chain::Ethereum), x);
    }
    assert(xs[0] == Step::DownloadBinaries);
    assert(xs[1] == Step::Spawn(Chain::Main));
    assert(xs[2] == Step::Spawn(Chain::Zcash));
    assert(xs[3] == Step::Spawn(Chain::Ethereum));
    assert(xs[4] == Step::ActivateSidechains);
    assert(xs[5] == Step::FetchParams);
    assert(xs[6] == Step::SetupRegtestGenesis);
    lemma_boot_counts(f, Step::DownloadBinaries);
    lemma_boot_counts(f, Step::Spawn(Chain::Main));
    lemma_boot_counts(f, Step::Spawn(Chain::Zcash));
    lemma_boot_counts(f, Step::Spawn(Chain::Ethereum));
    lemma_boot_counts(f, Step::ActivateSidechains);
    lemma_boot_counts(f, Step::FetchParams);
    lemma_boot_counts(f, Step::SetupRegtestGenesis);
    let n = provision_steps(f).len() as int;
    assert(boot_steps(f).subrange(n, n + 3) =~= spawn_steps());
}

/// A shutdown drains the server before it stops the nodes, and waits for each of the
/// three daemons once, only after the nodes were asked to stop: the sidechain node, then
/// the mainchain node, then the account-model sidechain.
pub proof fn lemma_shutdown_order()
    ensures
        shutdown_steps()[0] == Step::StopServer,
        shutdown_steps()[1] == Step::StopClients,
        step_count(shutdown_steps(), Step::StopServer) == 1,
        step_count(shutdown_steps(), Step::StopClients) == 1,
        step_count(shutdown_steps().take(2), Step::Wait(Chain::Main)) == 0,
        step_count(shutdown_steps().take(2), Step::Wait(Chain::Zcash)) == 0,
        step_count(shutdown_steps().take(2), Step::Wait(Chain::Ethereum)) == 0,
        shutdown_steps().skip(3) == seq![
            Step::Wait(Chain::Zcash),
            Step::Wait(Chain::Main),
            Step::Wait(Chain::Ethereum),
        ],
        step_count(shutdown_steps(), Step::Wait(Chain::Main)) == 1,
        step_count(shutdown_steps(), Step::Wait(Chain::Zcash)) == 1,
        step_count(shutdown_steps(), Step::Wait(Chain::Ethereum)) == 1,
{
    let s = shutdown_steps();
    let a = seq![Step::StopServer, Step::StopClients];
    let b = seq![Step::Interrupt(Chain::Ethereum)];
    let c = seq![Step::Wait(Chain::Zcash), Step::Wait(Chain::Main), Step::Wait(Chain::Ethereum)];
    assert(s =~= a + b + c);
    assert(s.take(2) =~= a);
    assert(s.skip(3) =~= c);
    let xs = seq![
        Step::StopServer,
        Step::StopClients,
        Step::Wait(Chain::Main),
        Step::Wait(Chain::Zcash),
        Step::Wait(Chain::Ethereum),
    ];
    assert forall|i: int| 0 <= i < xs.len() implies {
        let x = #[trigger] xs[i];
        step_count(s, x) == step_count(a, x) + step_count(b, x) + step_count(c, x)
    } by {
        let x = xs[i];
        lemma_count_concat(a, b, x);
        lemma_count_concat(a + b, c, x);
    }
    assert(xs[0] == Step::StopServer);
    assert(xs[1] == Step::StopClients);
    assert(xs[2] == Step::Wait(Chain::Main));
    assert(xs[3] == Step::Wait(Chain::Zcash));
    assert(xs[4] == Step::Wait(Chain::Ethereum));
    let ys = xs;
    assert forall|i: int| 0 <= i < ys.len() implies {
        let x = #[trigger] ys[i];
        &&& step_count(a, x) == (if Step::StopServer == x { 1nat } else { 0nat }) + (if Step::StopClients == x { 1nat } else { 0nat })
        &&& step_count(b, x) == (if Step::Interrupt(Chain::Ethereum) == x { 1nat } else { 0nat })
        &&& step_count(c, x) == (if Step::Wait(Chain::Zcash) == x { 1nat } else { 0nat }) + (if Step::Wait(Chain::Main) == x { 1nat } else { 0nat }) + (if Step::Wait(Chain::Ethereum) == x { 1nat } else { 0nat })
    } by {
        let x = ys[i];
        lemma_count_two(Step::StopServer, Step::StopClients, x);
        lemma_count_one(Step::Interrupt(Chain::Ethereum), x);
        lemma_count_three(Step::Wait(Chain::Zcash), Step::Wait(Chain::Main), Step::Wait(Chain::Ethereum), x);
    }
}

} // verus!
