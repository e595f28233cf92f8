use vstd::prelude::*;

use crate::create2::{
    create2_run, create2_start, fetch_answer, lemma_create2_run, lemma_create2_rerun_on_unchanged_chain,
    transactions_sent, Create2Directive, Create2Event, Create2State,
};
use crate::helpers::{get_salt, salt_of};

verus! {

/// One contract to deploy with CREATE2: the name that gives its salt, the label
/// that reports name it by, the salt, and the init code (creation bytecode
/// followed by the encoded constructor arguments).
pub struct DeployRequest {
    pub contract_name: &'static str,
    pub label: &'static str,
    pub salt: [u8; 32],
    pub init_code: Vec<u8>,
}

/// `request` deploys `init_code` under the name `contract_name` (salted by it)
/// and the label `label`.
pub open spec fn requests(
    request: DeployRequest,
    contract_name: Seq<char>,
    label: Seq<char>,
    init_code: Seq<u8>,
) -> bool {
    &&& request.contract_name@ == contract_name
    &&& request.label@ == label
    &&& request.salt@ == salt_of(contract_name)
    &&& request.init_code@ == init_code
}

/// The request to deploy `init_code` as `contract_name`, reported as `label`.
pub fn deploy_request(contract_name: &'static str, label: &'static str, init_code: Vec<u8>) -> (request:
    DeployRequest)
    ensures
        requests(request, contract_name@, label@, init_code@),
{
    DeployRequest { contract_name, label, salt: get_salt(contract_name), init_code }
}

/// The addresses, as sequences.
pub open spec fn address_seqs(addresses: Seq<[u8; 20]>) -> Seq<Seq<u8>> {
    addresses.map_values(|a: [u8; 20]| a@)
}

/// A deployment request, as values: the contract's name (which gives the salt),
/// its label and its init code.
pub struct RequestSpec {
    pub contract_name: Seq<char>,
    pub label: Seq<char>,
    pub init_code: Seq<u8>,
}

/// The values of a request.
pub open spec fn request_spec(request: DeployRequest) -> RequestSpec {
    RequestSpec {
        contract_name: request.contract_name@,
        label: request.label@,
        init_code: request.init_code@,
    }
}

/// The state in which the CREATE2 deployment of `request` starts
/// (`Create2Deployment::new` with the request's init code and salt).
pub open spec fn deployment_start(request: RequestSpec) -> Create2State {
    create2_start(request.init_code, salt_of(request.contract_name))
}

/// A deployment of a suite, one contract at a time: given the addresses of the
/// contracts deployed so far, the next request, if any.
pub type SuitePlan = spec_fn(Seq<Seq<u8>>) -> Option<RequestSpec>;

/// The addresses at which the first `n` contracts of a suite land when each
/// lands at its CREATE2 address.
pub open spec fn suite_addresses(plan: SuitePlan, n: nat) -> Seq<Seq<u8>>
    decreases n,
{
    if n == 0 {
        seq![]
    } else {
        let previous = suite_addresses(plan, (n - 1) as nat);
        match plan(previous) {
            Some(request) => previous.push(deployment_start(request).address),
            None => previous,
        }
    }
}

/// Some answers of the chain make the deployment of `request` report success at
/// `address`.
pub open spec fn reports_success(request: RequestSpec, address: Seq<u8>) -> bool {
    exists|events: Seq<Create2Event>|
        #[trigger] create2_run(deployment_start(request), events).contains(
            Create2Directive::Finish(Ok(address)),
        )
}

/// Every contract of `deployed` was requested by `plan` (given the ones before
/// it) and its deployment reported success at that address.
pub open spec fn completed_run(plan: SuitePlan, deployed: Seq<Seq<u8>>) -> bool {
    forall|i: int|
        0 <= i < deployed.len() ==> (#[trigger] plan(deployed.take(i)) matches Some(request)
            && reports_success(request, deployed[i]))
}

/// Whatever the chain answered, a run of a suite in which every deployment
/// reported success placed the contracts at the suite's CREATE2 addresses, which
/// depend on the plan alone: two such runs give the same addresses.
pub proof fn lemma_suite_lands_at_its_addresses(plan: SuitePlan, deployed: Seq<Seq<u8>>)
    requires
        completed_run(plan, deployed),
    ensures
        deployed == suite_addresses(plan, deployed.len()),
    decreases deployed.len(),
{
    if deployed.len() > 0 {
        let n = deployed.len() - 1;
        let previous = deployed.take(n as int);
        assert forall|i: int| 0 <= i < previous.len() implies (#[trigger] plan(previous.take(i)) matches Some(
            request,
        ) && reports_success(request, previous[i])) by {
            assert(previous.take(i) =~= deployed.take(i));
            assert(plan(deployed.take(i)) is Some);
        }
        lemma_suite_lands_at_its_addresses(plan, previous);
        assert(plan(deployed.take(n as int)) is Some);
        let request = plan(previous)->Some_0;
        let events = choose|events: Seq<Create2Event>|
            #[trigger] create2_run(deployment_start(request), events).contains(
                Create2Directive::Finish(Ok(deployed[n as int])),
            );
        lemma_create2_run(deployment_start(request), events);
        let run = create2_run(deployment_start(request), events);
        let j = choose|j: int| 0 <= j < run.len() && run[j] == Create2Directive::Finish(Ok(deployed[n as int]));
        assert(run[j] == Create2Directive::Finish(Ok(deployed[n as int])));
        assert(deployed =~= previous.push(deployment_start(request).address));
    }
}

/// The deployment of `request` reported success at `address` on a look at the
/// code that the chain `code_at` answers.
pub open spec fn reports_success_on(request: RequestSpec, address: Seq<u8>, code_at: spec_fn(Seq<u8>) -> bool) -> bool {
    exists|events: Seq<Create2Event>, i: int|
        {
            &&& 0 <= i < create2_run(deployment_start(request), events).len()
            &&& #[trigger] create2_run(deployment_start(request), events)[i] == Create2Directive::Finish(
                Ok(address),
            )
            &&& events[i] == fetch_answer(code_at, deployment_start(request).address)
        }
}

/// Every contract of `deployed` was requested by `plan` (given the ones before
/// it), and its deployment reported success at that address on a look at the code
/// that the chain `code_at` answers: `code_at` is the chain the run left behind,
/// which answers those looks as they were answered, since a deployment only adds
/// code.
pub open spec fn completed_run_on(plan: SuitePlan, code_at: spec_fn(Seq<u8>) -> bool, deployed: Seq<Seq<u8>>) -> bool {
    forall|i: int|
        0 <= i < deployed.len() ==> (#[trigger] plan(deployed.take(i)) matches Some(request)
            && reports_success_on(request, deployed[i], code_at))
}

/// A suite run that completed on the chain `code_at`, run again on that unchanged
/// chain, deploys nothing: once the second run's first `k` deployments have
/// reported the first run's addresses, its `k`-th request is the first run's, and
/// its deployment, answered by the same chain, reports the first run's `k`-th
/// address at once and sends no transaction.
pub proof fn lemma_suite_rerun_on_unchanged_chain(
    plan: SuitePlan,
    code_at: spec_fn(Seq<u8>) -> bool,
    deployed: Seq<Seq<u8>>,
    k: int,
    events: Seq<Create2Event>,
)
    requires
        completed_run_on(plan, code_at, deployed),
        0 <= k < deployed.len(),
        events.len() > 0,
        events[0] == fetch_answer(code_at, deployment_start(plan(deployed.take(k))->Some_0).address),
    ensures
        ({
            let run = create2_run(deployment_start(plan(deployed.take(k))->Some_0), events);
            &&& run == seq![Create2Directive::Finish(Ok(deployed[k]))]
            &&& transactions_sent(run) == 0
        }),
{
    assert(plan(deployed.take(k)) is Some);
    let request = plan(deployed.take(k))->Some_0;
    assert(reports_success_on(request, deployed[k], code_at));
    let (first, i) = choose|first: Seq<Create2Event>, i: int|
        {
            &&& 0 <= i < create2_run(deployment_start(request), first).len()
            &&& #[trigger] create2_run(deployment_start(request), first)[i] == Create2Directive::Finish(
                Ok(deployed[k]),
            )
            &&& first[i] == fetch_answer(code_at, deployment_start(request).address)
        };
    lemma_create2_rerun_on_unchanged_chain(
        request.init_code,
        salt_of(request.contract_name),
        deployed[k],
        first,
        i,
        code_at,
        events,
    );
}

} // verus!
