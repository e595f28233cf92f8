use vstd::prelude::*;

use crate::abi::{abi_encode_address, abi_encode_address_pair, address_word};
use crate::bytes::concat_bytes;
use crate::create2::{create2_run, fetch_answer, transactions_sent, Create2Directive, Create2Event};
use crate::plan::{
    address_seqs, completed_run, deploy_request, deployment_start, lemma_suite_lands_at_its_addresses,
    lemma_suite_rerun_on_unchanged_chain, completed_run_on, request_spec, requests, suite_addresses, DeployRequest, RequestSpec,
    SuitePlan,
};

verus! {

/// The creation bytecodes of the Uniswap V2 contracts.
pub struct UniswapV2Bytecodes {
    pub weth9: Vec<u8>,
    pub factory: Vec<u8>,
    pub router: Vec<u8>,
}

/// The addresses of a Uniswap V2 deployment.
pub struct UniswapV2Result {
    pub factory_address: [u8; 20],
    pub weth_address: [u8; 20],
    pub router_address: [u8; 20],
}

/// The next thing to do in a Uniswap V2 deployment.
pub enum UniswapV2Step {
    Deploy(DeployRequest),
    Done(UniswapV2Result),
}

/// The Uniswap V2 deployment as a plan: WETH9, then the factory with the
/// deployer's address, then the router with the factory's and WETH9's.
pub open spec fn uniswap_v2_plan(bytecodes: UniswapV2Bytecodes, deployer: Seq<u8>) -> SuitePlan {
    |deployed: Seq<Seq<u8>>|
        if deployed.len() == 0 {
            Some(RequestSpec { contract_name: "WETH9"@, label: "WETH9"@, init_code: bytecodes.weth9@ })
        } else if deployed.len() == 1 {
            Some(
                RequestSpec {
                    contract_name: "UniswapV2Factory"@,
                    label: "UniswapV2Factory"@,
                    init_code: bytecodes.factory@ + address_word(deployer),
                },
            )
        } else if deployed.len() == 2 {
            Some(
                RequestSpec {
                    contract_name: "UniswapV2RouterV2"@,
                    label: "UniswapV2RouterV2"@,
                    init_code: bytecodes.router@ + address_word(deployed[1]) + address_word(deployed[0]),
                },
            )
        } else {
            None
        }
}

/// The addresses of WETH9, the factory and the router.
pub open spec fn uniswap_v2_addresses(bytecodes: UniswapV2Bytecodes, deployer: Seq<u8>) -> Seq<Seq<u8>> {
    suite_addresses(uniswap_v2_plan(bytecodes, deployer), 3)
}

/// Whatever the chain answered, a Uniswap V2 deployment whose three contracts all
/// reported success placed them at `uniswap_v2_addresses(bytecodes, deployer)`:
/// running it again with the same bytecodes and deployer gives the same addresses.
pub proof fn lemma_uniswap_v2_repeatable(bytecodes: UniswapV2Bytecodes, deployer: Seq<u8>, deployed: Seq<Seq<u8>>)
    requires
        deployed.len() == 3,
        completed_run(uniswap_v2_plan(bytecodes, deployer), deployed),
    ensures
        deployed == uniswap_v2_addresses(bytecodes, deployer),
{
    lemma_suite_lands_at_its_addresses(uniswap_v2_plan(bytecodes, deployer), deployed);
}

/// Once a Uniswap V2 deployment with this deployer has completed on the chain `code_at`,
/// a second one on that unchanged chain deploys nothing: its `k`-th deployment,
/// after the first `k` have reported the first run's addresses, reports the first
/// run's `k`-th address at once and sends no transaction, so the second run ends
/// with the same WETH9, factory and router.
pub proof fn lemma_uniswap_v2_rerun_on_unchanged_chain(
    bytecodes: UniswapV2Bytecodes,
    deployer: Seq<u8>,
    code_at: spec_fn(Seq<u8>) -> bool,
    deployed: Seq<Seq<u8>>,
    k: int,
    events: Seq<Create2Event>,
)
    requires
        deployed.len() == 3,
        completed_run_on(uniswap_v2_plan(bytecodes, deployer), code_at, deployed),
        0 <= k < 3,
        events.len() > 0,
        events[0] == fetch_answer(
            code_at,
            deployment_start(uniswap_v2_plan(bytecodes, deployer)(deployed.take(k))->Some_0).address,
        ),
    ensures
        ({
            let request = uniswap_v2_plan(bytecodes, deployer)(deployed.take(k))->Some_0;
            let run = create2_run(deployment_start(request), events);
            &&& run == seq![Create2Directive::Finish(Ok(deployed[k]))]
            &&& transactions_sent(run) == 0
        }),
{
    lemma_suite_rerun_on_unchanged_chain(uniswap_v2_plan(bytecodes, deployer), code_at, deployed, k, events);
}

proof fn lemma_uniswap_v2_addresses_len(bytecodes: UniswapV2Bytecodes, deployer: Seq<u8>, i: nat)
    requires
        i <= 3,
    ensures
        suite_addresses(uniswap_v2_plan(bytecodes, deployer), i).len() == i,
    decreases i,
{
    if i > 0 {
        lemma_uniswap_v2_addresses_len(bytecodes, deployer, (i - 1) as nat);
    }
}

/// WETH9 does not depend on the deployer: it lands at the same address whoever
/// deploys the suite.
pub proof fn lemma_uniswap_v2_weth_ignores_deployer(bytecodes: UniswapV2Bytecodes, first: Seq<u8>, second: Seq<u8>)
    ensures
        uniswap_v2_addresses(bytecodes, first)[0] == uniswap_v2_addresses(bytecodes, second)[0],
{
    let p1 = uniswap_v2_plan(bytecodes, first);
    let p2 = uniswap_v2_plan(bytecodes, second);
    lemma_uniswap_v2_addresses_len(bytecodes, first, 2);
    lemma_uniswap_v2_addresses_len(bytecodes, second, 2);
    assert(suite_addresses(p1, 1) == suite_addresses(p2, 1));
    assert(suite_addresses(p1, 3)[0] == suite_addresses(p1, 2)[0]);
    assert(suite_addresses(p1, 2)[0] == suite_addresses(p1, 1)[0]);
    assert(suite_addresses(p2, 3)[0] == suite_addresses(p2, 2)[0]);
    assert(suite_addresses(p2, 2)[0] == suite_addresses(p2, 1)[0]);
}

/// The Uniswap V2 deployment, one contract at a time: given the addresses of the
/// contracts deployed so far (in order), the next contract to deploy, or the
/// result once all three are deployed.
///
/// First WETH9; then `UniswapV2Factory` with the deployer as its fee setter;
/// then `UniswapV2RouterV2` with the factory and WETH9.
pub fn deploy_uniswap_v2_next(bytecodes: &UniswapV2Bytecodes, deployer: [u8; 20], deployed: &Vec<[u8; 20]>) -> (step:
    UniswapV2Step)
    requires
        deployed.len() <= 3,
    ensures
        deployed.len() == 0 ==> (step matches UniswapV2Step::Deploy(r) && requests(
            r,
            "WETH9"@,
            "WETH9"@,
            bytecodes.weth9@,
        )),
        deployed.len() == 1 ==> (step matches UniswapV2Step::Deploy(r) && requests(
            r,
            "UniswapV2Factory"@,
            "UniswapV2Factory"@,
            bytecodes.factory@ + address_word(deployer@),
        )),
        deployed.len() == 2 ==> (step matches UniswapV2Step::Deploy(r) && requests(
            r,
            "UniswapV2RouterV2"@,
            "UniswapV2RouterV2"@,
            bytecodes.router@ + address_word(deployed@[1]@) + address_word(deployed@[0]@),
        )),
        step matches UniswapV2Step::Deploy(r) ==> uniswap_v2_plan(*bytecodes, deployer@)(address_seqs(deployed@))
            == Some(request_spec(r)),
        deployed.len() == 3 ==> (step matches UniswapV2Step::Done(result) && {
            &&& result.weth_address == deployed@[0]
            &&& result.factory_address == deployed@[1]
            &&& result.router_address == deployed@[2]
        }),
{
    if deployed.len() == 0 {
        UniswapV2Step::Deploy(deploy_request("WETH9", "WETH9", concat_bytes(bytecodes.weth9.as_slice(), &[])))
    } else if deployed.len() == 1 {
        let args = abi_encode_address(deployer);
        UniswapV2Step::Deploy(
            deploy_request("UniswapV2Factory", "UniswapV2Factory", concat_bytes(bytecodes.factory.as_slice(), args.as_slice())),
        )
    } else if deployed.len() == 2 {
        let args = abi_encode_address_pair(deployed[1], deployed[0]);
        let init_code = concat_bytes(bytecodes.router.as_slice(), args.as_slice());
        assert(init_code@ =~= bytecodes.router@ + address_word(deployed@[1]@) + address_word(deployed@[0]@));
        UniswapV2Step::Deploy(deploy_request("UniswapV2RouterV2", "UniswapV2RouterV2", init_code))
    } else {
        UniswapV2Step::Done(
            UniswapV2Result {
                factory_address: deployed[1],
                weth_address: deployed[0],
                router_address: deployed[2],
            },
        )
    }
}

/// The factory's init code carries the deployer: two different deployers (of 20
/// bytes each) give the factory different init codes, whatever WETH9 landed at.
pub proof fn lemma_uniswap_v2_factory_init_code_names_deployer(
    bytecodes: UniswapV2Bytecodes,
    first: Seq<u8>,
    second: Seq<u8>,
    weth: Seq<u8>,
)
    requires
        first.len() == 20,
        second.len() == 20,
        first != second,
    ensures
        uniswap_v2_plan(bytecodes, first)(seq![weth])->Some_0.init_code != uniswap_v2_plan(bytecodes, second)(
            seq![weth],
        )->Some_0.init_code,
{
    let a = bytecodes.factory@ + address_word(first);
    let b = bytecodes.factory@ + address_word(second);
    let n = bytecodes.factory@.len() + 12;
    assert(a.subrange(n as int, a.len() as int) =~= first);
    assert(b.subrange(n as int, b.len() as int) =~= second);
}

} // verus!
