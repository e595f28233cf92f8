use vstd::prelude::*;
use vstd::utf8::encode_utf8;

use crate::abi::{
    abi_encode_address, abi_encode_addresses_and_string, abi_encode_addresses_with_int32, address_word,
    dynamic_tail, int32_word, uint_word,
};
use crate::bytes::concat_bytes;
use crate::create2::{create2_run, fetch_answer, transactions_sent, Create2Directive, Create2Event};
use crate::plan::{
    address_seqs, completed_run, deploy_request, deployment_start, lemma_suite_lands_at_its_addresses,
    lemma_suite_rerun_on_unchanged_chain, completed_run_on, request_spec, requests, suite_addresses, DeployRequest, RequestSpec,
    SuitePlan,
};

verus! {

/// The creation bytecodes of the Uniswap V4 contracts.
pub struct UniswapV4Bytecodes {
    pub permit2: Vec<u8>,
    pub pool_manager: Vec<u8>,
    pub position_descriptor: Vec<u8>,
    pub position_manager: Vec<u8>,
    pub quoter: Vec<u8>,
    pub state_view: Vec<u8>,
}

/// The addresses of a Uniswap V4 deployment.
pub struct UniswapV4Result {
    pub permit2_address: [u8; 20],
    pub pool_manager_address: [u8; 20],
    pub position_descriptor_address: [u8; 20],
    pub position_manager_address: [u8; 20],
    pub quoter_address: [u8; 20],
    pub state_view_address: [u8; 20],
}

/// The next thing to do in a Uniswap V4 deployment.
pub enum UniswapV4Step {
    Deploy(DeployRequest),
    Done(UniswapV4Result),
}

/// The gas limit that the position manager grants unsubscribe callbacks.
pub const UNSUBSCRIBE_GAS_LIMIT: i32 = 100_000;

/// The constructor arguments `(pool_manager, weth, "ETH")` of the position
/// descriptor, ABI-encoded.
pub open spec fn position_descriptor_args(pool_manager: Seq<u8>, weth: Seq<u8>) -> Seq<u8> {
    uint_word(32) + address_word(pool_manager) + address_word(weth) + uint_word(96) + dynamic_tail(
        encode_utf8("ETH"@),
    )
}

/// The Uniswap V4 deployment as a plan, in the order and with the constructor
/// arguments described at `deploy_uniswap_v4_next`.
pub open spec fn uniswap_v4_plan(bytecodes: UniswapV4Bytecodes, deployer: Seq<u8>, weth: Seq<u8>) -> SuitePlan {
    |d: Seq<Seq<u8>>|
        if d.len() == 0 {
            Some(RequestSpec { contract_name: "Permit2"@, label: "Permit2"@, init_code: bytecodes.permit2@ })
        } else if d.len() == 1 {
            Some(
                RequestSpec {
                    contract_name: "PoolManager"@,
                    label: "PoolManager"@,
                    init_code: bytecodes.pool_manager@ + address_word(deployer),
                },
            )
        } else if d.len() == 2 {
            Some(
                RequestSpec {
                    contract_name: "PositionDescriptor"@,
                    label: "PositionDescriptor"@,
                    init_code: bytecodes.position_descriptor@ + position_descriptor_args(d[1], weth),
                },
            )
        } else if d.len() == 3 {
            Some(
                RequestSpec {
                    contract_name: "PositionManager"@,
                    label: "PositionManager"@,
                    init_code: bytecodes.position_manager@ + address_word(d[1]) + address_word(d[0])
                        + int32_word(UNSUBSCRIBE_GAS_LIMIT) + address_word(d[2]) + address_word(weth),
                },
            )
        } else if d.len() == 4 {
            Some(
                RequestSpec {
                    contract_name: "Quoter"@,
                    label: "Quoter"@,
                    init_code: bytecodes.quoter@ + address_word(d[1]),
                },
            )
        } else if d.len() == 5 {
            Some(
                RequestSpec {
                    contract_name: "StateView"@,
                    label: "StateView"@,
                    init_code: bytecodes.state_view@ + address_word(d[1]),
                },
            )
        } else {
            None
        }
}

/// The addresses of the six Uniswap V4 contracts.
pub open spec fn uniswap_v4_addresses(bytecodes: UniswapV4Bytecodes, deployer: Seq<u8>, weth: Seq<u8>) -> Seq<
    Seq<u8>,
> {
    suite_addresses(uniswap_v4_plan(bytecodes, deployer, weth), 6)
}

/// Whatever the chain answered, a Uniswap V4 deployment whose six contracts all
/// reported success placed them at `uniswap_v4_addresses(bytecodes, deployer, weth)`:
/// running it again with the same inputs gives the same addresses.
pub proof fn lemma_uniswap_v4_repeatable(
    bytecodes: UniswapV4Bytecodes,
    deployer: Seq<u8>,
    weth: Seq<u8>,
    deployed: Seq<Seq<u8>>,
)
    requires
        deployed.len() == 6,
        completed_run(uniswap_v4_plan(bytecodes, deployer, weth), deployed),
    ensures
        deployed == uniswap_v4_addresses(bytecodes, deployer, weth),
{
    lemma_suite_lands_at_its_addresses(uniswap_v4_plan(bytecodes, deployer, weth), deployed);
}

/// Once a Uniswap V4 deployment with this deployer and WETH has completed on the chain `code_at`,
/// a second one on that unchanged chain deploys nothing: its `k`-th deployment,
/// after the first `k` have reported the first run's addresses, reports the first
/// run's `k`-th address at once and sends no transaction, so the second run ends
/// with the same six contracts.
pub proof fn lemma_uniswap_v4_rerun_on_unchanged_chain(
    bytecodes: UniswapV4Bytecodes,
    deployer: Seq<u8>,
    weth: Seq<u8>,
    code_at: spec_fn(Seq<u8>) -> bool,
    deployed: Seq<Seq<u8>>,
    k: int,
    events: Seq<Create2Event>,
)
    requires
        deployed.len() == 6,
        completed_run_on(uniswap_v4_plan(bytecodes, deployer, weth), code_at, deployed),
        0 <= k < 6,
        events.len() > 0,
        events[0] == fetch_answer(
            code_at,
            deployment_start(uniswap_v4_plan(bytecodes, deployer, weth)(deployed.take(k))->Some_0).address,
        ),
    ensures
        ({
            let request = uniswap_v4_plan(bytecodes, deployer, weth)(deployed.take(k))->Some_0;
            let run = create2_run(deployment_start(request), events);
            &&& run == seq![Create2Directive::Finish(Ok(deployed[k]))]
            &&& transactions_sent(run) == 0
        }),
{
    lemma_suite_rerun_on_unchanged_chain(uniswap_v4_plan(bytecodes, deployer, weth), code_at, deployed, k, events);
}

/// The Uniswap V4 deployment, one contract at a time: given the addresses of the
/// contracts deployed so far (in order), the next contract to deploy, or the
/// result once all six are deployed.
///
/// Permit2; `PoolManager` owned by the deployer; `PositionDescriptor` with the pool
/// manager, WETH and the label "ETH"; `PositionManager` with the pool manager,
/// Permit2, an unsubscribe gas limit of 100,000, the position descriptor and WETH;
/// `Quoter` and `StateView` with the pool manager.
pub fn deploy_uniswap_v4_next(
    bytecodes: &UniswapV4Bytecodes,
    deployer: [u8; 20],
    weth_address: [u8; 20],
    deployed: &Vec<[u8; 20]>,
) -> (step: UniswapV4Step)
    requires
        deployed.len() <= 6,
    ensures
        deployed.len() == 0 ==> (step matches UniswapV4Step::Deploy(r) && requests(
            r,
            "Permit2"@,
            "Permit2"@,
            bytecodes.permit2@,
        )),
        deployed.len() == 1 ==> (step matches UniswapV4Step::Deploy(r) && requests(
            r,
            "PoolManager"@,
            "PoolManager"@,
            bytecodes.pool_manager@ + address_word(deployer@),
        )),
        deployed.len() == 2 ==> (step matches UniswapV4Step::Deploy(r) && requests(
            r,
            "PositionDescriptor"@,
            "PositionDescriptor"@,
            bytecodes.position_descriptor@ + position_descriptor_args(deployed@[1]@, weth_address@),
        )),
        deployed.len() == 3 ==> (step matches UniswapV4Step::Deploy(r) && requests(
            r,
            "PositionManager"@,
            "PositionManager"@,
            bytecodes.position_manager@ + address_word(deployed@[1]@) + address_word(deployed@[0]@)
                + int32_word(UNSUBSCRIBE_GAS_LIMIT) + address_word(deployed@[2]@) + address_word(
                weth_address@,
            ),
        )),
        deployed.len() == 4 ==> (step matches UniswapV4Step::Deploy(r) && requests(
            r,
            "Quoter"@,
            "Quoter"@,
            bytecodes.quoter@ + address_word(deployed@[1]@),
        )),
        deployed.len() == 5 ==> (step matches UniswapV4Step::Deploy(r) && requests(
            r,
            "StateView"@,
            "StateView"@,
            bytecodes.state_view@ + address_word(deployed@[1]@),
        )),
        step matches UniswapV4Step::Deploy(r) ==> uniswap_v4_plan(*bytecodes, deployer@, weth_address@)(
            address_seqs(deployed@),
        ) == Some(request_spec(r)),
        deployed.len() == 6 ==> (step matches UniswapV4Step::Done(result) && {
            &&& result.permit2_address == deployed@[0]
            &&& result.pool_manager_address == deployed@[1]
            &&& result.position_descriptor_address == deployed@[2]
            &&& result.position_manager_address == deployed@[3]
            &&& result.quoter_address == deployed@[4]
            &&& result.state_view_address == deployed@[5]
        }),
{
    let n = deployed.len();
    if n == 0 {
        UniswapV4Step::Deploy(deploy_request("Permit2", "Permit2", concat_bytes(bytecodes.permit2.as_slice(), &[])))
    } else if n == 1 {
        let args = abi_encode_address(deployer);
        UniswapV4Step::Deploy(
            deploy_request("PoolManager", "PoolManager", concat_bytes(bytecodes.pool_manager.as_slice(), args.as_slice())),
        )
    } else if n == 2 {
        let args = abi_encode_addresses_and_string(deployed[1], weth_address, "ETH");
        let init_code = concat_bytes(bytecodes.position_descriptor.as_slice(), args.as_slice());
        assert(init_code@ =~= bytecodes.position_descriptor@ + position_descriptor_args(deployed@[1]@, weth_address@));
        UniswapV4Step::Deploy(deploy_request("PositionDescriptor", "PositionDescriptor", init_code))
    } else if n == 3 {
        let args = abi_encode_addresses_with_int32(
            deployed[1],
            deployed[0],
            UNSUBSCRIBE_GAS_LIMIT,
            deployed[2],
            weth_address,
        );
        let init_code = concat_bytes(bytecodes.position_manager.as_slice(), args.as_slice());
        assert(init_code@ =~= bytecodes.position_manager@ + address_word(deployed@[1]@) + address_word(deployed@[0]@)
            + int32_word(UNSUBSCRIBE_GAS_LIMIT) + address_word(deployed@[2]@) + address_word(weth_address@));
        UniswapV4Step::Deploy(deploy_request("PositionManager", "PositionManager", init_code))
    } else if n == 4 {
        let args = abi_encode_address(deployed[1]);
        UniswapV4Step::Deploy(deploy_request("Quoter", "Quoter", concat_bytes(bytecodes.quoter.as_slice(), args.as_slice())))
    } else if n == 5 {
        let args = abi_encode_address(deployed[1]);
        UniswapV4Step::Deploy(
            deploy_request("StateView", "StateView", concat_bytes(bytecodes.state_view.as_slice(), args.as_slice())),
        )
    } else {
        UniswapV4Step::Done(
            UniswapV4Result {
                permit2_address: deployed[0],
                pool_manager_address: deployed[1],
                position_descriptor_address: deployed[2],
                position_manager_address: deployed[3],
                quoter_address: deployed[4],
                state_view_address: deployed[5],
            },
        )
    }
}

} // verus!
