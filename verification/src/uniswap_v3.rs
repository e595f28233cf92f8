use vstd::prelude::*;
use vstd::utf8::*;

use crate::abi::{
    abi_encode_address_pair, abi_encode_address_triple, abi_encode_addresses_and_string, address_word,
    dynamic_tail, uint_word,
};
use crate::bytes::concat_bytes;
use crate::helpers::{
    files_view, libraries_view, link_bytecode, link_libraries_outcome, outcome_of, strip_0x_prefix,
    ContractLinks, ContractLinksView, FileLinks, FileLinksView, LinkFailure, LinkOutcome, LinkedLibrary,
};
use crate::hex::{hex_decode, hex_decode_failure, hex_decode_spec, HexFailure};
use crate::create2::{create2_run, fetch_answer, transactions_sent, Create2Directive, Create2Event};
use crate::plan::{
    address_seqs, completed_run, deploy_request, deployment_start, lemma_suite_lands_at_its_addresses,
    lemma_suite_rerun_on_unchanged_chain, completed_run_on, request_spec, requests, suite_addresses, DeployRequest, RequestSpec,
    SuitePlan,
};

verus! {

/// The creation bytecodes of the Uniswap V3 contracts whose bytecode needs no
/// linking.
pub struct UniswapV3Bytecodes {
    pub factory: Vec<u8>,
    pub swap_router: Vec<u8>,
    pub nft_descriptor: Vec<u8>,
    pub position_manager: Vec<u8>,
}

/// The addresses of a Uniswap V3 deployment.
pub struct UniswapV3Result {
    pub factory_address: [u8; 20],
    pub swap_router_address: [u8; 20],
    pub nft_descriptor_address: [u8; 20],
    pub position_descriptor_address: [u8; 20],
    pub position_manager_address: [u8; 20],
    pub weth_address: [u8; 20],
}

/// The next thing to do in a Uniswap V3 deployment.
pub enum UniswapV3Step {
    Deploy(DeployRequest),
    /// The unlinked bytecode text of `NonfungibleTokenPositionDescriptor` is needed.
    LoadPositionDescriptorBytecode,
    /// The linked bytecode text is not hexadecimal, for this reason.
    DecodeFailed(HexFailure),
    Done(UniswapV3Result),
}

/// Where the position descriptor's bytecode refers to the `NFTDescriptor` library.
pub open spec fn position_descriptor_link_references() -> Seq<FileLinksView> {
    seq![
        FileLinksView {
            file_name: "NFTDescriptor.sol"@,
            contracts: seq![
                ContractLinksView { contract_name: "NFTDescriptor"@, references: seq![(1681usize, 20usize)] },
            ],
        },
    ]
}

/// The constructor arguments `(weth, nft_descriptor, "ETH")` of the position
/// descriptor, ABI-encoded.
pub open spec fn position_descriptor_args(weth: Seq<u8>, nft_descriptor: Seq<u8>) -> Seq<u8> {
    uint_word(32) + address_word(weth) + address_word(nft_descriptor) + uint_word(96) + dynamic_tail(
        encode_utf8("ETH"@),
    )
}

/// Linking `NFTDescriptor`, deployed at `nft_descriptor`, into the position
/// descriptor's unlinked bytecode text `text` succeeds.
pub open spec fn position_descriptor_links_cleanly(text: Seq<char>, nft_descriptor: Seq<u8>) -> bool {
    link_libraries_outcome(
        text,
        position_descriptor_link_references(),
        seq![("NFTDescriptor"@, nft_descriptor)],
    ) is Linked
}

/// What the position descriptor step gives for the unlinked bytecode text `text`,
/// once `NFTDescriptor` is deployed at `nft_descriptor` and linked in.
pub open spec fn position_descriptor_step(
    step: UniswapV3Step,
    text: Seq<char>,
    weth: Seq<u8>,
    nft_descriptor: Seq<u8>,
) -> bool {
    match link_libraries_outcome(
        text,
        position_descriptor_link_references(),
        seq![("NFTDescriptor"@, nft_descriptor)],
    ) {
        LinkOutcome::Linked(linked) => match hex_decode_spec(linked) {
            Some(code) => step matches UniswapV3Step::Deploy(r) && requests(
                r,
                "NonfungibleTokenPositionDescriptor"@,
                "Position Descriptor"@,
                code + position_descriptor_args(weth, nft_descriptor),
            ),
            None => step matches UniswapV3Step::DecodeFailed(failure) && hex_decode_failure(linked, failure),
        },
        _ => false,
    }
}

/// The request for the position descriptor, from its unlinked bytecode text `text`,
/// once `NFTDescriptor` is deployed at `nft_descriptor`; `None` when linking or
/// decoding fails.
pub open spec fn position_descriptor_request_spec(text: Seq<char>, weth: Seq<u8>, nft_descriptor: Seq<u8>) -> Option<
    RequestSpec,
> {
    match link_libraries_outcome(
        text,
        position_descriptor_link_references(),
        seq![("NFTDescriptor"@, nft_descriptor)],
    ) {
        LinkOutcome::Linked(linked) => match hex_decode_spec(linked) {
            Some(code) => Some(
                RequestSpec {
                    contract_name: "NonfungibleTokenPositionDescriptor"@,
                    label: "Position Descriptor"@,
                    init_code: code + position_descriptor_args(weth, nft_descriptor),
                },
            ),
            None => None,
        },
        _ => None,
    }
}

/// The Uniswap V3 deployment as a plan, with `text` as the position descriptor's
/// unlinked bytecode text, in the order and with the constructor arguments
/// described at `deploy_uniswap_v3_next`.
pub open spec fn uniswap_v3_plan(bytecodes: UniswapV3Bytecodes, weth: Seq<u8>, text: Seq<char>) -> SuitePlan {
    |d: Seq<Seq<u8>>|
        if d.len() == 0 {
            Some(
                RequestSpec {
                    contract_name: "UniswapV3Factory"@,
                    label: "UniswapV3Factory"@,
                    init_code: bytecodes.factory@,
                },
            )
        } else if d.len() == 1 {
            Some(
                RequestSpec {
                    contract_name: "SwapRouter"@,
                    label: "SwapRouter"@,
                    init_code: bytecodes.swap_router@ + address_word(d[0]) + address_word(weth),
                },
            )
        } else if d.len() == 2 {
            Some(
                RequestSpec {
                    contract_name: "NFTDescriptor"@,
                    label: "NFTDescriptorLibrary"@,
                    init_code: bytecodes.nft_descriptor@,
                },
            )
        } else if d.len() == 3 {
            position_descriptor_request_spec(text, weth, d[2])
        } else if d.len() == 4 {
            Some(
                RequestSpec {
                    contract_name: "NonfungiblePositionManager"@,
                    label: "Position Manager"@,
                    init_code: bytecodes.position_manager@ + address_word(d[0]) + address_word(weth)
                        + address_word(d[3]),
                },
            )
        } else {
            None
        }
}

/// The text of an optional bytecode text (empty when there is none).
pub open spec fn text_of(text: Option<String>) -> Seq<char> {
    match text {
        Some(t) => t@,
        None => seq![],
    }
}

/// The addresses of the five Uniswap V3 contracts.
pub open spec fn uniswap_v3_addresses(bytecodes: UniswapV3Bytecodes, weth: Seq<u8>, text: Seq<char>) -> Seq<
    Seq<u8>,
> {
    suite_addresses(uniswap_v3_plan(bytecodes, weth, text), 5)
}

/// Whatever the chain answered, a Uniswap V3 deployment whose five contracts all
/// reported success placed them at `uniswap_v3_addresses(bytecodes, weth, text)`:
/// running it again with the same bytecodes, WETH and artifact gives the same
/// addresses, whoever deploys.
pub proof fn lemma_uniswap_v3_repeatable(
    bytecodes: UniswapV3Bytecodes,
    weth: Seq<u8>,
    text: Seq<char>,
    deployed: Seq<Seq<u8>>,
)
    requires
        deployed.len() == 5,
        completed_run(uniswap_v3_plan(bytecodes, weth, text), deployed),
    ensures
        deployed == uniswap_v3_addresses(bytecodes, weth, text),
{
    lemma_suite_lands_at_its_addresses(uniswap_v3_plan(bytecodes, weth, text), deployed);
}

/// Once a Uniswap V3 deployment with these bytecodes, WETH and artifact has completed on the chain `code_at`,
/// a second one on that unchanged chain deploys nothing: its `k`-th deployment,
/// after the first `k` have reported the first run's addresses, reports the first
/// run's `k`-th address at once and sends no transaction, so the second run ends
/// with the same five contracts, whoever deploys.
pub proof fn lemma_uniswap_v3_rerun_on_unchanged_chain(
    bytecodes: UniswapV3Bytecodes,
    weth: Seq<u8>,
    text: Seq<char>,
    code_at: spec_fn(Seq<u8>) -> bool,
    deployed: Seq<Seq<u8>>,
    k: int,
    events: Seq<Create2Event>,
)
    requires
        deployed.len() == 5,
        completed_run_on(uniswap_v3_plan(bytecodes, weth, text), code_at, deployed),
        0 <= k < 5,
        events.len() > 0,
        events[0] == fetch_answer(
            code_at,
            deployment_start(uniswap_v3_plan(bytecodes, weth, text)(deployed.take(k))->Some_0).address,
        ),
    ensures
        ({
            let request = uniswap_v3_plan(bytecodes, weth, text)(deployed.take(k))->Some_0;
            let run = create2_run(deployment_start(request), events);
            &&& run == seq![Create2Directive::Finish(Ok(deployed[k]))]
            &&& transactions_sent(run) == 0
        }),
{
    lemma_suite_rerun_on_unchanged_chain(uniswap_v3_plan(bytecodes, weth, text), code_at, deployed, k, events);
}

/// The link references and the library of the position descriptor.
fn position_descriptor_links(nft_descriptor: [u8; 20]) -> (links: (Vec<FileLinks>, Vec<LinkedLibrary>))
    ensures
        files_view(links.0@) == position_descriptor_link_references(),
        libraries_view(links.1@) == seq![("NFTDescriptor"@, nft_descriptor@)],
{
    let mut references: Vec<(usize, usize)> = Vec::new();
    references.push((1681, 20));
    assert(references@ =~= seq![(1681usize, 20usize)]);
    let mut contracts: Vec<ContractLinks> = Vec::new();
    contracts.push(ContractLinks { contract_name: String::from_str("NFTDescriptor"), references });
    assert(contracts@.map_values(|c: ContractLinks| c@) =~= seq![
        ContractLinksView { contract_name: "NFTDescriptor"@, references: seq![(1681usize, 20usize)] },
    ]);
    let mut files: Vec<FileLinks> = Vec::new();
    files.push(FileLinks { file_name: String::from_str("NFTDescriptor.sol"), contracts });
    let mut libraries: Vec<LinkedLibrary> = Vec::new();
    libraries.push(LinkedLibrary { name: String::from_str("NFTDescriptor"), address: nft_descriptor });
    assert(files_view(files@) =~~= position_descriptor_link_references());
    assert(libraries_view(libraries@) =~~= seq![("NFTDescriptor"@, nft_descriptor@)]);
    (files, libraries)
}

/// Links `NFTDescriptor`, deployed at `nft_descriptor`, into the position
/// descriptor's bytecode text `text`, as bytes and without the `0x` prefix.
fn position_descriptor_link(text: &String, nft_descriptor: [u8; 20]) -> (r: Result<Vec<u8>, LinkFailure>)
    ensures
        match outcome_of(r) {
            LinkOutcome::Linked(code) => link_libraries_outcome(
                text@,
                position_descriptor_link_references(),
                seq![("NFTDescriptor"@, nft_descriptor@)],
            ) == LinkOutcome::Linked(seq![48u8, 120u8] + code),
            failure => link_libraries_outcome(
                text@,
                position_descriptor_link_references(),
                seq![("NFTDescriptor"@, nft_descriptor@)],
            ) == failure,
        },
{
    let bytes = text.as_str().as_bytes_vec();
    proof {
        encode_utf8_valid_utf8(text@);
    }
    let code = strip_0x_prefix(bytes);
    let (files, libraries) = position_descriptor_links(nft_descriptor);
    link_bytecode(code, &files, &libraries)
}

/// Why linking `NFTDescriptor`, deployed at `nft_descriptor`, into the position
/// descriptor's unlinked bytecode text `text` fails, or `None` when it succeeds.
pub fn position_descriptor_link_failure(text: &String, nft_descriptor: [u8; 20]) -> (failure: Option<LinkFailure>)
    ensures
        failure is None <==> position_descriptor_links_cleanly(text@, nft_descriptor@),
        failure matches Some(f) ==> outcome_of(Err(f)) == link_libraries_outcome(
            text@,
            position_descriptor_link_references(),
            seq![("NFTDescriptor"@, nft_descriptor@)],
        ),
{
    match position_descriptor_link(text, nft_descriptor) {
        Ok(_) => None,
        Err(failure) => Some(failure),
    }
}

/// Links `NFTDescriptor` into the position descriptor's bytecode text, decodes it
/// and appends the constructor arguments.
fn position_descriptor_request(text: &String, weth_address: [u8; 20], nft_descriptor: [u8; 20]) -> (step:
    UniswapV3Step)
    requires
        position_descriptor_links_cleanly(text@, nft_descriptor@),
    ensures
        position_descriptor_step(step, text@, weth_address@, nft_descriptor@),
{
    match position_descriptor_link(text, nft_descriptor) {
        Ok(linked) => {
            let prefix: [u8; 2] = [48u8, 120u8];
            let prefixed = concat_bytes(prefix.as_slice(), linked.as_slice());
            assert(prefix@ =~= seq![48u8, 120u8]);
            match hex_decode(prefixed.as_slice()) {
                Ok(decoded) => {
                    let args = abi_encode_addresses_and_string(weth_address, nft_descriptor, "ETH");
                    let init_code = concat_bytes(decoded.as_slice(), args.as_slice());
                    assert(init_code@ =~= decoded@ + position_descriptor_args(weth_address@, nft_descriptor@));
                    UniswapV3Step::Deploy(
                        deploy_request("NonfungibleTokenPositionDescriptor", "Position Descriptor", init_code),
                    )
                },
                Err(failure) => UniswapV3Step::DecodeFailed(failure),
            }
        },
        Err(_) => vstd::pervasive::unreached(),
    }
}

/// The Uniswap V3 deployment, one contract at a time: given the addresses of the
/// contracts deployed so far (in order), the next contract to deploy, or the
/// result once all five are deployed.
///
/// `UniswapV3Factory`; `SwapRouter` with the factory and WETH; the `NFTDescriptor`
/// library; `NonfungibleTokenPositionDescriptor`, whose bytecode text (asked for
/// when it is not given) gets the library's address linked in at byte 1681 and
/// takes WETH, the library and the label "ETH"; `NonfungiblePositionManager` with
/// the factory, WETH and the position descriptor. The library must link into the
/// bytecode text (`position_descriptor_link_failure` tells).
pub fn deploy_uniswap_v3_next(
    bytecodes: &UniswapV3Bytecodes,
    weth_address: [u8; 20],
    deployed: &Vec<[u8; 20]>,
    position_descriptor_bytecode: &Option<String>,
) -> (step: UniswapV3Step)
    requires
        deployed.len() <= 5,
        deployed.len() == 3 && position_descriptor_bytecode is Some ==> position_descriptor_links_cleanly(
            position_descriptor_bytecode->0@,
            deployed@[2]@,
        ),
    ensures
        deployed.len() == 0 ==> (step matches UniswapV3Step::Deploy(r) && requests(
            r,
            "UniswapV3Factory"@,
            "UniswapV3Factory"@,
            bytecodes.factory@,
        )),
        deployed.len() == 1 ==> (step matches UniswapV3Step::Deploy(r) && requests(
            r,
            "SwapRouter"@,
            "SwapRouter"@,
            bytecodes.swap_router@ + address_word(deployed@[0]@) + address_word(weth_address@),
        )),
        deployed.len() == 2 ==> (step matches UniswapV3Step::Deploy(r) && requests(
            r,
            "NFTDescriptor"@,
            "NFTDescriptorLibrary"@,
            bytecodes.nft_descriptor@,
        )),
        deployed.len() == 3 ==> match position_descriptor_bytecode {
            None => step is LoadPositionDescriptorBytecode,
            Some(text) => position_descriptor_step(step, text@, weth_address@, deployed@[2]@),
        },
        deployed.len() == 4 ==> (step matches UniswapV3Step::Deploy(r) && requests(
            r,
            "NonfungiblePositionManager"@,
            "Position Manager"@,
            bytecodes.position_manager@ + address_word(deployed@[0]@) + address_word(weth_address@)
                + address_word(deployed@[3]@),
        )),
        step matches UniswapV3Step::Deploy(r) ==> uniswap_v3_plan(
            *bytecodes,
            weth_address@,
            text_of(*position_descriptor_bytecode),
        )(address_seqs(deployed@)) == Some(request_spec(r)),
        deployed.len() == 5 ==> (step matches UniswapV3Step::Done(result) && {
            &&& result.factory_address == deployed@[0]
            &&& result.swap_router_address == deployed@[1]
            &&& result.nft_descriptor_address == deployed@[2]
            &&& result.position_descriptor_address == deployed@[3]
            &&& result.position_manager_address == deployed@[4]
            &&& result.weth_address == weth_address
        }),
{
    let n = deployed.len();
    if n == 0 {
        UniswapV3Step::Deploy(
            deploy_request("UniswapV3Factory", "UniswapV3Factory", concat_bytes(bytecodes.factory.as_slice(), &[])),
        )
    } else if n == 1 {
        let args = abi_encode_address_pair(deployed[0], weth_address);
        let init_code = concat_bytes(bytecodes.swap_router.as_slice(), args.as_slice());
        assert(init_code@ =~= bytecodes.swap_router@ + address_word(deployed@[0]@) + address_word(weth_address@));
        UniswapV3Step::Deploy(deploy_request("SwapRouter", "SwapRouter", init_code))
    } else if n == 2 {
        UniswapV3Step::Deploy(
            deploy_request("NFTDescriptor", "NFTDescriptorLibrary", concat_bytes(bytecodes.nft_descriptor.as_slice(), &[])),
        )
    } else if n == 3 {
        match position_descriptor_bytecode {
            None => UniswapV3Step::LoadPositionDescriptorBytecode,
            Some(text) => position_descriptor_request(text, weth_address, deployed[2]),
        }
    } else if n == 4 {
        let args = abi_encode_address_triple(deployed[0], weth_address, deployed[3]);
        let init_code = concat_bytes(bytecodes.position_manager.as_slice(), args.as_slice());
        assert(init_code@ =~= bytecodes.position_manager@ + address_word(deployed@[0]@) + address_word(weth_address@)
            + address_word(deployed@[3]@));
        UniswapV3Step::Deploy(deploy_request("NonfungiblePositionManager", "Position Manager", init_code))
    } else {
        UniswapV3Step::Done(
            UniswapV3Result {
                factory_address: deployed[0],
                swap_router_address: deployed[1],
                nft_descriptor_address: deployed[2],
                position_descriptor_address: deployed[3],
                position_manager_address: deployed[4],
                weth_address,
            },
        )
    }
}

} // verus!
