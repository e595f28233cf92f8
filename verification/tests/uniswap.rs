use contract_deployer::helpers::{get_salt, LinkFailure};
use contract_deployer::hex::HexFailure;
use contract_deployer::create2::{Create2Action, Create2Deployment, Create2Event};
use contract_deployer::plan::DeployRequest;
use contract_deployer::uniswap_v2::{deploy_uniswap_v2_next, UniswapV2Bytecodes, UniswapV2Step};
use contract_deployer::uniswap_v3::{
    deploy_uniswap_v3_next, position_descriptor_link_failure, UniswapV3Bytecodes, UniswapV3Step,
};
use contract_deployer::uniswap_v4::{deploy_uniswap_v4_next, UniswapV4Bytecodes, UniswapV4Step};

fn word_of_address(address: [u8; 20]) -> Vec<u8> {
    let mut word = vec![0u8; 12];
    word.extend_from_slice(&address);
    word
}

fn word_of(value: u64) -> Vec<u8> {
    let mut word = vec![0u8; 24];
    word.extend_from_slice(&value.to_be_bytes());
    word
}

fn eth_tail() -> Vec<u8> {
    let mut tail = word_of(3);
    tail.extend_from_slice(b"ETH");
    tail.extend_from_slice(&[0u8; 29]);
    tail
}

fn join(parts: &[&[u8]]) -> Vec<u8> {
    parts.iter().flat_map(|p| p.iter().copied()).collect()
}

fn check(request: &DeployRequest, name: &str, label: &str, init_code: &[u8]) {
    assert_eq!(request.contract_name, name);
    assert_eq!(request.label, label);
    assert_eq!(request.salt, get_salt(name));
    assert_eq!(request.init_code, init_code.to_vec());
}

fn v2_request(step: UniswapV2Step) -> DeployRequest {
    match step {
        UniswapV2Step::Deploy(request) => request,
        UniswapV2Step::Done(_) => panic!("expected a deployment"),
    }
}

#[test]
fn uniswap_v2_deploys_in_order() {
    let codes = UniswapV2Bytecodes { weth9: vec![1, 1], factory: vec![2, 2], router: vec![3, 3] };
    let deployer = [0xd0u8; 20];
    let weth = [0x11u8; 20];
    let factory = [0x22u8; 20];
    let router = [0x33u8; 20];

    check(&v2_request(deploy_uniswap_v2_next(&codes, deployer, &vec![])), "WETH9", "WETH9", &[1, 1]);
    check(
        &v2_request(deploy_uniswap_v2_next(&codes, deployer, &vec![weth])),
        "UniswapV2Factory",
        "UniswapV2Factory",
        &join(&[&[2, 2], &word_of_address(deployer)]),
    );
    check(
        &v2_request(deploy_uniswap_v2_next(&codes, deployer, &vec![weth, factory])),
        "UniswapV2RouterV2",
        "UniswapV2RouterV2",
        &join(&[&[3, 3], &word_of_address(factory), &word_of_address(weth)]),
    );
    match deploy_uniswap_v2_next(&codes, deployer, &vec![weth, factory, router]) {
        UniswapV2Step::Done(result) => {
            assert_eq!(result.weth_address, weth);
            assert_eq!(result.factory_address, factory);
            assert_eq!(result.router_address, router);
        },
        UniswapV2Step::Deploy(_) => panic!("expected the result"),
    }
}

fn v4_request(step: UniswapV4Step) -> DeployRequest {
    match step {
        UniswapV4Step::Deploy(request) => request,
        UniswapV4Step::Done(_) => panic!("expected a deployment"),
    }
}

#[test]
fn uniswap_v4_deploys_in_order() {
    let codes = UniswapV4Bytecodes {
        permit2: vec![1],
        pool_manager: vec![2],
        position_descriptor: vec![3],
        position_manager: vec![4],
        quoter: vec![5],
        state_view: vec![6],
    };
    let deployer = [0xd0u8; 20];
    let weth = [0xeeu8; 20];
    let a: Vec<[u8; 20]> = (1..=6u8).map(|i| [i * 0x11; 20]).collect();

    check(&v4_request(deploy_uniswap_v4_next(&codes, deployer, weth, &vec![])), "Permit2", "Permit2", &[1]);
    check(
        &v4_request(deploy_uniswap_v4_next(&codes, deployer, weth, &a[..1].to_vec())),
        "PoolManager",
        "PoolManager",
        &join(&[&[2], &word_of_address(deployer)]),
    );
    check(
        &v4_request(deploy_uniswap_v4_next(&codes, deployer, weth, &a[..2].to_vec())),
        "PositionDescriptor",
        "PositionDescriptor",
        &join(&[&[3], &word_of(32), &word_of_address(a[1]), &word_of_address(weth), &word_of(96), &eth_tail()]),
    );
    check(
        &v4_request(deploy_uniswap_v4_next(&codes, deployer, weth, &a[..3].to_vec())),
        "PositionManager",
        "PositionManager",
        &join(&[
            &[4],
            &word_of_address(a[1]),
            &word_of_address(a[0]),
            &word_of(100_000),
            &word_of_address(a[2]),
            &word_of_address(weth),
        ]),
    );
    check(
        &v4_request(deploy_uniswap_v4_next(&codes, deployer, weth, &a[..4].to_vec())),
        "Quoter",
        "Quoter",
        &join(&[&[5], &word_of_address(a[1])]),
    );
    check(
        &v4_request(deploy_uniswap_v4_next(&codes, deployer, weth, &a[..5].to_vec())),
        "StateView",
        "StateView",
        &join(&[&[6], &word_of_address(a[1])]),
    );
    match deploy_uniswap_v4_next(&codes, deployer, weth, &a) {
        UniswapV4Step::Done(result) => {
            assert_eq!(result.permit2_address, a[0]);
            assert_eq!(result.pool_manager_address, a[1]);
            assert_eq!(result.position_descriptor_address, a[2]);
            assert_eq!(result.position_manager_address, a[3]);
            assert_eq!(result.quoter_address, a[4]);
            assert_eq!(result.state_view_address, a[5]);
        },
        UniswapV4Step::Deploy(_) => panic!("expected the result"),
    }
}

fn v3_request(step: UniswapV3Step) -> DeployRequest {
    match step {
        UniswapV3Step::Deploy(request) => request,
        _ => panic!("expected a deployment"),
    }
}

fn v3_codes() -> UniswapV3Bytecodes {
    UniswapV3Bytecodes { factory: vec![1], swap_router: vec![2], nft_descriptor: vec![3], position_manager: vec![4] }
}

fn descriptor_text() -> String {
    format!("0x{}{}{}", "60".repeat(1681), "_".repeat(40), "00ff")
}

#[test]
fn uniswap_v3_deploys_in_order() {
    let codes = v3_codes();
    let weth = [0xeeu8; 20];
    let a: Vec<[u8; 20]> = (1..=5u8).map(|i| [i * 0x11; 20]).collect();
    let text = Some(descriptor_text());

    check(&v3_request(deploy_uniswap_v3_next(&codes, weth, &vec![], &None)), "UniswapV3Factory", "UniswapV3Factory", &[1]);
    check(
        &v3_request(deploy_uniswap_v3_next(&codes, weth, &a[..1].to_vec(), &None)),
        "SwapRouter",
        "SwapRouter",
        &join(&[&[2], &word_of_address(a[0]), &word_of_address(weth)]),
    );
    check(
        &v3_request(deploy_uniswap_v3_next(&codes, weth, &a[..2].to_vec(), &None)),
        "NFTDescriptor",
        "NFTDescriptorLibrary",
        &[3],
    );
    assert!(matches!(
        deploy_uniswap_v3_next(&codes, weth, &a[..3].to_vec(), &None),
        UniswapV3Step::LoadPositionDescriptorBytecode
    ));
    let mut linked = vec![0x60u8; 1681];
    linked.extend_from_slice(&a[2]);
    linked.extend_from_slice(&[0x00, 0xff]);
    check(
        &v3_request(deploy_uniswap_v3_next(&codes, weth, &a[..3].to_vec(), &text)),
        "NonfungibleTokenPositionDescriptor",
        "Position Descriptor",
        &join(&[&linked, &word_of(32), &word_of_address(weth), &word_of_address(a[2]), &word_of(96), &eth_tail()]),
    );
    check(
        &v3_request(deploy_uniswap_v3_next(&codes, weth, &a[..4].to_vec(), &None)),
        "NonfungiblePositionManager",
        "Position Manager",
        &join(&[&[4], &word_of_address(a[0]), &word_of_address(weth), &word_of_address(a[3])]),
    );
    match deploy_uniswap_v3_next(&codes, weth, &a, &None) {
        UniswapV3Step::Done(result) => {
            assert_eq!(result.factory_address, a[0]);
            assert_eq!(result.swap_router_address, a[1]);
            assert_eq!(result.nft_descriptor_address, a[2]);
            assert_eq!(result.position_descriptor_address, a[3]);
            assert_eq!(result.position_manager_address, a[4]);
            assert_eq!(result.weth_address, weth);
        },
        _ => panic!("expected the result"),
    }
}

#[test]
fn uniswap_v3_descriptor_without_prefix() {
    let codes = v3_codes();
    let a: Vec<[u8; 20]> = (1..=3u8).map(|i| [i; 20]).collect();
    let text = Some(format!("{}{}", "60".repeat(1681), "_".repeat(40)));
    let request = v3_request(deploy_uniswap_v3_next(&codes, [0u8; 20], &a, &text));
    let mut linked = vec![0x60u8; 1681];
    linked.extend_from_slice(&a[2]);
    assert_eq!(request.init_code[..1701].to_vec(), linked);
    assert_eq!(request.init_code.len(), 1701 + 192);
}

#[test]
fn uniswap_v3_descriptor_too_short() {
    match position_descriptor_link_failure(&"0x6080".to_string(), [3u8; 20]) {
        Some(LinkFailure::OutOfRange(file, contract)) => {
            assert_eq!(file, "NFTDescriptor.sol");
            assert_eq!(contract, "NFTDescriptor");
        },
        _ => panic!("expected a link failure"),
    }
    let just_long_enough = format!("0x{}{}", "60".repeat(1681), "_".repeat(40));
    assert!(position_descriptor_link_failure(&just_long_enough, [3u8; 20]).is_none());
    let one_short = format!("0x{}{}", "60".repeat(1681), "_".repeat(39));
    assert!(position_descriptor_link_failure(&one_short, [3u8; 20]).is_some());
}

#[test]
fn uniswap_v3_descriptor_not_hex() {
    let codes = v3_codes();
    let a: Vec<[u8; 20]> = (1..=3u8).map(|i| [i; 20]).collect();
    let odd = Some(format!("0x{}{}0", "60".repeat(1681), "_".repeat(40)));
    assert!(matches!(
        deploy_uniswap_v3_next(&codes, [0u8; 20], &a, &odd),
        UniswapV3Step::DecodeFailed(HexFailure::OddLength)
    ));
    let bad = Some(format!("0x{}{}zz", "60".repeat(1681), "_".repeat(40)));
    assert!(matches!(
        deploy_uniswap_v3_next(&codes, [0u8; 20], &a, &bad),
        UniswapV3Step::DecodeFailed(HexFailure::InvalidCharacter { c: 'z', index: 3402 })
    ));
    let early = Some(format!("0x{}g{}{}", "60".repeat(3), "6".repeat(2 * 1681 - 7), "_".repeat(40)));
    assert!(matches!(
        deploy_uniswap_v3_next(&codes, [0u8; 20], &a, &early),
        UniswapV3Step::DecodeFailed(HexFailure::InvalidCharacter { c: 'g', index: 6 })
    ));
}

#[test]
fn uniswap_v2_weth_request_ignores_the_deployer() {
    let codes = UniswapV2Bytecodes { weth9: vec![9, 9], factory: vec![2], router: vec![3] };
    let first = v2_request(deploy_uniswap_v2_next(&codes, [1u8; 20], &vec![]));
    let second = v2_request(deploy_uniswap_v2_next(&codes, [2u8; 20], &vec![]));
    assert_eq!(first.salt, second.salt);
    assert_eq!(first.init_code, second.init_code);
    let first_factory = v2_request(deploy_uniswap_v2_next(&codes, [1u8; 20], &vec![[7u8; 20]]));
    let second_factory = v2_request(deploy_uniswap_v2_next(&codes, [2u8; 20], &vec![[7u8; 20]]));
    assert_ne!(first_factory.init_code, second_factory.init_code);
}

#[test]
fn uniswap_v4_requests_repeat() {
    let codes = UniswapV4Bytecodes {
        permit2: vec![1],
        pool_manager: vec![2],
        position_descriptor: vec![3],
        position_manager: vec![4],
        quoter: vec![5],
        state_view: vec![6],
    };
    let deployed: Vec<[u8; 20]> = (1..=3u8).map(|i| [i; 20]).collect();
    let first = v4_request(deploy_uniswap_v4_next(&codes, [0xd0; 20], [0xee; 20], &deployed));
    let second = v4_request(deploy_uniswap_v4_next(&codes, [0xd0; 20], [0xee; 20], &deployed));
    assert_eq!(first.init_code, second.init_code);
    assert_eq!(first.salt, second.salt);
}

/// Deploys the requested contract against a chain holding code at the addresses
/// in `chain`; counts the transactions sent in `sent`.
fn deploy_on_chain(chain: &mut Vec<[u8; 20]>, request: &DeployRequest, sent: &mut usize) -> [u8; 20] {
    let (mut deployment, mut action) = Create2Deployment::new(&request.init_code, request.salt);
    loop {
        let event = match action {
            Create2Action::FetchCode { address } => Create2Event::CodeFetched { empty: !chain.contains(&address) },
            Create2Action::SendTransaction { .. } => {
                *sent += 1;
                chain.push(deployment.address());
                Create2Event::ReceiptReceived { status: true }
            },
            Create2Action::Finish(Ok(address)) => return address,
            Create2Action::Finish(Err(_)) => panic!("expected success"),
        };
        action = deployment.step(event);
    }
}

fn uniswap_v2_on_chain(chain: &mut Vec<[u8; 20]>, codes: &UniswapV2Bytecodes, sent: &mut usize) -> [[u8; 20]; 3] {
    let mut deployed: Vec<[u8; 20]> = Vec::new();
    loop {
        match deploy_uniswap_v2_next(codes, [0x42u8; 20], &deployed) {
            UniswapV2Step::Deploy(request) => deployed.push(deploy_on_chain(chain, &request, sent)),
            UniswapV2Step::Done(result) => {
                return [result.weth_address, result.factory_address, result.router_address]
            },
        }
    }
}

#[test]
fn uniswap_v2_rerun_on_an_unchanged_chain_sends_nothing() {
    let codes = UniswapV2Bytecodes { weth9: vec![0x60, 1], factory: vec![0x60, 2], router: vec![0x60, 3] };
    let mut chain: Vec<[u8; 20]> = Vec::new();
    let mut first_sent = 0;
    let first = uniswap_v2_on_chain(&mut chain, &codes, &mut first_sent);
    assert_eq!(first_sent, 3);
    let mut second_sent = 0;
    let second = uniswap_v2_on_chain(&mut chain, &codes, &mut second_sent);
    assert_eq!(second_sent, 0);
    assert_eq!(first, second);
    assert_eq!(chain.len(), 3);
}
