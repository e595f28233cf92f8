use contract_deployer::create2::{
    compute_create2_address, create2_calldata, deterministic_deployer, Create2Action, Create2Deployment,
    Create2Error, Create2Event, DEPLOY_GAS_LIMIT,
};

fn bytes(hex: &str) -> Vec<u8> {
    (0..hex.len() / 2).map(|i| u8::from_str_radix(&hex[2 * i..2 * i + 2], 16).unwrap()).collect()
}

fn address(hex: &str) -> [u8; 20] {
    bytes(hex).try_into().unwrap()
}

#[test]
fn create2_address_of_zero_factory_and_salt() {
    let got = compute_create2_address([0u8; 20], &[0x00], [0u8; 32]);
    assert_eq!(got, address("4d1a2e2bb4f88f0250f26ffff098b0b30b26bf38"));
}

#[test]
fn create2_address_of_other_factory() {
    let got = compute_create2_address(address("deadbeef00000000000000000000000000000000"), &[0x00], [0u8; 32]);
    assert_eq!(got, address("b928f69bb1d91cd65274e3c79d8986362984fda3"));
}

#[test]
fn create2_address_through_the_proxy() {
    let got = compute_create2_address(deterministic_deployer(), &[0x60, 0x80], [0u8; 32]);
    assert_eq!(got, address("716d32a5431e16117f60b623aa94dd0b65812382"));
}

#[test]
fn deterministic_deployer_is_the_proxy() {
    assert_eq!(deterministic_deployer(), address("4e59b44847b379578588920ca78fbf26c0b4956c"));
}

#[test]
fn calldata_is_salt_then_init_code() {
    let mut salt = [0u8; 32];
    salt[0] = 1;
    salt[31] = 2;
    let calldata = create2_calldata(salt, &[0xaa, 0xbb]);
    let mut expected = salt.to_vec();
    expected.extend_from_slice(&[0xaa, 0xbb]);
    assert_eq!(calldata, expected);
    assert_eq!(create2_calldata(salt, &[]), salt.to_vec());
}

fn start() -> (Create2Deployment, Create2Action) {
    Create2Deployment::new(&[0x60, 0x80], [0u8; 32])
}

fn expected_address() -> [u8; 20] {
    address("716d32a5431e16117f60b623aa94dd0b65812382")
}

#[test]
fn deployment_first_looks_at_the_address() {
    let (deployment, action) = start();
    assert_eq!(deployment.address(), expected_address());
    match action {
        Create2Action::FetchCode { address } => assert_eq!(address, expected_address()),
        _ => panic!("expected a code fetch"),
    }
}

#[test]
fn existing_code_is_reused_without_a_transaction() {
    let (mut deployment, _) = start();
    match deployment.step(Create2Event::CodeFetched { empty: false }) {
        Create2Action::Finish(Ok(address)) => assert_eq!(address, expected_address()),
        _ => panic!("expected success"),
    }
    assert!(!deployment.accepts(&Create2Event::CodeFetched { empty: true }));
    assert!(!deployment.accepts(&Create2Event::ReceiptReceived { status: true }));
}

#[test]
fn fresh_deployment_sends_one_transaction_and_confirms() {
    let (mut deployment, _) = start();
    match deployment.step(Create2Event::CodeFetched { empty: true }) {
        Create2Action::SendTransaction { to, input, gas_limit } => {
            assert_eq!(to, deterministic_deployer());
            let mut expected = vec![0u8; 32];
            expected.extend_from_slice(&[0x60, 0x80]);
            assert_eq!(input, expected);
            assert_eq!(gas_limit, 15_000_000);
            assert_eq!(gas_limit, DEPLOY_GAS_LIMIT);
        },
        _ => panic!("expected a transaction"),
    }
    assert!(deployment.accepts(&Create2Event::ReceiptReceived { status: true }));
    assert!(!deployment.accepts(&Create2Event::CodeFetched { empty: false }));
    match deployment.step(Create2Event::ReceiptReceived { status: true }) {
        Create2Action::FetchCode { address } => assert_eq!(address, expected_address()),
        _ => panic!("expected a second code fetch"),
    }
    match deployment.step(Create2Event::CodeFetched { empty: false }) {
        Create2Action::Finish(Ok(address)) => assert_eq!(address, expected_address()),
        _ => panic!("expected success"),
    }
}

#[test]
fn failed_transaction_is_reported() {
    let (mut deployment, _) = start();
    deployment.step(Create2Event::CodeFetched { empty: true });
    assert!(matches!(
        deployment.step(Create2Event::ReceiptReceived { status: false }),
        Create2Action::Finish(Err(Create2Error::Reverted))
    ));
}

#[test]
fn empty_code_after_the_transaction_is_an_error() {
    let (mut deployment, _) = start();
    deployment.step(Create2Event::CodeFetched { empty: true });
    deployment.step(Create2Event::ReceiptReceived { status: true });
    assert!(matches!(
        deployment.step(Create2Event::CodeFetched { empty: true }),
        Create2Action::Finish(Err(Create2Error::EmptyCode))
    ));
}

#[test]
fn request_failures_are_reported() {
    let (mut first, _) = start();
    assert!(matches!(
        first.step(Create2Event::CodeFetchFailed),
        Create2Action::Finish(Err(Create2Error::FetchCode))
    ));

    let (mut second, _) = start();
    second.step(Create2Event::CodeFetched { empty: true });
    assert!(matches!(
        second.step(Create2Event::SendFailed),
        Create2Action::Finish(Err(Create2Error::SendTransaction))
    ));

    let (mut third, _) = start();
    third.step(Create2Event::CodeFetched { empty: true });
    match third.step(Create2Event::ReceiptFailed { tx_hash: [7u8; 32] }) {
        Create2Action::Finish(Err(Create2Error::Receipt { tx_hash })) => assert_eq!(tx_hash, [7u8; 32]),
        _ => panic!("expected a receipt error"),
    }

    let (mut fourth, _) = start();
    fourth.step(Create2Event::CodeFetched { empty: true });
    fourth.step(Create2Event::ReceiptReceived { status: true });
    assert!(matches!(
        fourth.step(Create2Event::CodeFetchFailed),
        Create2Action::Finish(Err(Create2Error::FetchCode))
    ));
}

/// Runs a deployment of `init_code` with `salt` against a chain holding code at
/// the addresses in `chain`; a sent transaction deploys the code. Returns the
/// outcome and the number of transactions sent.
fn run_on_chain(
    chain: &mut Vec<[u8; 20]>,
    init_code: &[u8],
    salt: [u8; 32],
) -> (Result<[u8; 20], Create2Error>, usize) {
    let (mut deployment, mut action) = Create2Deployment::new(init_code, salt);
    let mut sent = 0;
    loop {
        let event = match action {
            Create2Action::FetchCode { address } => Create2Event::CodeFetched { empty: !chain.contains(&address) },
            Create2Action::SendTransaction { .. } => {
                sent += 1;
                chain.push(deployment.address());
                Create2Event::ReceiptReceived { status: true }
            },
            Create2Action::Finish(outcome) => return (outcome, sent),
        };
        assert!(deployment.accepts(&event));
        action = deployment.step(event);
    }
}

#[test]
fn rerun_on_an_unchanged_chain_sends_nothing() {
    let mut chain: Vec<[u8; 20]> = Vec::new();
    let (first, first_sent) = run_on_chain(&mut chain, &[0x60, 0x80], [0u8; 32]);
    assert!(matches!(first, Ok(a) if a == expected_address()));
    assert_eq!(first_sent, 1);
    let (second, second_sent) = run_on_chain(&mut chain, &[0x60, 0x80], [0u8; 32]);
    assert!(matches!(second, Ok(a) if a == expected_address()));
    assert_eq!(second_sent, 0);
    assert_eq!(chain, vec![expected_address()]);
}
