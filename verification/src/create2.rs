use vstd::prelude::*;

use crate::keccak::{keccak256, keccak256_digest};

verus! {

/// The bytes that a CREATE2 address is derived from:
/// `0xff ++ factory ++ salt ++ keccak256(init_code)`.
pub open spec fn create2_preimage(factory: Seq<u8>, init_code: Seq<u8>, salt: Seq<u8>) -> Seq<u8> {
    seq![0xffu8] + factory + salt + keccak256_digest(init_code)
}

/// The CREATE2 address of `init_code` deployed by `factory` with `salt`:
/// the last 20 bytes of the Keccak-256 digest of the preimage.
pub open spec fn create2_address(factory: Seq<u8>, init_code: Seq<u8>, salt: Seq<u8>) -> Seq<u8> {
    keccak256_digest(create2_preimage(factory, init_code, salt)).subrange(12, 32)
}


/// The address (last 20 bytes) taken from a 32-byte digest.
fn address_from_digest(digest: &[u8; 32]) -> (address: [u8; 20])
    ensures
        address@ == digest@.subrange(12, 32),
{
    let mut address = [0u8; 20];
    let mut i: usize = 0;
    while i < 20
        invariant
            i <= 20,
            forall|j: int| 0 <= j < i ==> address@[j] == digest@[12 + j],
        decreases 20 - i,
    {
        address[i] = digest[12 + i];
        i = i + 1;
    }
    assert(address@ =~= digest@.subrange(12, 32));
    address
}

/// Computes the address at which the CREATE2 factory `factory` deploys
/// `init_code` with `salt`: `keccak256(0xff ++ factory ++ salt ++ keccak256(init_code))[12..]`.
pub fn compute_create2_address(factory: [u8; 20], init_code: &[u8], salt: [u8; 32]) -> (address: [u8; 20])
    ensures
        address@ == create2_address(factory@, init_code@, salt@),
{
    let code_hash = keccak256(init_code);
    let prefix: [u8; 1] = [0xffu8];
    let preimage = crate::abi::abi_encode_packed_create2(prefix.as_slice(), factory, salt, code_hash);
    assert(prefix@ =~= seq![0xffu8]);
    let digest = keccak256(preimage.as_slice());
    address_from_digest(&digest)
}


/// The address of the deterministic deployment proxy
/// `0x4e59b44847b379578588920cA78FbF26c0B4956C`, to which CREATE2 deployments are sent.
pub open spec fn deterministic_deployer_spec() -> Seq<u8> {
    seq![
        0x4eu8, 0x59u8, 0xb4u8, 0x48u8, 0x47u8, 0xb3u8, 0x79u8, 0x57u8, 0x85u8, 0x88u8,
        0x92u8, 0x0cu8, 0xa7u8, 0x8fu8, 0xbfu8, 0x26u8, 0xc0u8, 0xb4u8, 0x95u8, 0x6cu8,
    ]
}

/// The address of the deterministic deployment proxy.
pub fn deterministic_deployer() -> (address: [u8; 20])
    ensures
        address@ == deterministic_deployer_spec(),
{
    let address: [u8; 20] = [
        0x4e, 0x59, 0xb4, 0x48, 0x47, 0xb3, 0x79, 0x57, 0x85, 0x88,
        0x92, 0x0c, 0xa7, 0x8f, 0xbf, 0x26, 0xc0, 0xb4, 0x95, 0x6c,
    ];
    assert(address@ =~= deterministic_deployer_spec());
    address
}

/// The gas limit of a deployment transaction.
pub const DEPLOY_GAS_LIMIT: u64 = 15_000_000;

/// The input of the deployment transaction: `salt ++ init_code`.
pub fn create2_calldata(salt: [u8; 32], init_code: &[u8]) -> (calldata: Vec<u8>)
    ensures
        calldata@ == salt@ + init_code@,
{
    crate::bytes::concat_bytes(salt.as_slice(), init_code)
}

/// Where a deployment stands.
pub enum Create2Phase {
    /// Waiting to learn whether code is already deployed at the address.
    CheckingExisting,
    /// Waiting for the deployment transaction and its receipt.
    AwaitingReceipt,
    /// Waiting to learn whether code is deployed at the address after the transaction.
    ConfirmingCode,
    /// Done.
    Finished,
}

/// Why a deployment failed.
pub enum Create2Error {
    /// The code at the deployment's address could not be fetched.
    FetchCode,
    /// The deployment transaction could not be sent.
    SendTransaction,
    /// The receipt of the transaction with this hash could not be obtained.
    Receipt { tx_hash: [u8; 32] },
    /// The transaction was mined but failed.
    Reverted,
    /// After a successful transaction there is still no code at the address.
    EmptyCode,
}

/// What the caller is to do next.
pub enum Create2Action {
    /// Fetch the code deployed at `address` and report `CodeFetched`, or
    /// `CodeFetchFailed` when the request fails.
    FetchCode { address: [u8; 20] },
    /// Send a transaction to `to` with this input and gas limit, wait for its
    /// receipt and report `ReceiptReceived`, or `SendFailed` / `ReceiptFailed`.
    SendTransaction { to: [u8; 20], input: Vec<u8>, gas_limit: u64 },
    /// The deployment is over.
    Finish(Result<[u8; 20], Create2Error>),
}

/// What the caller reports back.
pub enum Create2Event {
    /// The code at the address was fetched; `empty` tells whether it is empty.
    CodeFetched { empty: bool },
    /// Fetching the code failed.
    CodeFetchFailed,
    /// Sending the deployment transaction failed.
    SendFailed,
    /// The receipt of the sent transaction with this hash could not be obtained.
    ReceiptFailed { tx_hash: [u8; 32] },
    /// The receipt arrived; `status` tells whether the transaction succeeded.
    ReceiptReceived { status: bool },
}

/// One idempotent CREATE2 deployment through the deterministic deployment proxy.
pub struct Create2Deployment {
    address: [u8; 20],
    calldata: Vec<u8>,
    phase: Create2Phase,
}

/// The state of a deployment: the address it deploys to, the transaction
/// input, and its phase.
pub struct Create2State {
    pub address: Seq<u8>,
    pub calldata: Seq<u8>,
    pub phase: Create2Phase,
}

impl View for Create2Deployment {
    type V = Create2State;

    closed spec fn view(&self) -> Create2State {
        Create2State { address: self.address@, calldata: self.calldata@, phase: self.phase }
    }
}

/// The state in which the deployment of `init_code` with `salt` starts: it
/// deploys to the CREATE2 address of the deterministic deployment proxy, with the
/// input `salt ++ init_code`, and first looks at the code already there.
pub open spec fn create2_start(init_code: Seq<u8>, salt: Seq<u8>) -> Create2State {
    Create2State {
        address: create2_address(deterministic_deployer_spec(), init_code, salt),
        calldata: salt + init_code,
        phase: Create2Phase::CheckingExisting,
    }
}

/// The answer of a chain to a look at the code at `address`, where `code_at` tells
/// at which addresses the chain holds code.
pub open spec fn fetch_answer(code_at: spec_fn(Seq<u8>) -> bool, address: Seq<u8>) -> Create2Event {
    Create2Event::CodeFetched { empty: !code_at(address) }
}

/// Whether `event` answers the action that a deployment in `phase` asked for.
pub open spec fn answers(phase: Create2Phase, event: Create2Event) -> bool {
    match phase {
        Create2Phase::CheckingExisting | Create2Phase::ConfirmingCode => {
            event is CodeFetched || event is CodeFetchFailed
        },
        Create2Phase::AwaitingReceipt => {
            event is SendFailed || event is ReceiptFailed || event is ReceiptReceived
        },
        Create2Phase::Finished => false,
    }
}

/// An action, with its byte vectors and arrays seen as sequences.
pub enum Create2Directive {
    FetchCode(Seq<u8>),
    SendTransaction(Seq<u8>, Seq<u8>, u64),
    Finish(Result<Seq<u8>, Create2Error>),
}

/// The directive that an action stands for.
pub open spec fn directive(action: Create2Action) -> Create2Directive {
    match action {
        Create2Action::FetchCode { address } => Create2Directive::FetchCode(address@),
        Create2Action::SendTransaction { to, input, gas_limit } => Create2Directive::SendTransaction(
            to@,
            input@,
            gas_limit,
        ),
        Create2Action::Finish(Ok(address)) => Create2Directive::Finish(Ok(address@)),
        Create2Action::Finish(Err(e)) => Create2Directive::Finish(Err(e)),
    }
}

/// `state` in another phase.
pub open spec fn in_phase(state: Create2State, phase: Create2Phase) -> Create2State {
    Create2State { phase, ..state }
}

/// The decision of a deployment in `state` on an `event` that answers its last action.
pub open spec fn create2_next(state: Create2State, event: Create2Event) -> (Create2State, Create2Directive) {
    let done = in_phase(state, Create2Phase::Finished);
    match event {
        Create2Event::CodeFetched { empty } => if state.phase == Create2Phase::CheckingExisting {
            if empty {
                (
                    in_phase(state, Create2Phase::AwaitingReceipt),
                    Create2Directive::SendTransaction(
                        deterministic_deployer_spec(),
                        state.calldata,
                        DEPLOY_GAS_LIMIT,
                    ),
                )
            } else {
                (done, Create2Directive::Finish(Ok(state.address)))
            }
        } else if empty {
            (done, Create2Directive::Finish(Err(Create2Error::EmptyCode)))
        } else {
            (done, Create2Directive::Finish(Ok(state.address)))
        },
        Create2Event::CodeFetchFailed => (
            done,
            Create2Directive::Finish(Err(Create2Error::FetchCode)),
        ),
        Create2Event::SendFailed => (done, Create2Directive::Finish(Err(Create2Error::SendTransaction))),
        Create2Event::ReceiptFailed { tx_hash } => (
            done,
            Create2Directive::Finish(Err(Create2Error::Receipt { tx_hash })),
        ),
        Create2Event::ReceiptReceived { status } => if status {
            (in_phase(state, Create2Phase::ConfirmingCode), Create2Directive::FetchCode(state.address))
        } else {
            (done, Create2Directive::Finish(Err(Create2Error::Reverted)))
        },
    }
}

impl Create2Deployment {
    /// Starts the deployment of `init_code` with `salt`: the address is computed
    /// from the deterministic deployment proxy, the salt and the init code, and the
    /// first action asks for the code already deployed there.
    pub fn new(init_code: &[u8], salt: [u8; 32]) -> (started: (Create2Deployment, Create2Action))
        ensures
            started.0@ == create2_start(init_code@, salt@),
            directive(started.1) == Create2Directive::FetchCode(started.0@.address),
    {
        let address = compute_create2_address(deterministic_deployer(), init_code, salt);
        let calldata = create2_calldata(salt, init_code);
        (
            Create2Deployment { address, calldata, phase: Create2Phase::CheckingExisting },
            Create2Action::FetchCode { address },
        )
    }

    /// The address the deployment deploys to.
    pub fn address(&self) -> (address: [u8; 20])
        ensures
            address@ == self@.address,
    {
        self.address
    }

    /// Whether `event` answers the last action.
    pub fn accepts(&self, event: &Create2Event) -> (b: bool)
        ensures
            b == answers(self@.phase, *event),
    {
        match self.phase {
            Create2Phase::CheckingExisting | Create2Phase::ConfirmingCode => {
                match event {
                    Create2Event::CodeFetched { .. } | Create2Event::CodeFetchFailed => true,
                    _ => false,
                }
            },
            Create2Phase::AwaitingReceipt => {
                match event {
                    Create2Event::SendFailed
                    | Create2Event::ReceiptFailed { .. }
                    | Create2Event::ReceiptReceived { .. } => true,
                    _ => false,
                }
            },
            Create2Phase::Finished => false,
        }
    }

    /// Decides the next action from the answer to the last one.
    ///
    /// Code already at the address ends the deployment at once with the address,
    /// and no transaction is sent; empty code there leads to the deployment
    /// transaction (to the proxy, input `salt ++ init_code`, gas limit
    /// 15,000,000); a failed transaction ends it with `Reverted`; a successful one
    /// leads to a second look at the code, which must not be empty. Every
    /// request that fails ends it with the matching error.
    pub fn step(&mut self, event: Create2Event) -> (action: Create2Action)
        requires
            answers(old(self)@.phase, event),
        ensures
            (final(self)@, directive(action)) == create2_next(old(self)@, event),
    {
        match event {
            Create2Event::CodeFetched { empty } => {
                let checking_existing = match self.phase {
                    Create2Phase::CheckingExisting => true,
                    _ => false,
                };
                if checking_existing {
                    if empty {
                        self.phase = Create2Phase::AwaitingReceipt;
                        let input = crate::bytes::concat_bytes(self.calldata.as_slice(), &[]);
                        assert(input@ =~= self.calldata@);
                        Create2Action::SendTransaction {
                            to: deterministic_deployer(),
                            input,
                            gas_limit: DEPLOY_GAS_LIMIT,
                        }
                    } else {
                        self.phase = Create2Phase::Finished;
                        Create2Action::Finish(Ok(self.address))
                    }
                } else {
                    self.phase = Create2Phase::Finished;
                    if empty {
                        Create2Action::Finish(Err(Create2Error::EmptyCode))
                    } else {
                        Create2Action::Finish(Ok(self.address))
                    }
                }
            },
            Create2Event::CodeFetchFailed => {
                self.phase = Create2Phase::Finished;
                Create2Action::Finish(Err(Create2Error::FetchCode))
            },
            Create2Event::SendFailed => {
                self.phase = Create2Phase::Finished;
                Create2Action::Finish(Err(Create2Error::SendTransaction))
            },
            Create2Event::ReceiptFailed { tx_hash } => {
                self.phase = Create2Phase::Finished;
                Create2Action::Finish(Err(Create2Error::Receipt { tx_hash }))
            },
            Create2Event::ReceiptReceived { status } => {
                if status {
                    self.phase = Create2Phase::ConfirmingCode;
                    Create2Action::FetchCode { address: self.address }
                } else {
                    self.phase = Create2Phase::Finished;
                    Create2Action::Finish(Err(Create2Error::Reverted))
                }
            },
        }
    }
}

/// The directives of a deployment that starts in `state` and is answered with
/// `events` in order, up to the first event that does not answer the last action.
pub open spec fn create2_run(state: Create2State, events: Seq<Create2Event>) -> Seq<Create2Directive>
    decreases events.len(),
{
    if events.len() == 0 || !answers(state.phase, events[0]) {
        seq![]
    } else {
        let (next, d) = create2_next(state, events[0]);
        seq![d] + create2_run(next, events.drop_first())
    }
}

/// How many deployment transactions the directives send.
pub open spec fn transactions_sent(directives: Seq<Create2Directive>) -> nat
    decreases directives.len(),
{
    if directives.len() == 0 {
        0
    } else {
        (if directives[0] is SendTransaction {
            1nat
        } else {
            0nat
        }) + transactions_sent(directives.drop_first())
    }
}

/// Whatever the chain answers, a deployment sends at most one transaction, and
/// none once it has passed the first look at the code; every transaction goes to
/// the deterministic deployment proxy with input `salt ++ init_code` and the gas
/// limit 15,000,000; and a deployment reports success only right after it has seen
/// code at the address, and then reports the address it computed.
pub proof fn lemma_create2_run(state: Create2State, events: Seq<Create2Event>)
    ensures
        create2_run(state, events).len() <= events.len(),
        transactions_sent(create2_run(state, events)) <= if state.phase == Create2Phase::CheckingExisting {
            1nat
        } else {
            0nat
        },
        forall|i: int|
            0 <= i < create2_run(state, events).len() ==> match #[trigger] create2_run(state, events)[i] {
                Create2Directive::SendTransaction(to, input, gas_limit) => {
                    &&& to == deterministic_deployer_spec()
                    &&& input == state.calldata
                    &&& gas_limit == DEPLOY_GAS_LIMIT
                },
                Create2Directive::Finish(Ok(address)) => {
                    &&& address == state.address
                    &&& events[i] == Create2Event::CodeFetched { empty: false }
                },
                _ => true,
            },
    decreases events.len(),
{
    if events.len() == 0 || !answers(state.phase, events[0]) {
    } else {
        let (next, d) = create2_next(state, events[0]);
        let rest = events.drop_first();
        lemma_create2_run(next, rest);
        let run = create2_run(state, events);
        assert(run =~= seq![d] + create2_run(next, rest));
        assert((seq![d] + create2_run(next, rest)).drop_first() =~= create2_run(next, rest));
        assert forall|i: int| 0 < i < run.len() implies #[trigger] run[i] == create2_run(next, rest)[i - 1]
            && events[i] == rest[i - 1] by {}
    }
}

/// A deployment that finds code already at its address reports that address at
/// once and sends no transaction, whatever else would be reported afterwards.
pub proof fn lemma_existing_code_is_reused(state: Create2State, events: Seq<Create2Event>)
    requires
        state.phase == Create2Phase::CheckingExisting,
        events.len() > 0,
        events[0] == (Create2Event::CodeFetched { empty: false }),
    ensures
        create2_run(state, events) == seq![Create2Directive::Finish(Ok(state.address))],
{
    let (next, d) = create2_next(state, events[0]);
    assert(next.phase == Create2Phase::Finished);
    assert(create2_run(next, events.drop_first()) =~= Seq::<Create2Directive>::empty());
    assert(create2_run(state, events) =~= seq![d]);
}

/// A deployment of `init_code` with `salt` that reported success at `address` (the
/// `i`-th directive of its run, on the answer `first[i]`), started again with the
/// same init code and salt on a chain that has not changed since that last look at
/// the code (`code_at` answers both), reports the same address at once and sends
/// no transaction.
pub proof fn lemma_create2_rerun_on_unchanged_chain(
    init_code: Seq<u8>,
    salt: Seq<u8>,
    address: Seq<u8>,
    first: Seq<Create2Event>,
    i: int,
    code_at: spec_fn(Seq<u8>) -> bool,
    second: Seq<Create2Event>,
)
    requires
        0 <= i < create2_run(create2_start(init_code, salt), first).len(),
        create2_run(create2_start(init_code, salt), first)[i] == Create2Directive::Finish(Ok(address)),
        first[i] == fetch_answer(code_at, create2_start(init_code, salt).address),
        second.len() > 0,
        second[0] == fetch_answer(code_at, create2_start(init_code, salt).address),
    ensures
        create2_run(create2_start(init_code, salt), second) == seq![Create2Directive::Finish(Ok(address))],
        transactions_sent(create2_run(create2_start(init_code, salt), second)) == 0,
{
    let start = create2_start(init_code, salt);
    lemma_create2_run(start, first);
    assert(create2_run(start, first)[i] == Create2Directive::Finish(Ok(address)));
    lemma_existing_code_is_reused(start, second);
    let run = create2_run(start, second);
    assert(run.drop_first() =~= Seq::<Create2Directive>::empty());
    assert(transactions_sent(run.drop_first()) == 0);
}

/// The CREATE2 preimage holds `0xff` at byte 0, the factory at bytes 1..21, the
/// salt at bytes 21..53 and the Keccak-256 digest of the init code after them;
/// the address is the last 20 bytes of the digest of
/// `0xff ++ factory ++ salt ++ keccak256(init_code)`.
pub proof fn lemma_create2_preimage_layout(factory: Seq<u8>, init_code: Seq<u8>, salt: Seq<u8>)
    requires
        factory.len() == 20,
        salt.len() == 32,
    ensures
        create2_preimage(factory, init_code, salt)[0] == 0xffu8,
        create2_preimage(factory, init_code, salt).subrange(1, 21) == factory,
        create2_preimage(factory, init_code, salt).subrange(21, 53) == salt,
        create2_preimage(factory, init_code, salt).subrange(
            53,
            create2_preimage(factory, init_code, salt).len() as int,
        ) == keccak256_digest(init_code),
        create2_address(factory, init_code, salt) == keccak256_digest(
            seq![0xffu8] + factory + salt + keccak256_digest(init_code),
        ).subrange(12, 32),
{
    let p = create2_preimage(factory, init_code, salt);
    assert(p.subrange(1, 21) =~= factory);
    assert(p.subrange(21, 53) =~= salt);
    assert(p.subrange(53, p.len() as int) =~= keccak256_digest(init_code));
}

/// Two different salts (with the same factory and init code) give different
/// CREATE2 preimages, and so do two different factories.
pub proof fn lemma_create2_preimage_tells_salt_and_factory(
    factory: Seq<u8>,
    other_factory: Seq<u8>,
    init_code: Seq<u8>,
    salt: Seq<u8>,
    other_salt: Seq<u8>,
)
    requires
        factory.len() == 20,
        other_factory.len() == 20,
        salt.len() == 32,
        other_salt.len() == 32,
        factory != other_factory || salt != other_salt,
    ensures
        create2_preimage(factory, init_code, salt) != create2_preimage(other_factory, init_code, other_salt),
{
    lemma_create2_preimage_layout(factory, init_code, salt);
    lemma_create2_preimage_layout(other_factory, init_code, other_salt);
}

/// A deployment of `init_code` with `salt` starts by looking at the code, sends
/// `salt ++ init_code` as its input, and deploys to the CREATE2 address of the
/// deterministic deployment proxy for that init code and the salt that starts the
/// input: `keccak256(0xff ++ proxy ++ salt ++ keccak256(init_code))[12..32]`.
pub proof fn lemma_create2_start_ties_address_to_input(init_code: Seq<u8>, salt: Seq<u8>)
    requires
        salt.len() == 32,
    ensures
        create2_start(init_code, salt).phase == Create2Phase::CheckingExisting,
        create2_start(init_code, salt).calldata.len() == 32 + init_code.len(),
        create2_start(init_code, salt).calldata.subrange(0, 32) == salt,
        create2_start(init_code, salt).calldata.subrange(
            32,
            create2_start(init_code, salt).calldata.len() as int,
        ) == init_code,
        create2_start(init_code, salt).address == create2_address(
            deterministic_deployer_spec(),
            init_code,
            create2_start(init_code, salt).calldata.subrange(0, 32),
        ),
        create2_start(init_code, salt).address == keccak256_digest(
            seq![0xffu8] + deterministic_deployer_spec() + salt + keccak256_digest(init_code),
        ).subrange(12, 32),
{
    let st = create2_start(init_code, salt);
    assert(st.calldata.subrange(0, 32) =~= salt);
    assert(st.calldata.subrange(32, st.calldata.len() as int) =~= init_code);
    lemma_create2_preimage_layout(deterministic_deployer_spec(), init_code, salt);
}

} // verus!
