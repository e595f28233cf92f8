use vstd::prelude::*;
use vstd::utf8::*;

use crate::hex::{hex_decode_spec, hex_encode_bytes, hex_encode_to_vec, lemma_hex_roundtrip};
use crate::keccak::{keccak256, keccak256_digest};

verus! {

/// The places in the bytecode where one library's address is to be written:
/// each reference is a `(byte_start, byte_length)` pair counted in bytes of
/// the deployed code, i.e. in pairs of hexadecimal digits of the bytecode text.
pub struct ContractLinks {
    pub contract_name: String,
    pub references: Vec<(usize, usize)>,
}

/// The link references of one source file, contract by contract.
pub struct FileLinks {
    pub file_name: String,
    pub contracts: Vec<ContractLinks>,
}

/// A deployed library: its name and its address.
pub struct LinkedLibrary {
    pub name: String,
    pub address: [u8; 20],
}

/// A contract's link references, as values.
pub struct ContractLinksView {
    pub contract_name: Seq<char>,
    pub references: Seq<(usize, usize)>,
}

/// A file's link references, as values.
pub struct FileLinksView {
    pub file_name: Seq<char>,
    pub contracts: Seq<ContractLinksView>,
}

impl View for ContractLinks {
    type V = ContractLinksView;

    open spec fn view(&self) -> ContractLinksView {
        ContractLinksView { contract_name: self.contract_name@, references: self.references@ }
    }
}

impl View for FileLinks {
    type V = FileLinksView;

    open spec fn view(&self) -> FileLinksView {
        FileLinksView {
            file_name: self.file_name@,
            contracts: self.contracts@.map_values(|c: ContractLinks| c@),
        }
    }
}

impl View for LinkedLibrary {
    type V = (Seq<char>, Seq<u8>);

    open spec fn view(&self) -> (Seq<char>, Seq<u8>) {
        (self.name@, self.address@)
    }
}

/// The files' link references, as values.
pub open spec fn files_view(files: Seq<FileLinks>) -> Seq<FileLinksView> {
    files.map_values(|f: FileLinks| f@)
}

/// The libraries, as `(name, address)` pairs.
pub open spec fn libraries_view(libs: Seq<LinkedLibrary>) -> Seq<(Seq<char>, Seq<u8>)> {
    libs.map_values(|l: LinkedLibrary| l@)
}

/// What linking a bytecode text yields.
pub enum LinkOutcome {
    /// The linked bytecode text, as bytes.
    Linked(Seq<u8>),
    /// No library of this name was given.
    MissingLibrary(Seq<char>),
    /// A reference of this file and contract reaches past the end of the bytecode.
    OutOfRange(Seq<char>, Seq<char>),
    /// An offset overflows or a replacement would split a character: the text
    /// cannot be edited there.
    Panics,
}

/// Why linking stopped.
pub enum LinkFailure {
    MissingLibrary(String),
    OutOfRange(String, String),
    Panics,
}

/// The outcome that an executable linking result stands for.
pub open spec fn outcome_of(r: Result<Vec<u8>, LinkFailure>) -> LinkOutcome {
    match r {
        Ok(code) => LinkOutcome::Linked(code@),
        Err(LinkFailure::MissingLibrary(name)) => LinkOutcome::MissingLibrary(name@),
        Err(LinkFailure::OutOfRange(file, contract)) => LinkOutcome::OutOfRange(file@, contract@),
        Err(LinkFailure::Panics) => LinkOutcome::Panics,
    }
}

/// `index` is a character boundary of the UTF-8 text `code`, as
/// `str::is_char_boundary` decides it.
pub open spec fn on_char_boundary(code: Seq<u8>, index: int) -> bool {
    ||| index == 0
    ||| index == code.len()
    ||| (0 <= index < code.len() && !is_continuation_byte(code[index]))
}

/// The address of the first library named `name`.
pub open spec fn library_address(libs: Seq<(Seq<char>, Seq<u8>)>, name: Seq<char>) -> Option<Seq<u8>>
    decreases libs.len(),
{
    if libs.len() == 0 {
        None
    } else if libs[0].0 == name {
        Some(libs[0].1)
    } else {
        library_address(libs.drop_first(), name)
    }
}

/// The link references and the libraries form maps, as they do where they come
/// from: no two files share a name, no two contracts of a file share a name, and
/// no two libraries share a name.
pub open spec fn keys_are_distinct(files: Seq<FileLinksView>, libs: Seq<(Seq<char>, Seq<u8>)>) -> bool {
    &&& forall|i: int, j: int| 0 <= i < j < files.len() ==> #[trigger] files[i].file_name != #[trigger] files[j].file_name
    &&& forall|i: int, a: int, b: int|
        0 <= i < files.len() && 0 <= a < b < files[i].contracts.len() ==> #[trigger] files[i].contracts[a].contract_name
            != #[trigger] files[i].contracts[b].contract_name
    &&& forall|a: int, b: int| 0 <= a < b < libs.len() ==> #[trigger] libs[a].0 != #[trigger] libs[b].0
}

/// Where library names are distinct, the library of a name is the one entry with
/// that name.
pub proof fn lemma_library_address_is_the_entry(libs: Seq<(Seq<char>, Seq<u8>)>, i: int)
    requires
        forall|a: int, b: int| 0 <= a < b < libs.len() ==> #[trigger] libs[a].0 != #[trigger] libs[b].0,
        0 <= i < libs.len(),
    ensures
        library_address(libs, libs[i].0) == Some(libs[i].1),
    decreases libs.len(),
{
    if i > 0 {
        let rest = libs.drop_first();
        assert(libs[0].0 != libs[i].0);
        assert forall|a: int, b: int| 0 <= a < b < rest.len() implies #[trigger] rest[a].0 != #[trigger] rest[b].0 by {
            assert(rest[a] == libs[a + 1] && rest[b] == libs[b + 1]);
        }
        assert(rest[i - 1] == libs[i]);
        lemma_library_address_is_the_entry(rest, i - 1);
    }
}

/// Writes `hex` over the hexadecimal digits that `reference` designates.
pub open spec fn replace_reference(
    code: Seq<u8>,
    reference: (usize, usize),
    hex: Seq<u8>,
    file: Seq<char>,
    contract: Seq<char>,
) -> LinkOutcome {
    let start = 2 * reference.0;
    let length = 2 * reference.1;
    if start > usize::MAX || length > usize::MAX || start + length > usize::MAX {
        LinkOutcome::Panics
    } else if start + length > code.len() {
        LinkOutcome::OutOfRange(file, contract)
    } else if !on_char_boundary(code, start) || !on_char_boundary(code, start + length) {
        LinkOutcome::Panics
    } else {
        LinkOutcome::Linked(
            code.subrange(0, start) + hex + code.subrange(start + length, code.len() as int),
        )
    }
}

/// Applies the references in order, stopping at the first that fails.
pub open spec fn replace_references(
    code: Seq<u8>,
    refs: Seq<(usize, usize)>,
    hex: Seq<u8>,
    file: Seq<char>,
    contract: Seq<char>,
) -> LinkOutcome
    decreases refs.len(),
{
    if refs.len() == 0 {
        LinkOutcome::Linked(code)
    } else {
        match replace_reference(code, refs[0], hex, file, contract) {
            LinkOutcome::Linked(next) => replace_references(next, refs.drop_first(), hex, file, contract),
            other => other,
        }
    }
}

/// Links one contract's references to the address of the library of its name,
/// written as 40 lowercase hexadecimal digits.
pub open spec fn link_contract(
    code: Seq<u8>,
    file: Seq<char>,
    contract: ContractLinksView,
    libs: Seq<(Seq<char>, Seq<u8>)>,
) -> LinkOutcome {
    match library_address(libs, contract.contract_name) {
        None => LinkOutcome::MissingLibrary(contract.contract_name),
        Some(address) => replace_references(
            code,
            contract.references,
            hex_encode_bytes(address),
            file,
            contract.contract_name,
        ),
    }
}

/// Links the contracts of one file in order, stopping at the first failure.
pub open spec fn link_contracts(
    code: Seq<u8>,
    file: Seq<char>,
    contracts: Seq<ContractLinksView>,
    libs: Seq<(Seq<char>, Seq<u8>)>,
) -> LinkOutcome
    decreases contracts.len(),
{
    if contracts.len() == 0 {
        LinkOutcome::Linked(code)
    } else {
        match link_contract(code, file, contracts[0], libs) {
            LinkOutcome::Linked(next) => link_contracts(next, file, contracts.drop_first(), libs),
            other => other,
        }
    }
}

/// Links the files in order, stopping at the first failure.
pub open spec fn link_files(
    code: Seq<u8>,
    files: Seq<FileLinksView>,
    libs: Seq<(Seq<char>, Seq<u8>)>,
) -> LinkOutcome
    decreases files.len(),
{
    if files.len() == 0 {
        LinkOutcome::Linked(code)
    } else {
        match link_contracts(code, files[0].file_name, files[0].contracts, libs) {
            LinkOutcome::Linked(next) => link_files(next, files.drop_first(), libs),
            other => other,
        }
    }
}

/// `code` without a leading `0x`.
pub open spec fn strip_0x(code: Seq<u8>) -> Seq<u8> {
    if code.len() >= 2 && code[0] == 48 && code[1] == 120 {
        code.subrange(2, code.len() as int)
    } else {
        code
    }
}

/// What `link_libraries` gives for the bytecode text `bytecode`: the text without
/// its `0x` prefix is linked, and a successful result is given the prefix `0x`.
pub open spec fn link_libraries_outcome(
    bytecode: Seq<char>,
    files: Seq<FileLinksView>,
    libs: Seq<(Seq<char>, Seq<u8>)>,
) -> LinkOutcome {
    match link_files(strip_0x(encode_utf8(bytecode)), files, libs) {
        LinkOutcome::Linked(code) => LinkOutcome::Linked(seq![48u8, 120u8] + code),
        other => other,
    }
}

/// The error text for a library that was not given.
pub open spec fn missing_library_message(name: Seq<char>) -> Seq<char> {
    "Missing link library name "@ + name
}

/// The error text for a reference past the end of the bytecode.
pub open spec fn out_of_range_message(file: Seq<char>, contract: Seq<char>) -> Seq<char> {
    "Link reference out of range: "@ + file + ":"@ + contract
}

proof fn lemma_char_boundary(code: Seq<u8>, index: int)
    requires
        valid_utf8(code),
        0 <= index <= code.len(),
        on_char_boundary(code, index),
    ensures
        is_char_boundary(code, index),
{
    is_char_boundary_start_end_of_seq(code);
    if 0 < index < code.len() {
        is_char_boundary_iff_not_is_continuation_byte(code, index);
    }
}

proof fn lemma_splice_valid_utf8(code: Seq<u8>, start: int, end: int, hex: Seq<u8>)
    requires
        valid_utf8(code),
        valid_utf8(hex),
        0 <= start <= end <= code.len(),
        on_char_boundary(code, start),
        on_char_boundary(code, end),
    ensures
        valid_utf8(code.subrange(0, start) + hex + code.subrange(end, code.len() as int)),
{
    lemma_char_boundary(code, start);
    lemma_char_boundary(code, end);
    valid_utf8_split(code, start);
    valid_utf8_split(code, end);
    valid_utf8_concat(code.subrange(0, start), hex);
    valid_utf8_concat(code.subrange(0, start) + hex, code.subrange(end, code.len() as int));
}

proof fn lemma_drop_ascii_pair(code: Seq<u8>)
    requires
        valid_utf8(code),
        code.len() >= 2,
        code[0] < 0x80,
        code[1] < 0x80,
    ensures
        valid_utf8(code.subrange(2, code.len() as int)),
{
    reveal_with_fuel(valid_utf8, 3);
    let rest = pop_first_scalar(code);
    assert(rest =~= code.subrange(1, code.len() as int));
    assert(pop_first_scalar(rest) =~= code.subrange(2, code.len() as int));
}

/// The first library named `name`, if any.
fn find_library(libs: &Vec<LinkedLibrary>, name: &String) -> (address: Option<[u8; 20]>)
    ensures
        match address {
            Some(a) => library_address(libraries_view(libs@), name@) == Some(a@),
            None => library_address(libraries_view(libs@), name@) is None,
        },
{
    let ghost all = libraries_view(libs@);
    let n = libs.len();
    let mut i: usize = 0;
    assert(all.subrange(0, n as int) =~= all);
    while i < n
        invariant
            n == libs@.len(),
            all == libraries_view(libs@),
            i <= n,
            library_address(all, name@) == library_address(all.subrange(i as int, n as int), name@),
        decreases n - i,
    {
        let ghost rest = all.subrange(i as int, n as int);
        assert(rest.drop_first() =~= all.subrange(i + 1, n as int));
        assert(rest[0] == libs@[i as int]@);
        if libs[i].name == *name {
            return Some(libs[i].address);
        }
        i = i + 1;
    }
    assert(all.subrange(n as int, n as int).len() == 0);
    None
}

/// `code[..start] ++ with ++ code[end..]`.
fn splice(code: &Vec<u8>, start: usize, end: usize, with: &Vec<u8>) -> (spliced: Vec<u8>)
    requires
        start <= end <= code.len(),
    ensures
        spliced@ == code@.subrange(0, start as int) + with@ + code@.subrange(end as int, code.len() as int),
{
    let mut spliced: Vec<u8> = Vec::new();
    let mut i: usize = 0;
    while i < start
        invariant
            i <= start <= end <= code.len(),
            spliced@ == code@.subrange(0, i as int),
        decreases start - i,
    {
        spliced.push(code[i]);
        assert(code@.subrange(0, i + 1) =~= code@.subrange(0, i as int).push(code@[i as int]));
        i = i + 1;
    }
    let mut j: usize = 0;
    while j < with.len()
        invariant
            j <= with.len(),
            start <= end <= code.len(),
            spliced@ == code@.subrange(0, start as int) + with@.subrange(0, j as int),
        decreases with.len() - j,
    {
        spliced.push(with[j]);
        assert(with@.subrange(0, j + 1) =~= with@.subrange(0, j as int).push(with@[j as int]));
        assert(code@.subrange(0, start as int) + with@.subrange(0, j + 1) =~= (code@.subrange(0, start as int) + with@.subrange(0, j as int)).push(with@[j as int]));
        j = j + 1;
    }
    assert(with@.subrange(0, with.len() as int) =~= with@);
    let mut k: usize = end;
    while k < code.len()
        invariant
            end <= k <= code.len(),
            start <= end,
            spliced@ == code@.subrange(0, start as int) + with@ + code@.subrange(end as int, k as int),
        decreases code.len() - k,
    {
        spliced.push(code[k]);
        assert(code@.subrange(0, start as int) + with@ + code@.subrange(end as int, k + 1) =~= (code@.subrange(0, start as int) + with@ + code@.subrange(end as int, k as int)).push(code@[k as int]));
        k = k + 1;
    }
    spliced
}

/// `str::is_char_boundary` on the bytes of a text.
fn is_boundary(code: &Vec<u8>, index: usize) -> (b: bool)
    ensures
        b == on_char_boundary(code@, index as int),
{
    if index == 0 || index == code.len() {
        true
    } else if index < code.len() {
        !(0x80 <= code[index] && code[index] <= 0xbf)
    } else {
        false
    }
}

/// Writes `hex` over the digits that one reference designates.
fn replace_one(
    code: Vec<u8>,
    reference: (usize, usize),
    hex: &Vec<u8>,
    file: &String,
    contract: &String,
) -> (r: Result<Vec<u8>, LinkFailure>)
    requires
        valid_utf8(code@),
        valid_utf8(hex@),
    ensures
        outcome_of(r) == replace_reference(code@, reference, hex@, file@, contract@),
        r matches Ok(linked) ==> valid_utf8(linked@),
{
    let (byte_start, byte_length) = reference;
    let start = match byte_start.checked_mul(2) {
        Some(s) => s,
        None => {
            return Err(LinkFailure::Panics);
        },
    };
    let length = match byte_length.checked_mul(2) {
        Some(l) => l,
        None => {
            return Err(LinkFailure::Panics);
        },
    };
    let end = match start.checked_add(length) {
        Some(e) => e,
        None => {
            return Err(LinkFailure::Panics);
        },
    };
    if end > code.len() {
        return Err(LinkFailure::OutOfRange(file.clone(), contract.clone()));
    }
    if !is_boundary(&code, start) || !is_boundary(&code, end) {
        return Err(LinkFailure::Panics);
    }
    proof {
        lemma_splice_valid_utf8(code@, start as int, end as int, hex@);
    }
    Ok(splice(&code, start, end, hex))
}

/// Applies one contract's references in order.
fn replace_all(
    code: Vec<u8>,
    refs: &Vec<(usize, usize)>,
    hex: &Vec<u8>,
    file: &String,
    contract: &String,
) -> (r: Result<Vec<u8>, LinkFailure>)
    requires
        valid_utf8(code@),
        valid_utf8(hex@),
    ensures
        outcome_of(r) == replace_references(code@, refs@, hex@, file@, contract@),
        r matches Ok(linked) ==> valid_utf8(linked@),
{
    let ghost initial = code@;
    let n = refs.len();
    let mut current = code;
    let mut k: usize = 0;
    assert(refs@.subrange(0, n as int) =~= refs@);
    while k < n
        invariant
            n == refs@.len(),
            k <= n,
            initial == code@,
            valid_utf8(current@),
            valid_utf8(hex@),
            replace_references(initial, refs@, hex@, file@, contract@) == replace_references(
                current@,
                refs@.subrange(k as int, n as int),
                hex@,
                file@,
                contract@,
            ),
        decreases n - k,
    {
        let ghost rest = refs@.subrange(k as int, n as int);
        assert(rest.drop_first() =~= refs@.subrange(k + 1, n as int));
        assert(rest[0] == refs@[k as int]);
        let ghost cur = current@;
        match replace_one(current, refs[k], hex, file, contract) {
            Ok(next) => {
                current = next;
            },
            Err(e) => {
                assert(replace_references(cur, rest, hex@, file@, contract@) == outcome_of(Err(e)));
                return Err(e);
            },
        }
        k = k + 1;
    }
    assert(refs@.subrange(n as int, n as int).len() == 0);
    Ok(current)
}

/// Links one contract's references.
fn link_one_contract(
    code: Vec<u8>,
    file: &String,
    contract: &ContractLinks,
    libs: &Vec<LinkedLibrary>,
) -> (r: Result<Vec<u8>, LinkFailure>)
    requires
        valid_utf8(code@),
    ensures
        outcome_of(r) == link_contract(code@, file@, contract@, libraries_view(libs@)),
        r matches Ok(linked) ==> valid_utf8(linked@),
{
    match find_library(libs, &contract.contract_name) {
        None => Err(LinkFailure::MissingLibrary(contract.contract_name.clone())),
        Some(address) => {
            let hex = hex_encode_to_vec(address.as_slice());
            replace_all(code, &contract.references, &hex, file, &contract.contract_name)
        },
    }
}

/// Links the contracts of one file in order.
fn link_one_file(code: Vec<u8>, file: &FileLinks, libs: &Vec<LinkedLibrary>) -> (r: Result<
    Vec<u8>,
    LinkFailure,
>)
    requires
        valid_utf8(code@),
    ensures
        outcome_of(r) == link_contracts(code@, file@.file_name, file@.contracts, libraries_view(libs@)),
        r matches Ok(linked) ==> valid_utf8(linked@),
{
    let ghost initial = code@;
    let ghost contracts = file@.contracts;
    let ghost lv = libraries_view(libs@);
    let n = file.contracts.len();
    let mut current = code;
    let mut j: usize = 0;
    assert(contracts.subrange(0, n as int) =~= contracts);
    while j < n
        invariant
            n == file.contracts@.len(),
            contracts == file@.contracts,
            lv == libraries_view(libs@),
            j <= n,
            initial == code@,
            valid_utf8(current@),
            link_contracts(initial, file@.file_name, contracts, lv) == link_contracts(
                current@,
                file@.file_name,
                contracts.subrange(j as int, n as int),
                lv,
            ),
        decreases n - j,
    {
        let ghost rest = contracts.subrange(j as int, n as int);
        assert(rest.drop_first() =~= contracts.subrange(j + 1, n as int));
        assert(rest[0] == file.contracts@[j as int]@);
        let ghost cur = current@;
        match link_one_contract(current, &file.file_name, &file.contracts[j], libs) {
            Ok(next) => {
                current = next;
            },
            Err(e) => {
                assert(link_contracts(cur, file@.file_name, rest, lv) == outcome_of(Err(e)));
                return Err(e);
            },
        }
        j = j + 1;
    }
    assert(contracts.subrange(n as int, n as int).len() == 0);
    Ok(current)
}

/// Links the UTF-8 bytecode text `code` (without `0x`): for every file, for every
/// contract, in the given order, the library of the contract's name is looked up
/// and its address, as 40 lowercase hexadecimal digits, is written over each of
/// the contract's references.
pub fn link_bytecode(code: Vec<u8>, link_references: &Vec<FileLinks>, libraries: &Vec<LinkedLibrary>) -> (r:
    Result<Vec<u8>, LinkFailure>)
    requires
        valid_utf8(code@),
    ensures
        outcome_of(r) == link_files(code@, files_view(link_references@), libraries_view(libraries@)),
        r matches Ok(linked) ==> valid_utf8(linked@),
{
    let ghost initial = code@;
    let ghost files = files_view(link_references@);
    let ghost lv = libraries_view(libraries@);
    let n = link_references.len();
    let mut current = code;
    let mut i: usize = 0;
    assert(files.subrange(0, n as int) =~= files);
    while i < n
        invariant
            n == link_references@.len(),
            files == files_view(link_references@),
            lv == libraries_view(libraries@),
            i <= n,
            initial == code@,
            valid_utf8(current@),
            link_files(initial, files, lv) == link_files(current@, files.subrange(i as int, n as int), lv),
        decreases n - i,
    {
        let ghost rest = files.subrange(i as int, n as int);
        assert(rest.drop_first() =~= files.subrange(i + 1, n as int));
        assert(rest[0] == link_references@[i as int]@);
        let ghost cur = current@;
        match link_one_file(current, &link_references[i], libraries) {
            Ok(next) => {
                current = next;
            },
            Err(e) => {
                assert(link_files(cur, rest, lv) == outcome_of(Err(e)));
                return Err(e);
            },
        }
        i = i + 1;
    }
    assert(files.subrange(n as int, n as int).len() == 0);
    Ok(current)
}

/// Every reference of every contract covers a whole address (20 bytes, 40 digits).
pub open spec fn references_are_addresses(files: Seq<FileLinksView>) -> bool {
    forall|i: int, j: int, k: int|
        0 <= i < files.len() && 0 <= j < files[i].contracts.len() && 0 <= k
            < files[i].contracts[j].references.len() ==> #[trigger] files[i].contracts[j].references[k].1
            == 20
}

proof fn lemma_replace_references_length(
    code: Seq<u8>,
    refs: Seq<(usize, usize)>,
    hex: Seq<u8>,
    file: Seq<char>,
    contract: Seq<char>,
)
    requires
        hex.len() == 40,
        forall|k: int| 0 <= k < refs.len() ==> #[trigger] refs[k].1 == 20,
    ensures
        replace_references(code, refs, hex, file, contract) matches LinkOutcome::Linked(linked) ==> linked.len()
            == code.len(),
    decreases refs.len(),
{
    if refs.len() > 0 {
        match replace_reference(code, refs[0], hex, file, contract) {
            LinkOutcome::Linked(next) => {
                assert(refs[0].1 == 20);
                let rest = refs.drop_first();
                assert forall|k: int| 0 <= k < rest.len() implies #[trigger] rest[k].1 == 20 by {
                    assert(rest[k] == refs[k + 1]);
                }
                lemma_replace_references_length(next, rest, hex, file, contract);
            },
            _ => {},
        }
    }
}

proof fn lemma_link_contracts_length(
    code: Seq<u8>,
    file: Seq<char>,
    contracts: Seq<ContractLinksView>,
    libs: Seq<(Seq<char>, Seq<u8>)>,
)
    requires
        forall|j: int, k: int|
            0 <= j < contracts.len() && 0 <= k < contracts[j].references.len() ==> #[trigger] contracts[j].references[k].1
                == 20,
        forall|l: int| 0 <= l < libs.len() ==> (#[trigger] libs[l]).1.len() == 20,
    ensures
        link_contracts(code, file, contracts, libs) matches LinkOutcome::Linked(linked) ==> linked.len()
            == code.len(),
    decreases contracts.len(),
{
    if contracts.len() > 0 {
        let c = contracts[0];
        lemma_library_address_length(libs, c.contract_name);
        match library_address(libs, c.contract_name) {
            Some(address) => {
                assert forall|k: int| 0 <= k < c.references.len() implies #[trigger] c.references[k].1 == 20 by {
                    assert(contracts[0].references[k].1 == 20);
                }
                lemma_replace_references_length(code, c.references, hex_encode_bytes(address), file, c.contract_name);
                match link_contract(code, file, c, libs) {
                    LinkOutcome::Linked(next) => {
                        let rest = contracts.drop_first();
                        assert forall|j: int, k: int|
                            0 <= j < rest.len() && 0 <= k < rest[j].references.len() implies #[trigger] rest[j].references[k].1
                            == 20 by {
                            assert(rest[j] == contracts[j + 1]);
                        }
                        lemma_link_contracts_length(next, file, rest, libs);
                    },
                    _ => {},
                }
            },
            None => {},
        }
    }
}

proof fn lemma_library_address_length(libs: Seq<(Seq<char>, Seq<u8>)>, name: Seq<char>)
    requires
        forall|l: int| 0 <= l < libs.len() ==> (#[trigger] libs[l]).1.len() == 20,
    ensures
        library_address(libs, name) matches Some(address) ==> address.len() == 20,
    decreases libs.len(),
{
    if libs.len() > 0 && libs[0].0 != name {
        let rest = libs.drop_first();
        assert forall|l: int| 0 <= l < rest.len() implies (#[trigger] rest[l]).1.len() == 20 by {
            assert(rest[l] == libs[l + 1]);
        }
        lemma_library_address_length(rest, name);
    }
}

proof fn lemma_link_files_length(code: Seq<u8>, files: Seq<FileLinksView>, libs: Seq<(Seq<char>, Seq<u8>)>)
    requires
        references_are_addresses(files),
        forall|l: int| 0 <= l < libs.len() ==> (#[trigger] libs[l]).1.len() == 20,
    ensures
        link_files(code, files, libs) matches LinkOutcome::Linked(linked) ==> linked.len() == code.len(),
    decreases files.len(),
{
    if files.len() > 0 {
        let f = files[0];
        assert forall|j: int, k: int|
            0 <= j < f.contracts.len() && 0 <= k < f.contracts[j].references.len() implies #[trigger] f.contracts[j].references[k].1
            == 20 by {
            assert(files[0].contracts[j].references[k].1 == 20);
        }
        lemma_link_contracts_length(code, f.file_name, f.contracts, libs);
        match link_contracts(code, f.file_name, f.contracts, libs) {
            LinkOutcome::Linked(next) => {
                let rest = files.drop_first();
                assert forall|i: int, j: int, k: int|
                    0 <= i < rest.len() && 0 <= j < rest[i].contracts.len() && 0 <= k
                        < rest[i].contracts[j].references.len() implies #[trigger] rest[i].contracts[j].references[k].1
                    == 20 by {
                    assert(rest[i] == files[i + 1]);
                }
                lemma_link_files_length(next, rest, libs);
            },
            _ => {},
        }
    }
}

/// Linking never changes the length of the bytecode when every reference covers a
/// whole address: the linked text is the bytecode text without its `0x` prefix,
/// with `0x` in front, and of the same length.
pub proof fn lemma_link_preserves_length(
    bytecode: Seq<char>,
    files: Seq<FileLinksView>,
    libs: Seq<(Seq<char>, Seq<u8>)>,
)
    requires
        references_are_addresses(files),
        forall|l: int| 0 <= l < libs.len() ==> (#[trigger] libs[l]).1.len() == 20,
    ensures
        link_libraries_outcome(bytecode, files, libs) matches LinkOutcome::Linked(linked) ==> linked.len() == 2
            + strip_0x(encode_utf8(bytecode)).len(),
{
    lemma_link_files_length(strip_0x(encode_utf8(bytecode)), files, libs);
}

/// With no link references, linking only normalises the prefix: the result is the
/// bytecode text without its `0x` prefix, with `0x` in front.
pub proof fn lemma_link_without_references(bytecode: Seq<char>, libs: Seq<(Seq<char>, Seq<u8>)>)
    ensures
        link_libraries_outcome(bytecode, seq![], libs) == LinkOutcome::Linked(
            seq![48u8, 120u8] + strip_0x(encode_utf8(bytecode)),
        ),
{
}

/// One reference to one library: the library's address, in lowercase hexadecimal,
/// replaces exactly the referenced digits, and the rest of the text stays as it was.
pub proof fn lemma_link_single_reference(
    bytecode: Seq<char>,
    file: Seq<char>,
    contract: Seq<char>,
    byte_start: usize,
    byte_length: usize,
    address: Seq<u8>,
)
    requires
        2 * byte_start + 2 * byte_length <= usize::MAX,
        2 * byte_start + 2 * byte_length <= strip_0x(encode_utf8(bytecode)).len(),
        on_char_boundary(strip_0x(encode_utf8(bytecode)), 2 * byte_start),
        on_char_boundary(strip_0x(encode_utf8(bytecode)), 2 * byte_start + 2 * byte_length),
    ensures
        ({
            let code = strip_0x(encode_utf8(bytecode));
            let start = 2 * byte_start;
            let end = 2 * byte_start + 2 * byte_length;
            link_libraries_outcome(
                bytecode,
                seq![
                    FileLinksView {
                        file_name: file,
                        contracts: seq![
                            ContractLinksView { contract_name: contract, references: seq![(byte_start, byte_length)] },
                        ],
                    },
                ],
                seq![(contract, address)],
            ) == LinkOutcome::Linked(
                seq![48u8, 120u8] + (code.subrange(0, start) + hex_encode_bytes(address) + code.subrange(
                    end,
                    code.len() as int,
                )),
            )
        }),
{
    let code = strip_0x(encode_utf8(bytecode));
    let refs = seq![(byte_start, byte_length)];
    let hex = hex_encode_bytes(address);
    let replaced = replace_reference(code, refs[0], hex, file, contract);
    assert(replaced is Linked);
    let next = replaced->Linked_0;
    assert(refs.drop_first() =~= Seq::<(usize, usize)>::empty());
    assert(replace_references(next, refs.drop_first(), hex, file, contract) == LinkOutcome::Linked(next));
    assert(replace_references(code, refs, hex, file, contract) == LinkOutcome::Linked(next));
    let c = ContractLinksView { contract_name: contract, references: refs };
    let cs = seq![c];
    assert(cs.drop_first() =~= Seq::<ContractLinksView>::empty());
    let libs = seq![(contract, address)];
    assert(library_address(libs, contract) == Some(address));
    assert(link_contract(code, file, c, libs) == LinkOutcome::Linked(next));
    assert(link_contracts(next, file, cs.drop_first(), libs) == LinkOutcome::Linked(next));
    assert(link_contracts(code, file, cs, seq![(contract, address)]) == LinkOutcome::Linked(next));
    let fs = seq![FileLinksView { file_name: file, contracts: cs }];
    assert(fs.drop_first() =~= Seq::<FileLinksView>::empty());
    assert(link_files(next, fs.drop_first(), libs) == LinkOutcome::Linked(next));
    assert(link_files(code, fs, seq![(contract, address)]) == LinkOutcome::Linked(next));
}

proof fn lemma_encode_utf8_first(text: Seq<char>)
    requires
        text.len() > 0,
    ensures
        encode_utf8(text) == encode_scalar(text[0] as u32) + encode_utf8(text.drop_first()),
        encode_scalar(text[0] as u32).len() >= 1,
        (encode_scalar(text[0] as u32)[0] < 0x80) == (text[0] as u32 <= 0x7f),
        text[0] as u32 <= 0x7f ==> encode_scalar(text[0] as u32) == seq![text[0] as u32 as u8],
{
    let c = text[0] as u32;
    char_is_scalar(text[0]);
    if c <= 0x7f {
        assert((c & 0x7f) as u8 == c as u8) by (bit_vector)
            requires
                c <= 0x7f,
        ;
    } else {
        assert((0xC0 | ((c >> 6) & 0x1F) as u8) >= 0x80) by (bit_vector);
        assert((0xE0 | ((c >> 12) & 0x0F) as u8) >= 0x80) by (bit_vector);
        assert((0xF0 | ((c >> 18) & 0x7) as u8) >= 0x80) by (bit_vector);
    }
}

proof fn lemma_encode_utf8_0x(text: Seq<char>)
    ensures
        encode_utf8(seq!['0', 'x'] + text) == seq![48u8, 120u8] + encode_utf8(text),
{
    let prefixed = seq!['0', 'x'] + text;
    lemma_encode_utf8_first(prefixed);
    let rest = prefixed.drop_first();
    assert(rest =~= seq!['x'] + text);
    lemma_encode_utf8_first(rest);
    assert(rest.drop_first() =~= text);
}

proof fn lemma_bytes_start_with_0x(text: Seq<char>)
    requires
        encode_utf8(text).len() >= 2,
        encode_utf8(text)[0] == 48,
        encode_utf8(text)[1] == 120,
    ensures
        text.len() >= 2,
        text[0] == '0',
        text[1] == 'x',
{
    if text.len() == 0 {
        assert(encode_utf8(text).len() == 0);
    }
    lemma_encode_utf8_first(text);
    let first = text[0] as u32;
    assert(first <= 0x7f);
    assert(first as u8 == 48);
    char_u32_cast(text[0], first);
    assert(first == 48);
    let rest = text.drop_first();
    if rest.len() == 0 {
        assert(encode_utf8(rest).len() == 0);
    }
    lemma_encode_utf8_first(rest);
    let second = rest[0] as u32;
    assert(second <= 0x7f);
    assert(second as u8 == 120);
    char_u32_cast(rest[0], second);
    assert(second == 120);
}

/// A leading `0x` is optional: a bytecode text links exactly as the same text
/// preceded by `0x`.
pub proof fn lemma_link_prefix_is_optional(
    text: Seq<char>,
    files: Seq<FileLinksView>,
    libs: Seq<(Seq<char>, Seq<u8>)>,
)
    requires
        !(text.len() >= 2 && text[0] == '0' && text[1] == 'x'),
    ensures
        link_libraries_outcome(seq!['0', 'x'] + text, files, libs) == link_libraries_outcome(text, files, libs),
{
    lemma_encode_utf8_0x(text);
    let bytes = encode_utf8(text);
    assert((seq![48u8, 120u8] + bytes).subrange(2, bytes.len() as int + 2) =~= bytes);
    if bytes.len() >= 2 && bytes[0] == 48 && bytes[1] == 120 {
        lemma_bytes_start_with_0x(text);
    }
    assert(strip_0x(encode_utf8(seq!['0', 'x'] + text)) == strip_0x(bytes));
}

/// Whether a reference covers the digit at `k`.
pub open spec fn covers(reference: (usize, usize), k: int) -> bool {
    2 * reference.0 <= k < 2 * reference.0 + 2 * reference.1
}

/// Whether some reference covers the digit at `k`.
pub open spec fn refs_cover(refs: Seq<(usize, usize)>, k: int) -> bool
    decreases refs.len(),
{
    refs.len() > 0 && (covers(refs[0], k) || refs_cover(refs.drop_first(), k))
}

/// Whether some reference of some contract covers the digit at `k`.
pub open spec fn contracts_cover(contracts: Seq<ContractLinksView>, k: int) -> bool
    decreases contracts.len(),
{
    contracts.len() > 0 && (refs_cover(contracts[0].references, k) || contracts_cover(contracts.drop_first(), k))
}

/// Whether some reference of some file covers the digit at `k`.
pub open spec fn files_cover(files: Seq<FileLinksView>, k: int) -> bool
    decreases files.len(),
{
    files.len() > 0 && (contracts_cover(files[0].contracts, k) || files_cover(files.drop_first(), k))
}

proof fn lemma_hex_is_ascii(data: Seq<u8>)
    ensures
        hex_encode_bytes(data).len() == 2 * data.len(),
        forall|i: int| 0 <= i < hex_encode_bytes(data).len() ==> #[trigger] hex_encode_bytes(data)[i] < 0x80,
{
}

/// The first linking of a text: digits that no reference covers keep their value,
/// covered digits end up ASCII.
proof fn lemma_replace_references_effect(
    a: Seq<u8>,
    refs: Seq<(usize, usize)>,
    hex: Seq<u8>,
    file: Seq<char>,
    contract: Seq<char>,
)
    requires
        hex.len() == 40,
        forall|i: int| 0 <= i < hex.len() ==> #[trigger] hex[i] < 0x80,
        forall|j: int| 0 <= j < refs.len() ==> #[trigger] refs[j].1 == 20,
    ensures
        replace_references(a, refs, hex, file, contract) matches LinkOutcome::Linked(c) ==> {
            &&& c.len() == a.len()
            &&& forall|k: int| 0 <= k < a.len() && !refs_cover(refs, k) ==> #[trigger] c[k] == a[k]
            &&& forall|k: int| 0 <= k < a.len() && refs_cover(refs, k) ==> #[trigger] c[k] < 0x80
        },
    decreases refs.len(),
{
    if refs.len() > 0 {
        match replace_reference(a, refs[0], hex, file, contract) {
            LinkOutcome::Linked(a1) => {
                let rest = refs.drop_first();
                assert forall|j: int| 0 <= j < rest.len() implies #[trigger] rest[j].1 == 20 by {
                    assert(rest[j] == refs[j + 1]);
                }
                lemma_replace_references_effect(a1, rest, hex, file, contract);
                let s = 2 * refs[0].0;
                assert(refs[0].1 == 20);
                assert(a1.len() == a.len());
                assert forall|k: int| 0 <= k < a.len() implies #[trigger] a1[k] == (if s <= k < s + 40 {
                    hex[k - s]
                } else {
                    a[k]
                }) by {}
            },
            _ => {},
        }
    }
}

/// Linking a second text that agrees with the first outside the covered digits
/// (and outside `extra`), and is ASCII where covered (or in `extra`), succeeds the
/// same way and agrees with the first result outside `extra`.
proof fn lemma_replace_references_again(
    a: Seq<u8>,
    b: Seq<u8>,
    refs: Seq<(usize, usize)>,
    hex: Seq<u8>,
    file: Seq<char>,
    contract: Seq<char>,
    extra: spec_fn(int) -> bool,
)
    requires
        hex.len() == 40,
        forall|i: int| 0 <= i < hex.len() ==> #[trigger] hex[i] < 0x80,
        forall|j: int| 0 <= j < refs.len() ==> #[trigger] refs[j].1 == 20,
        replace_references(a, refs, hex, file, contract) is Linked,
        a.len() == b.len(),
        forall|k: int| 0 <= k < a.len() && !(refs_cover(refs, k) || extra(k)) ==> #[trigger] a[k] == b[k],
        forall|k: int| 0 <= k < a.len() && (refs_cover(refs, k) || extra(k)) ==> #[trigger] b[k] < 0x80,
    ensures
        ({
            let a2 = replace_references(a, refs, hex, file, contract)->Linked_0;
            replace_references(b, refs, hex, file, contract) matches LinkOutcome::Linked(b2) && {
                &&& b2.len() == a2.len()
                &&& forall|k: int| 0 <= k < a2.len() && !extra(k) ==> #[trigger] a2[k] == b2[k]
                &&& forall|k: int| 0 <= k < a2.len() && extra(k) ==> #[trigger] b2[k] < 0x80
            }
        }),
    decreases refs.len(),
{
    if refs.len() > 0 {
        let r0 = refs[0];
        let a1 = replace_reference(a, r0, hex, file, contract)->Linked_0;
        assert(r0.1 == 20);
        let s = 2 * r0.0;
        let e = s + 40;
        assert(covers(r0, s));
        assert(refs_cover(refs, s));
        if e < b.len() {
            if !(refs_cover(refs, e) || extra(e)) {
                assert(a[e] == b[e]);
            } else {
                assert(b[e] < 0x80);
            }
        }
        assert(on_char_boundary(b, s));
        assert(on_char_boundary(b, e));
        let b1 = replace_reference(b, r0, hex, file, contract)->Linked_0;
        let rest = refs.drop_first();
        assert forall|j: int| 0 <= j < rest.len() implies #[trigger] rest[j].1 == 20 by {
            assert(rest[j] == refs[j + 1]);
        }
        assert forall|k: int| 0 <= k < a.len() implies #[trigger] a1[k] == (if s <= k < e {
            hex[k - s]
        } else {
            a[k]
        }) && b1[k] == (if s <= k < e {
            hex[k - s]
        } else {
            b[k]
        }) by {}
        assert forall|k: int| 0 <= k < a1.len() && !(refs_cover(rest, k) || extra(k)) implies #[trigger] a1[k]
            == b1[k] by {
            if !(s <= k < e) {
                assert(!covers(r0, k));
                assert(a[k] == b[k]);
            }
        }
        assert forall|k: int| 0 <= k < a1.len() && (refs_cover(rest, k) || extra(k)) implies #[trigger] b1[k]
            < 0x80 by {
            if !(s <= k < e) {
                assert(b[k] < 0x80);
            }
        }
        lemma_replace_references_again(a1, b1, rest, hex, file, contract, extra);
    }
}

proof fn lemma_link_contracts_effect(
    a: Seq<u8>,
    file: Seq<char>,
    contracts: Seq<ContractLinksView>,
    libs: Seq<(Seq<char>, Seq<u8>)>,
)
    requires
        forall|j: int, k: int|
            0 <= j < contracts.len() && 0 <= k < contracts[j].references.len() ==> #[trigger] contracts[j].references[k].1
                == 20,
        forall|l: int| 0 <= l < libs.len() ==> (#[trigger] libs[l]).1.len() == 20,
    ensures
        link_contracts(a, file, contracts, libs) matches LinkOutcome::Linked(c) ==> {
            &&& c.len() == a.len()
            &&& forall|k: int| 0 <= k < a.len() && !contracts_cover(contracts, k) ==> #[trigger] c[k] == a[k]
            &&& forall|k: int| 0 <= k < a.len() && contracts_cover(contracts, k) ==> #[trigger] c[k] < 0x80
        },
    decreases contracts.len(),
{
    if contracts.len() > 0 {
        let c0 = contracts[0];
        lemma_library_address_length(libs, c0.contract_name);
        match library_address(libs, c0.contract_name) {
            Some(address) => {
                let hex = hex_encode_bytes(address);
                lemma_hex_is_ascii(address);
                assert forall|k: int| 0 <= k < c0.references.len() implies #[trigger] c0.references[k].1 == 20 by {
                    assert(contracts[0].references[k].1 == 20);
                }
                lemma_replace_references_effect(a, c0.references, hex, file, c0.contract_name);
                match replace_references(a, c0.references, hex, file, c0.contract_name) {
                    LinkOutcome::Linked(a1) => {
                        let rest = contracts.drop_first();
                        assert forall|j: int, k: int|
                            0 <= j < rest.len() && 0 <= k < rest[j].references.len() implies #[trigger] rest[j].references[k].1
                            == 20 by {
                            assert(rest[j] == contracts[j + 1]);
                        }
                        lemma_link_contracts_effect(a1, file, rest, libs);
                    },
                    _ => {},
                }
            },
            None => {},
        }
    }
}

proof fn lemma_link_contracts_again(
    a: Seq<u8>,
    b: Seq<u8>,
    file: Seq<char>,
    contracts: Seq<ContractLinksView>,
    libs: Seq<(Seq<char>, Seq<u8>)>,
    extra: spec_fn(int) -> bool,
)
    requires
        forall|j: int, k: int|
            0 <= j < contracts.len() && 0 <= k < contracts[j].references.len() ==> #[trigger] contracts[j].references[k].1
                == 20,
        forall|l: int| 0 <= l < libs.len() ==> (#[trigger] libs[l]).1.len() == 20,
        link_contracts(a, file, contracts, libs) is Linked,
        a.len() == b.len(),
        forall|k: int| 0 <= k < a.len() && !(contracts_cover(contracts, k) || extra(k)) ==> #[trigger] a[k] == b[k],
        forall|k: int| 0 <= k < a.len() && (contracts_cover(contracts, k) || extra(k)) ==> #[trigger] b[k] < 0x80,
    ensures
        ({
            let a2 = link_contracts(a, file, contracts, libs)->Linked_0;
            link_contracts(b, file, contracts, libs) matches LinkOutcome::Linked(b2) && {
                &&& b2.len() == a2.len()
                &&& forall|k: int| 0 <= k < a2.len() && !extra(k) ==> #[trigger] a2[k] == b2[k]
                &&& forall|k: int| 0 <= k < a2.len() && extra(k) ==> #[trigger] b2[k] < 0x80
            }
        }),
    decreases contracts.len(),
{
    if contracts.len() > 0 {
        let c0 = contracts[0];
        let rest = contracts.drop_first();
        lemma_library_address_length(libs, c0.contract_name);
        let address = library_address(libs, c0.contract_name)->Some_0;
        let hex = hex_encode_bytes(address);
        lemma_hex_is_ascii(address);
        assert forall|k: int| 0 <= k < c0.references.len() implies #[trigger] c0.references[k].1 == 20 by {
            assert(contracts[0].references[k].1 == 20);
        }
        let extra1 = |k: int| contracts_cover(rest, k) || extra(k);
        assert forall|k: int| 0 <= k < a.len() && !(refs_cover(c0.references, k) || extra1(k)) implies #[trigger] a[k]
            == b[k] by {}
        assert forall|k: int| 0 <= k < a.len() && (refs_cover(c0.references, k) || extra1(k)) implies #[trigger] b[k]
            < 0x80 by {}
        lemma_replace_references_again(a, b, c0.references, hex, file, c0.contract_name, extra1);
        lemma_replace_references_effect(a, c0.references, hex, file, c0.contract_name);
        let a1 = replace_references(a, c0.references, hex, file, c0.contract_name)->Linked_0;
        let b1 = replace_references(b, c0.references, hex, file, c0.contract_name)->Linked_0;
        assert forall|j: int, k: int|
            0 <= j < rest.len() && 0 <= k < rest[j].references.len() implies #[trigger] rest[j].references[k].1
            == 20 by {
            assert(rest[j] == contracts[j + 1]);
        }
        assert forall|k: int| 0 <= k < a1.len() && !(contracts_cover(rest, k) || extra(k)) implies #[trigger] a1[k]
            == b1[k] by {
            assert(!extra1(k));
        }
        assert forall|k: int| 0 <= k < a1.len() && (contracts_cover(rest, k) || extra(k)) implies #[trigger] b1[k]
            < 0x80 by {
            assert(extra1(k));
        }
        lemma_link_contracts_again(a1, b1, file, rest, libs, extra);
    }
}

proof fn lemma_link_files_effect(a: Seq<u8>, files: Seq<FileLinksView>, libs: Seq<(Seq<char>, Seq<u8>)>)
    requires
        references_are_addresses(files),
        forall|l: int| 0 <= l < libs.len() ==> (#[trigger] libs[l]).1.len() == 20,
    ensures
        link_files(a, files, libs) matches LinkOutcome::Linked(c) ==> {
            &&& c.len() == a.len()
            &&& forall|k: int| 0 <= k < a.len() && !files_cover(files, k) ==> #[trigger] c[k] == a[k]
            &&& forall|k: int| 0 <= k < a.len() && files_cover(files, k) ==> #[trigger] c[k] < 0x80
        },
    decreases files.len(),
{
    if files.len() > 0 {
        let f = files[0];
        assert forall|j: int, k: int|
            0 <= j < f.contracts.len() && 0 <= k < f.contracts[j].references.len() implies #[trigger] f.contracts[j].references[k].1
            == 20 by {
            assert(files[0].contracts[j].references[k].1 == 20);
        }
        lemma_link_contracts_effect(a, f.file_name, f.contracts, libs);
        match link_contracts(a, f.file_name, f.contracts, libs) {
            LinkOutcome::Linked(a1) => {
                let rest = files.drop_first();
                assert forall|i: int, j: int, k: int|
                    0 <= i < rest.len() && 0 <= j < rest[i].contracts.len() && 0 <= k
                        < rest[i].contracts[j].references.len() implies #[trigger] rest[i].contracts[j].references[k].1
                    == 20 by {
                    assert(rest[i] == files[i + 1]);
                }
                lemma_link_files_effect(a1, rest, libs);
            },
            _ => {},
        }
    }
}

proof fn lemma_link_files_again(
    a: Seq<u8>,
    b: Seq<u8>,
    files: Seq<FileLinksView>,
    libs: Seq<(Seq<char>, Seq<u8>)>,
    extra: spec_fn(int) -> bool,
)
    requires
        references_are_addresses(files),
        forall|l: int| 0 <= l < libs.len() ==> (#[trigger] libs[l]).1.len() == 20,
        link_files(a, files, libs) is Linked,
        a.len() == b.len(),
        forall|k: int| 0 <= k < a.len() && !(files_cover(files, k) || extra(k)) ==> #[trigger] a[k] == b[k],
        forall|k: int| 0 <= k < a.len() && (files_cover(files, k) || extra(k)) ==> #[trigger] b[k] < 0x80,
    ensures
        ({
            let a2 = link_files(a, files, libs)->Linked_0;
            link_files(b, files, libs) matches LinkOutcome::Linked(b2) && {
                &&& b2.len() == a2.len()
                &&& forall|k: int| 0 <= k < a2.len() && !extra(k) ==> #[trigger] a2[k] == b2[k]
                &&& forall|k: int| 0 <= k < a2.len() && extra(k) ==> #[trigger] b2[k] < 0x80
            }
        }),
    decreases files.len(),
{
    if files.len() > 0 {
        let f = files[0];
        let rest = files.drop_first();
        assert forall|j: int, k: int|
            0 <= j < f.contracts.len() && 0 <= k < f.contracts[j].references.len() implies #[trigger] f.contracts[j].references[k].1
            == 20 by {
            assert(files[0].contracts[j].references[k].1 == 20);
        }
        let extra1 = |k: int| files_cover(rest, k) || extra(k);
        assert forall|k: int| 0 <= k < a.len() && !(contracts_cover(f.contracts, k) || extra1(k)) implies #[trigger] a[k]
            == b[k] by {}
        assert forall|k: int| 0 <= k < a.len() && (contracts_cover(f.contracts, k) || extra1(k)) implies #[trigger] b[k]
            < 0x80 by {}
        lemma_link_contracts_again(a, b, f.file_name, f.contracts, libs, extra1);
        lemma_link_contracts_effect(a, f.file_name, f.contracts, libs);
        let a1 = link_contracts(a, f.file_name, f.contracts, libs)->Linked_0;
        let b1 = link_contracts(b, f.file_name, f.contracts, libs)->Linked_0;
        assert forall|i: int, j: int, k: int|
            0 <= i < rest.len() && 0 <= j < rest[i].contracts.len() && 0 <= k
                < rest[i].contracts[j].references.len() implies #[trigger] rest[i].contracts[j].references[k].1
            == 20 by {
            assert(rest[i] == files[i + 1]);
        }
        assert forall|k: int| 0 <= k < a1.len() && !(files_cover(rest, k) || extra(k)) implies #[trigger] a1[k]
            == b1[k] by {
            assert(!extra1(k));
        }
        assert forall|k: int| 0 <= k < a1.len() && (files_cover(rest, k) || extra(k)) implies #[trigger] b1[k]
            < 0x80 by {
            assert(extra1(k));
        }
        lemma_link_files_again(a1, b1, rest, libs, extra);
    }
}

/// Linking a linked text again, with the same references (each covering a whole
/// address) and the same libraries, gives the same text back.
pub proof fn lemma_relinking_changes_nothing(
    bytecode: Seq<char>,
    linked: Seq<char>,
    files: Seq<FileLinksView>,
    libs: Seq<(Seq<char>, Seq<u8>)>,
)
    requires
        references_are_addresses(files),
        forall|l: int| 0 <= l < libs.len() ==> (#[trigger] libs[l]).1.len() == 20,
        link_libraries_outcome(bytecode, files, libs) == LinkOutcome::Linked(encode_utf8(linked)),
    ensures
        link_libraries_outcome(linked, files, libs) == LinkOutcome::Linked(encode_utf8(linked)),
{
    let a = strip_0x(encode_utf8(bytecode));
    lemma_link_files_effect(a, files, libs);
    let c = link_files(a, files, libs)->Linked_0;
    assert(encode_utf8(linked) == seq![48u8, 120u8] + c);
    assert(strip_0x(encode_utf8(linked)) =~= c);
    let none = |k: int| false;
    lemma_link_files_again(a, c, files, libs, none);
    let c2 = link_files(c, files, libs)->Linked_0;
    assert(c2 =~= c);
}

/// Two references share no byte.
pub open spec fn apart(a: (usize, usize), b: (usize, usize)) -> bool {
    a.0 + a.1 <= b.0 || b.0 + b.1 <= a.0
}

/// No two references, of any contracts of any files, share a byte.
pub open spec fn references_are_disjoint(files: Seq<FileLinksView>) -> bool {
    forall|i: int, j: int, k: int, i2: int, j2: int, k2: int|
        #![trigger files[i].contracts[j].references[k], files[i2].contracts[j2].references[k2]]
        0 <= i < files.len() && 0 <= j < files[i].contracts.len() && 0 <= k < files[i].contracts[j].references.len()
            && 0 <= i2 < files.len() && 0 <= j2 < files[i2].contracts.len() && 0 <= k2
            < files[i2].contracts[j2].references.len() && (i != i2 || j != j2 || k != k2) ==> apart(
            files[i].contracts[j].references[k],
            files[i2].contracts[j2].references[k2],
        )
}

proof fn lemma_refs_cover_some(refs: Seq<(usize, usize)>, d: int)
    requires
        refs_cover(refs, d),
    ensures
        exists|m: int| 0 <= m < refs.len() && #[trigger] covers(refs[m], d),
    decreases refs.len(),
{
    if !covers(refs[0], d) {
        let rest = refs.drop_first();
        lemma_refs_cover_some(rest, d);
        let m = choose|m: int| 0 <= m < rest.len() && #[trigger] covers(rest[m], d);
        assert(refs[m + 1] == rest[m]);
        assert(covers(refs[m + 1], d));
    }
}

proof fn lemma_contracts_cover_some(contracts: Seq<ContractLinksView>, d: int)
    requires
        contracts_cover(contracts, d),
    ensures
        exists|j: int, m: int|
            0 <= j < contracts.len() && 0 <= m < contracts[j].references.len() && #[trigger] covers(
                contracts[j].references[m],
                d,
            ),
    decreases contracts.len(),
{
    if refs_cover(contracts[0].references, d) {
        lemma_refs_cover_some(contracts[0].references, d);
        let m = choose|m: int| 0 <= m < contracts[0].references.len() && #[trigger] covers(contracts[0].references[m], d);
        assert(covers(contracts[0].references[m], d));
    } else {
        let rest = contracts.drop_first();
        lemma_contracts_cover_some(rest, d);
        let (j, m) = choose|j: int, m: int|
            0 <= j < rest.len() && 0 <= m < rest[j].references.len() && #[trigger] covers(rest[j].references[m], d);
        assert(contracts[j + 1] == rest[j]);
        assert(covers(contracts[j + 1].references[m], d));
    }
}

proof fn lemma_files_cover_some(files: Seq<FileLinksView>, d: int)
    requires
        files_cover(files, d),
    ensures
        exists|i: int, j: int, m: int|
            0 <= i < files.len() && 0 <= j < files[i].contracts.len() && 0 <= m
                < files[i].contracts[j].references.len() && #[trigger] covers(files[i].contracts[j].references[m], d),
    decreases files.len(),
{
    if contracts_cover(files[0].contracts, d) {
        lemma_contracts_cover_some(files[0].contracts, d);
        let (j, m) = choose|j: int, m: int|
            0 <= j < files[0].contracts.len() && 0 <= m < files[0].contracts[j].references.len() && #[trigger] covers(
                files[0].contracts[j].references[m],
                d,
            );
        assert(covers(files[0].contracts[j].references[m], d));
    } else {
        let rest = files.drop_first();
        lemma_files_cover_some(rest, d);
        let (i, j, m) = choose|i: int, j: int, m: int|
            0 <= i < rest.len() && 0 <= j < rest[i].contracts.len() && 0 <= m < rest[i].contracts[j].references.len()
                && #[trigger] covers(rest[i].contracts[j].references[m], d);
        assert(files[i + 1] == rest[i]);
        assert(covers(files[i + 1].contracts[j].references[m], d));
    }
}

/// Applying references writes `hex` at every reference that no later one overlaps.
proof fn lemma_replace_references_writes(
    a: Seq<u8>,
    refs: Seq<(usize, usize)>,
    hex: Seq<u8>,
    file: Seq<char>,
    contract: Seq<char>,
    k: int,
)
    requires
        hex.len() == 40,
        forall|i: int| 0 <= i < hex.len() ==> #[trigger] hex[i] < 0x80,
        forall|j: int| 0 <= j < refs.len() ==> #[trigger] refs[j].1 == 20,
        0 <= k < refs.len(),
        forall|m: int| k < m < refs.len() ==> apart(refs[k], #[trigger] refs[m]),
        replace_references(a, refs, hex, file, contract) is Linked,
    ensures
        ({
            let c = replace_references(a, refs, hex, file, contract)->Linked_0;
            let s = 2 * refs[k].0;
            &&& s + 40 <= c.len()
            &&& c.subrange(s, s + 40) == hex
        }),
    decreases refs.len(),
{
    let a1 = replace_reference(a, refs[0], hex, file, contract)->Linked_0;
    let rest = refs.drop_first();
    assert forall|j: int| 0 <= j < rest.len() implies #[trigger] rest[j].1 == 20 by {
        assert(rest[j] == refs[j + 1]);
    }
    lemma_replace_references_effect(a1, rest, hex, file, contract);
    let c = replace_references(a, refs, hex, file, contract)->Linked_0;
    assert(c == replace_references(a1, rest, hex, file, contract)->Linked_0);
    if k == 0 {
        let s = 2 * refs[0].0;
        assert(refs[0].1 == 20);
        assert forall|d: int| s <= d < s + 40 implies #[trigger] c[d] == hex[d - s] by {
            if refs_cover(rest, d) {
                lemma_refs_cover_some(rest, d);
                let m = choose|m: int| 0 <= m < rest.len() && #[trigger] covers(rest[m], d);
                assert(rest[m] == refs[m + 1]);
                assert(apart(refs[0], refs[m + 1]));
                assert(refs[m + 1].1 == 20);
            }
            assert(a1[d] == hex[d - s]);
        }
        assert(c.subrange(s, s + 40) =~= hex);
    } else {
        assert(rest[k - 1] == refs[k]);
        assert forall|m: int| k - 1 < m < rest.len() implies apart(rest[k - 1], #[trigger] rest[m]) by {
            assert(rest[m] == refs[m + 1]);
        }
        lemma_replace_references_writes(a1, rest, hex, file, contract, k - 1);
    }
}

/// Linking the contracts of a file writes, at every reference that no later one
/// overlaps, the hexadecimal address of the library of the contract's name.
proof fn lemma_link_contracts_writes(
    a: Seq<u8>,
    file: Seq<char>,
    contracts: Seq<ContractLinksView>,
    libs: Seq<(Seq<char>, Seq<u8>)>,
    j: int,
    k: int,
)
    requires
        forall|j: int, k: int|
            0 <= j < contracts.len() && 0 <= k < contracts[j].references.len() ==> #[trigger] contracts[j].references[k].1
                == 20,
        forall|l: int| 0 <= l < libs.len() ==> (#[trigger] libs[l]).1.len() == 20,
        0 <= j < contracts.len(),
        0 <= k < contracts[j].references.len(),
        forall|m: int|
            k < m < contracts[j].references.len() ==> apart(
                contracts[j].references[k],
                #[trigger] contracts[j].references[m],
            ),
        forall|j2: int, m: int|
            j < j2 < contracts.len() && 0 <= m < contracts[j2].references.len() ==> apart(
                contracts[j].references[k],
                #[trigger] contracts[j2].references[m],
            ),
        link_contracts(a, file, contracts, libs) is Linked,
    ensures
        library_address(libs, contracts[j].contract_name) matches Some(address) && {
            let c = link_contracts(a, file, contracts, libs)->Linked_0;
            let s = 2 * contracts[j].references[k].0;
            &&& s + 40 <= c.len()
            &&& c.subrange(s, s + 40) == hex_encode_bytes(address)
        },
    decreases contracts.len(),
{
    let c0 = contracts[0];
    lemma_library_address_length(libs, c0.contract_name);
    let address = library_address(libs, c0.contract_name)->Some_0;
    let hex = hex_encode_bytes(address);
    lemma_hex_is_ascii(address);
    assert forall|m: int| 0 <= m < c0.references.len() implies #[trigger] c0.references[m].1 == 20 by {
        assert(contracts[0].references[m].1 == 20);
    }
    let a1 = replace_references(a, c0.references, hex, file, c0.contract_name)->Linked_0;
    let rest = contracts.drop_first();
    assert forall|j2: int, m: int|
        0 <= j2 < rest.len() && 0 <= m < rest[j2].references.len() implies #[trigger] rest[j2].references[m].1 == 20 by {
        assert(rest[j2] == contracts[j2 + 1]);
    }
    lemma_link_contracts_effect(a1, file, rest, libs);
    let c = link_contracts(a, file, contracts, libs)->Linked_0;
    assert(c == link_contracts(a1, file, rest, libs)->Linked_0);
    if j == 0 {
        lemma_replace_references_writes(a, c0.references, hex, file, c0.contract_name, k);
        let s = 2 * c0.references[k].0;
        assert forall|d: int| s <= d < s + 40 implies #[trigger] c[d] == a1[d] by {
            if contracts_cover(rest, d) {
                lemma_contracts_cover_some(rest, d);
                let (j2, m) = choose|j2: int, m: int|
                    0 <= j2 < rest.len() && 0 <= m < rest[j2].references.len() && #[trigger] covers(
                        rest[j2].references[m],
                        d,
                    );
                assert(rest[j2] == contracts[j2 + 1]);
                assert(apart(contracts[0].references[k], contracts[j2 + 1].references[m]));
                assert(contracts[j2 + 1].references[m].1 == 20);
            }
        }
        assert(c.subrange(s, s + 40) =~= a1.subrange(s, s + 40));
    } else {
        assert(rest[j - 1] == contracts[j]);
        assert forall|m: int|
            k < m < rest[j - 1].references.len() implies apart(
                rest[j - 1].references[k],
                #[trigger] rest[j - 1].references[m],
            ) by {}
        assert forall|j2: int, m: int|
            j - 1 < j2 < rest.len() && 0 <= m < rest[j2].references.len() implies apart(
                rest[j - 1].references[k],
                #[trigger] rest[j2].references[m],
            ) by {
            assert(rest[j2] == contracts[j2 + 1]);
        }
        lemma_link_contracts_writes(a1, file, rest, libs, j - 1, k);
    }
}

/// Linking the files writes, at every reference that no later one overlaps, the
/// hexadecimal address of the library of the contract's name.
proof fn lemma_link_files_writes(
    a: Seq<u8>,
    files: Seq<FileLinksView>,
    libs: Seq<(Seq<char>, Seq<u8>)>,
    i: int,
    j: int,
    k: int,
)
    requires
        references_are_addresses(files),
        forall|l: int| 0 <= l < libs.len() ==> (#[trigger] libs[l]).1.len() == 20,
        0 <= i < files.len(),
        0 <= j < files[i].contracts.len(),
        0 <= k < files[i].contracts[j].references.len(),
        forall|m: int|
            k < m < files[i].contracts[j].references.len() ==> apart(
                files[i].contracts[j].references[k],
                #[trigger] files[i].contracts[j].references[m],
            ),
        forall|j2: int, m: int|
            j < j2 < files[i].contracts.len() && 0 <= m < files[i].contracts[j2].references.len() ==> apart(
                files[i].contracts[j].references[k],
                #[trigger] files[i].contracts[j2].references[m],
            ),
        forall|i2: int, j2: int, m: int|
            i < i2 < files.len() && 0 <= j2 < files[i2].contracts.len() && 0 <= m
                < files[i2].contracts[j2].references.len() ==> apart(
                files[i].contracts[j].references[k],
                #[trigger] files[i2].contracts[j2].references[m],
            ),
        link_files(a, files, libs) is Linked,
    ensures
        library_address(libs, files[i].contracts[j].contract_name) matches Some(address) && {
            let c = link_files(a, files, libs)->Linked_0;
            let s = 2 * files[i].contracts[j].references[k].0;
            &&& s + 40 <= c.len()
            &&& c.subrange(s, s + 40) == hex_encode_bytes(address)
        },
    decreases files.len(),
{
    let f = files[0];
    assert forall|j2: int, m: int|
        0 <= j2 < f.contracts.len() && 0 <= m < f.contracts[j2].references.len() implies #[trigger] f.contracts[j2].references[m].1
        == 20 by {
        assert(files[0].contracts[j2].references[m].1 == 20);
    }
    let a1 = link_contracts(a, f.file_name, f.contracts, libs)->Linked_0;
    let rest = files.drop_first();
    assert forall|i2: int, j2: int, m: int|
        0 <= i2 < rest.len() && 0 <= j2 < rest[i2].contracts.len() && 0 <= m
            < rest[i2].contracts[j2].references.len() implies #[trigger] rest[i2].contracts[j2].references[m].1
        == 20 by {
        assert(rest[i2] == files[i2 + 1]);
    }
    lemma_link_files_effect(a1, rest, libs);
    let c = link_files(a, files, libs)->Linked_0;
    assert(c == link_files(a1, rest, libs)->Linked_0);
    if i == 0 {
        lemma_link_contracts_writes(a, f.file_name, f.contracts, libs, j, k);
        let s = 2 * f.contracts[j].references[k].0;
        assert forall|d: int| s <= d < s + 40 implies #[trigger] c[d] == a1[d] by {
            if files_cover(rest, d) {
                lemma_files_cover_some(rest, d);
                let (i2, j2, m) = choose|i2: int, j2: int, m: int|
                    0 <= i2 < rest.len() && 0 <= j2 < rest[i2].contracts.len() && 0 <= m
                        < rest[i2].contracts[j2].references.len() && #[trigger] covers(
                        rest[i2].contracts[j2].references[m],
                        d,
                    );
                assert(rest[i2] == files[i2 + 1]);
                assert(apart(files[0].contracts[j].references[k], files[i2 + 1].contracts[j2].references[m]));
                assert(files[i2 + 1].contracts[j2].references[m].1 == 20);
            }
        }
        assert(c.subrange(s, s + 40) =~= a1.subrange(s, s + 40));
    } else {
        assert(rest[i - 1] == files[i]);
        assert forall|i2: int, j2: int, m: int|
            i - 1 < i2 < rest.len() && 0 <= j2 < rest[i2].contracts.len() && 0 <= m
                < rest[i2].contracts[j2].references.len() implies apart(
                rest[i - 1].contracts[j].references[k],
                #[trigger] rest[i2].contracts[j2].references[m],
            ) by {
            assert(rest[i2] == files[i2 + 1]);
        }
        lemma_link_files_writes(a1, rest, libs, i - 1, j, k);
    }
}

/// When no two references share a byte and each covers a whole address, linking
/// writes at every reference of every contract (digits `2 * byte_start` to
/// `2 * byte_start + 40` after the `0x` prefix) the 40 lowercase hexadecimal
/// digits of the address of the library named like the contract: the digits
/// decode to that address.
pub proof fn lemma_link_writes_every_address(
    bytecode: Seq<char>,
    files: Seq<FileLinksView>,
    libs: Seq<(Seq<char>, Seq<u8>)>,
    i: int,
    j: int,
    k: int,
)
    requires
        references_are_addresses(files),
        references_are_disjoint(files),
        forall|l: int| 0 <= l < libs.len() ==> (#[trigger] libs[l]).1.len() == 20,
        0 <= i < files.len(),
        0 <= j < files[i].contracts.len(),
        0 <= k < files[i].contracts[j].references.len(),
        link_libraries_outcome(bytecode, files, libs) is Linked,
    ensures
        library_address(libs, files[i].contracts[j].contract_name) matches Some(address) && {
            let linked = link_libraries_outcome(bytecode, files, libs)->Linked_0;
            let s = 2 + 2 * files[i].contracts[j].references[k].0;
            &&& s + 40 <= linked.len()
            &&& linked.subrange(s, s + 40) == hex_encode_bytes(address)
            &&& hex_decode_spec(linked.subrange(s, s + 40)) == Some(address)
        },
{
    let a = strip_0x(encode_utf8(bytecode));
    let r = files[i].contracts[j].references[k];
    assert forall|m: int|
        k < m < files[i].contracts[j].references.len() implies apart(
            r,
            #[trigger] files[i].contracts[j].references[m],
        ) by {}
    assert forall|j2: int, m: int|
        j < j2 < files[i].contracts.len() && 0 <= m < files[i].contracts[j2].references.len() implies apart(
            r,
            #[trigger] files[i].contracts[j2].references[m],
        ) by {}
    assert forall|i2: int, j2: int, m: int|
        i < i2 < files.len() && 0 <= j2 < files[i2].contracts.len() && 0 <= m
            < files[i2].contracts[j2].references.len() implies apart(
            r,
            #[trigger] files[i2].contracts[j2].references[m],
        ) by {}
    lemma_link_files_writes(a, files, libs, i, j, k);
    let c = link_files(a, files, libs)->Linked_0;
    let linked = link_libraries_outcome(bytecode, files, libs)->Linked_0;
    assert(linked == seq![48u8, 120u8] + c);
    let s = 2 * r.0;
    assert(linked.subrange(s + 2, s + 42) =~= c.subrange(s, s + 40));
    let address = library_address(libs, files[i].contracts[j].contract_name)->Some_0;
    lemma_hex_roundtrip(address);
}

/// Linking changes only the digits that some reference covers (each covering a
/// whole address): the linked text is `0x` followed by the unprefixed bytecode,
/// of the same length, with every other digit as it was.
pub proof fn lemma_link_keeps_other_digits(
    bytecode: Seq<char>,
    files: Seq<FileLinksView>,
    libs: Seq<(Seq<char>, Seq<u8>)>,
)
    requires
        references_are_addresses(files),
        forall|l: int| 0 <= l < libs.len() ==> (#[trigger] libs[l]).1.len() == 20,
        link_libraries_outcome(bytecode, files, libs) is Linked,
    ensures
        ({
            let code = strip_0x(encode_utf8(bytecode));
            let linked = link_libraries_outcome(bytecode, files, libs)->Linked_0;
            &&& linked.len() == code.len() + 2
            &&& linked[0] == 48u8
            &&& linked[1] == 120u8
            &&& forall|d: int| 0 <= d < code.len() && !files_cover(files, d) ==> #[trigger] linked[d + 2] == code[d]
        }),
{
    let a = strip_0x(encode_utf8(bytecode));
    lemma_link_files_effect(a, files, libs);
}

/// Calls `String::from_utf8` of std, which gives back the bytes as a `String`
/// when they are valid UTF-8 and refuses them otherwise.
#[verifier::external_body]
fn string_from_utf8(bytes: Vec<u8>) -> (text: Option<String>)
    ensures
        text is Some <==> valid_utf8(bytes@),
        text matches Some(t) ==> encode_utf8(t@) == bytes@,
{
    String::from_utf8(bytes).ok()
}

/// The bytes of `code` without a leading `0x`.
pub(crate) fn strip_0x_prefix(code: Vec<u8>) -> (stripped: Vec<u8>)
    requires
        valid_utf8(code@),
    ensures
        stripped@ == strip_0x(code@),
        valid_utf8(stripped@),
{
    if code.len() >= 2 && code[0] == 48 && code[1] == 120 {
        proof {
            lemma_drop_ascii_pair(code@);
        }
        let empty: Vec<u8> = Vec::new();
        splice(&code, 0, 2, &empty)
    } else {
        code
    }
}

/// `prefix ++ name` as a `String`.
fn message_with(prefix: &str, name: &String) -> (message: String)
    ensures
        message@ == prefix@ + name@,
{
    let mut message = String::from_str(prefix);
    message.append(name.as_str());
    message
}

/// Links the libraries' addresses into a bytecode text.
///
/// A leading `0x` is dropped; then, for every file and every contract of the link
/// references, in the given order, the library of the contract's name is looked up
/// (an error `Missing link library name <contract>` when there is none) and its
/// address, as 40 lowercase hexadecimal digits, replaces the text from
/// `2 * byte_start` to `2 * (byte_start + byte_length)` of each reference (an error
/// `Link reference out of range: <file>:<contract>` when that reaches past the end
/// of the text). The result carries the prefix `0x`.
pub fn link_libraries(bytecode: String, link_references: &Vec<FileLinks>, libraries: &Vec<LinkedLibrary>) -> (r:
    Result<String, String>)
    requires
        keys_are_distinct(files_view(link_references@), libraries_view(libraries@)),
        !(link_libraries_outcome(bytecode@, files_view(link_references@), libraries_view(libraries@)) is Panics),
    ensures
        match link_libraries_outcome(bytecode@, files_view(link_references@), libraries_view(libraries@)) {
            LinkOutcome::Linked(linked) => r matches Ok(text) && encode_utf8(text@) == linked,
            LinkOutcome::MissingLibrary(name) => r matches Err(m) && m@ == missing_library_message(name),
            LinkOutcome::OutOfRange(file, contract) => r matches Err(m) && m@ == out_of_range_message(file, contract),
            LinkOutcome::Panics => false,
        },
{
    let bytes = bytecode.as_str().as_bytes_vec();
    proof {
        encode_utf8_valid_utf8(bytecode@);
    }
    let code = strip_0x_prefix(bytes);
    match link_bytecode(code, link_references, libraries) {
        Ok(linked) => {
            let prefix: [u8; 2] = [48u8, 120u8];
            let prefixed = crate::bytes::concat_bytes(prefix.as_slice(), linked.as_slice());
            proof {
                assert(prefix@ =~= seq![48u8, 120u8]);
                reveal_with_fuel(valid_utf8, 3);
                assert(valid_utf8(prefix@));
                valid_utf8_concat(prefix@, linked@);
            }
            match string_from_utf8(prefixed) {
                Some(text) => Ok(text),
                // Unreachable: the linked bytes are valid UTF-8.
                None => Err(empty_text()),
            }
        },
        Err(LinkFailure::MissingLibrary(name)) => Err(message_with("Missing link library name ", &name)),
        Err(LinkFailure::OutOfRange(file, contract)) => {
            let mut message = message_with("Link reference out of range: ", &file);
            message.append(":");
            message.append(contract.as_str());
            Err(message)
        },
        // Unreachable: ruled out by the precondition.
        Err(LinkFailure::Panics) => Err(empty_text()),
    }
}

fn empty_text() -> (text: String)
    ensures
        text@ == Seq::<char>::empty(),
{
    String::new()
}

/// The salt under which a contract is deployed: the Keccak-256 digest of the
/// UTF-8 bytes of its name.
pub open spec fn salt_of(contract_name: Seq<char>) -> Seq<u8> {
    keccak256_digest(encode_utf8(contract_name))
}

/// A contract's salt is the Keccak-256 digest of all the UTF-8 bytes of its
/// name, whatever the name's length.
pub proof fn lemma_salt_is_digest_of_name(contract_name: Seq<char>)
    ensures
        salt_of(contract_name) == keccak256_digest(encode_utf8(contract_name)),
{
}

/// The deployment salt of the contract `contract_name`: `keccak256(contract_name)`.
pub fn get_salt(contract_name: &str) -> (salt: [u8; 32])
    ensures
        salt@ == salt_of(contract_name@),
{
    keccak256(contract_name.as_bytes())
}

/// Calls `rand::rng()` (the thread-local generator of `rand`) and its
/// `RngCore::fill_bytes` on a 32-byte buffer. Nothing is stated of the bytes:
/// they come from a random generator.
#[verifier::external_body]
fn random_bytes_32() -> [u8; 32] {
    let mut bytes = [0u8; 32];
    rand::RngCore::fill_bytes(&mut rand::rng(), &mut bytes);
    bytes
}

/// A fresh salt of 32 random bytes.
pub fn generate_random_salt() -> [u8; 32] {
    random_bytes_32()
}

} // verus!
