use contract_deployer::helpers::{
    generate_random_salt, get_salt, link_bytecode, link_libraries, ContractLinks, FileLinks, LinkFailure,
    LinkedLibrary,
};
use contract_deployer::hex::hex_encode_to_vec;

fn bytes(hex: &str) -> Vec<u8> {
    (0..hex.len() / 2).map(|i| u8::from_str_radix(&hex[2 * i..2 * i + 2], 16).unwrap()).collect()
}

fn refs(file: &str, contract: &str, offsets: Vec<(usize, usize)>) -> Vec<FileLinks> {
    vec![FileLinks {
        file_name: file.to_string(),
        contracts: vec![ContractLinks { contract_name: contract.to_string(), references: offsets }],
    }]
}

fn library(name: &str, fill: u8) -> LinkedLibrary {
    LinkedLibrary { name: name.to_string(), address: [fill; 20] }
}

const PLACEHOLDER: &str = "__$0123456789abcdef0123456789abcdef$__";

#[test]
fn salt_is_the_hash_of_the_name() {
    assert_eq!(get_salt("WETH9").to_vec(), bytes("1c3e8a2387da36e303be346ec5bfadc2d93e4122713077a81734cff5587b06da"));
    assert_eq!(
        get_salt("UniswapV2Factory").to_vec(),
        bytes("994557767e23d1d72af42290b3c211d475f2f9b9ee36150f641f641d0a9f625d")
    );
    assert_eq!(get_salt("").to_vec(), bytes("c5d2460186f7233c927e7db2dcc703c0e500b653ca82273b7bfad8045d85a470"));
}

#[test]
fn random_salts_differ() {
    let first = generate_random_salt();
    let second = generate_random_salt();
    assert_eq!(first.len(), 32);
    assert_ne!(first, second);
}

#[test]
fn hex_encoding_is_lowercase_pairs() {
    assert_eq!(hex_encode_to_vec(&[0x00, 0xab, 0xff, 0x10]), b"00abff10".to_vec());
    assert_eq!(hex_encode_to_vec(&[]), Vec::<u8>::new());
}

#[test]
fn link_writes_the_address_over_the_reference() {
    assert_eq!(PLACEHOLDER.len(), 38);
    let placeholder = format!("{}{}", PLACEHOLDER, "aa");
    let bytecode = format!("0x6080{}6000", placeholder);
    let linked = link_libraries(bytecode.clone(), &refs("Lib.sol", "Lib", vec![(2, 20)]), &vec![library("Lib", 0xab)]);
    let expected = format!("0x6080{}6000", "ab".repeat(20));
    assert_eq!(linked, Ok(expected.clone()));
    assert_eq!(linked.unwrap().len(), bytecode.len());
}

#[test]
fn link_adds_the_prefix() {
    let bytecode = format!("6080{}", "00".repeat(20));
    let linked = link_libraries(bytecode, &refs("Lib.sol", "Lib", vec![(2, 20)]), &vec![library("Lib", 0x01)]);
    assert_eq!(linked, Ok(format!("0x6080{}", "01".repeat(20))));
}

#[test]
fn link_without_references_only_normalises_the_prefix() {
    assert_eq!(link_libraries("0x6080".to_string(), &vec![], &vec![]), Ok("0x6080".to_string()));
    assert_eq!(link_libraries("6080".to_string(), &vec![], &vec![]), Ok("0x6080".to_string()));
    assert_eq!(link_libraries("".to_string(), &vec![], &vec![]), Ok("0x".to_string()));
}

#[test]
fn link_every_reference_of_a_contract() {
    let bytecode = format!("{}ff{}", "00".repeat(20), "00".repeat(20));
    let linked = link_libraries(bytecode, &refs("A.sol", "A", vec![(0, 20), (21, 20)]), &vec![library("A", 0x22)]);
    assert_eq!(linked, Ok(format!("0x{}ff{}", "22".repeat(20), "22".repeat(20))));
}

#[test]
fn link_several_files_and_contracts() {
    let bytecode = format!("{}{}", "00".repeat(20), "00".repeat(20));
    let files = vec![
        FileLinks {
            file_name: "A.sol".to_string(),
            contracts: vec![ContractLinks { contract_name: "A".to_string(), references: vec![(0, 20)] }],
        },
        FileLinks {
            file_name: "B.sol".to_string(),
            contracts: vec![ContractLinks { contract_name: "B".to_string(), references: vec![(20, 20)] }],
        },
    ];
    let linked = link_libraries(bytecode, &files, &vec![library("B", 0x0b), library("A", 0x0a)]);
    assert_eq!(linked, Ok(format!("0x{}{}", "0a".repeat(20), "0b".repeat(20))));
}

#[test]
fn link_missing_library() {
    let linked = link_libraries("0x6080".to_string(), &refs("Lib.sol", "Lib", vec![(0, 1)]), &vec![library("Other", 1)]);
    assert_eq!(linked, Err("Missing link library name Lib".to_string()));
}

#[test]
fn link_missing_library_without_references() {
    let linked = link_libraries("0x6080".to_string(), &refs("Lib.sol", "Lib", vec![]), &vec![]);
    assert_eq!(linked, Err("Missing link library name Lib".to_string()));
}

#[test]
fn link_reference_out_of_range() {
    let linked = link_libraries("0x6080".to_string(), &refs("Lib.sol", "Lib", vec![(1, 20)]), &vec![library("Lib", 1)]);
    assert_eq!(linked, Err("Link reference out of range: Lib.sol:Lib".to_string()));
}

#[test]
fn link_reference_ending_at_the_end() {
    let linked = link_libraries("0x6080".to_string(), &refs("Lib.sol", "Lib", vec![(1, 1)]), &vec![library("Lib", 0xcd)]);
    assert_eq!(linked, Ok(format!("0x60{}", "cd".repeat(20))));
}

#[test]
fn link_that_would_split_a_character_is_refused() {
    let code = "0é000".as_bytes().to_vec();
    let result = link_bytecode(code, &refs("Lib.sol", "Lib", vec![(0, 1)]), &vec![library("Lib", 1)]);
    assert!(matches!(result, Err(LinkFailure::Panics)));
}

#[test]
fn link_offset_overflow_is_refused() {
    let code = b"0000".to_vec();
    let result = link_bytecode(code, &refs("Lib.sol", "Lib", vec![(usize::MAX, 1)]), &vec![library("Lib", 1)]);
    assert!(matches!(result, Err(LinkFailure::Panics)));
}

#[test]
fn link_keeps_other_characters() {
    let bytecode = format!("é{}", "00".repeat(20));
    let linked = link_libraries(bytecode, &refs("Lib.sol", "Lib", vec![(1, 20)]), &vec![library("Lib", 0x33)]);
    assert_eq!(linked, Ok(format!("0xé{}", "33".repeat(20))));
}

#[test]
fn link_prefix_is_optional() {
    let body = format!("60{}00", "00".repeat(20));
    let files = refs("Lib.sol", "Lib", vec![(1, 20)]);
    let libs = vec![library("Lib", 0x5a)];
    let with_prefix = link_libraries(format!("0x{}", body), &files, &libs);
    let without_prefix = link_libraries(body, &files, &libs);
    assert_eq!(with_prefix, without_prefix);
    assert_eq!(with_prefix, Ok(format!("0x60{}00", "5a".repeat(20))));
}

#[test]
fn relinking_changes_nothing() {
    let bytecode = format!("0x6080{}60{}00", "00".repeat(20), "11".repeat(20));
    let files = refs("Lib.sol", "Lib", vec![(2, 20), (23, 20)]);
    let libs = vec![library("Lib", 0x9c)];
    let linked = link_libraries(bytecode, &files, &libs).unwrap();
    assert_eq!(linked, format!("0x6080{}60{}00", "9c".repeat(20), "9c".repeat(20)));
    assert_eq!(link_libraries(linked.clone(), &files, &libs), Ok(linked));
}
