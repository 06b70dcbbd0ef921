use amenhotep::error::ParserError;
use amenhotep::event::{split_signature, CairoArgument, CairoEvent};
use amenhotep::naming::{capitalize, is_cairo_file, stem_of, unit_name_of};
use amenhotep::scanner::{parse_cairo_source, CairoStorage, Identifier, StorageOutcome};
use amenhotep::types::CairoType;

fn lines(src: &[&str]) -> Vec<String> {
    src.iter().map(|l| l.to_string()).collect()
}

fn map(k: CairoType, v: CairoType) -> CairoType {
    CairoType::LegacyMap(Box::new(k), Box::new(v))
}

#[test]
fn test_parse_cairo_type() {
    let types = [
        "        _name: felt252,".to_owned(),
        "        _symbol: felt252,".to_owned(),
        "        _initial_supply: u256,".to_owned(),
        "        _total_supply: u256,".to_owned(),
        "        _balances: LegacyMap<ContractAddress, u256>,".to_owned(),
        "        _allowances: LegacyMap<(ContractAddress, ContractAddress), u256>,".to_owned(),
        "        _reference: ContractAddress,".to_owned(),
        "        _target: ContractAddress,".to_owned(),
        "        _intrication: u64,".to_owned(),
        "        _intrications: LegacyMap<ContractAddress, u64>,".to_owned(),
    ];

    let cairo_type = CairoStorage::from_lines(&types.to_vec());
    // A tuple key is not part of the type model: the block is rejected.
    assert_eq!(
        cairo_type,
        Err(ParserError::UnknownType("(ContractAddress".to_string()))
    );
}

#[test]
fn storage_fields_in_order() {
    let block = lines(&[
        "        _name: felt252,",
        "        // a comment line",
        "        _balances: LegacyMap<ContractAddress, u256>,",
        "        _intrication: u64,",
    ]);
    let st = CairoStorage::from_lines(&block).unwrap();
    assert_eq!(
        st.fields,
        vec![
            (Identifier("_name".to_string()), CairoType::Felt252),
            (
                Identifier("_balances".to_string()),
                map(CairoType::ContractAddress, CairoType::U256)
            ),
            (Identifier("_intrication".to_string()), CairoType::U64),
        ]
    );
}

#[test]
fn signature_two_arguments_in_order() {
    let e = CairoEvent::from_signature("fn Approval(owner: ContractAddress, amount: u128)").unwrap();
    assert_eq!(e.name, "Approval");
    assert_eq!(
        e.arguments,
        vec![
            CairoArgument::new("owner".to_string(), CairoType::ContractAddress),
            CairoArgument::new("amount".to_string(), CairoType::U128),
        ]
    );
    assert_eq!(e.definition_at, 0);
    assert!(e.emitted_at.is_empty());
}

#[test]
fn signature_without_arguments() {
    let e = CairoEvent::from_signature("    fn Paused() {}").unwrap();
    assert_eq!(e.name, "Paused");
    assert!(e.arguments.is_empty());
}

#[test]
fn signature_malformed() {
    let r = CairoEvent::from_signature("struct Transfer { a: u8 }");
    assert_eq!(
        r.unwrap_err(),
        ParserError::MalformedSignature("struct Transfer { a: u8 }".to_string())
    );
    assert!(CairoEvent::from_signature("fn (a: u8)").is_err());
    assert!(CairoEvent::from_signature("fn Transfer(a: u8").is_err());
}

#[test]
fn argument_without_separator() {
    let r = CairoEvent::from_signature("fn Transfer(a u8)");
    assert_eq!(
        r.unwrap_err(),
        ParserError::MissingArgumentSeparator("a u8".to_string())
    );
}

#[test]
fn argument_with_unknown_type() {
    let r = CairoEvent::from_signature("fn Transfer(a: bool)");
    assert_eq!(r.unwrap_err(), ParserError::UnknownType("bool".to_string()));
}

#[test]
fn primitives_resolve_exactly() {
    let cases = [
        ("felt252", CairoType::Felt252),
        ("ContractAddress", CairoType::ContractAddress),
        ("u8", CairoType::U8),
        ("u16", CairoType::U16),
        ("u32", CairoType::U32),
        ("u64", CairoType::U64),
        ("u128", CairoType::U128),
        ("u256", CairoType::U256),
    ];
    for (token, ty) in cases {
        assert_eq!(CairoType::from_token(token), Ok(ty));
    }
    assert_eq!(CairoType::from_token("  u8 "), Ok(CairoType::U8));
    assert_eq!(CairoType::from_token("u8"), CairoType::from_token("u8"));
}

#[test]
fn primitives_no_partial_match() {
    assert!(CairoType::from_token("u88").is_err());
    assert!(CairoType::from_token("u6").is_err());
    assert!(CairoType::from_token("U8").is_err());
    assert!(CairoType::from_token("felt").is_err());
    assert!(CairoType::from_token("").is_err());
    assert_eq!(
        CairoType::from_token("u2560"),
        Err(ParserError::UnknownType("u2560".to_string()))
    );
}

#[test]
fn map_type_resolves() {
    assert_eq!(
        CairoType::from_token("LegacyMap<ContractAddress, u256>"),
        Ok(map(CairoType::ContractAddress, CairoType::U256))
    );
}

#[test]
fn nested_map_type_resolves() {
    assert_eq!(
        CairoType::from_token("LegacyMap<ContractAddress, LegacyMap<ContractAddress, u256>>"),
        Ok(map(
            CairoType::ContractAddress,
            map(CairoType::ContractAddress, CairoType::U256)
        ))
    );
}

#[test]
fn tuple_key_map_rejected() {
    assert!(CairoType::from_token("LegacyMap<(ContractAddress, ContractAddress), u256>").is_err());
    assert!(CairoType::from_token("LegacyMap<u8>").is_err());
}

#[test]
fn type_rendering() {
    assert_eq!(CairoType::Felt252.to_string(), "String!");
    assert_eq!(CairoType::U16.to_string(), "Int!");
    assert_eq!(
        map(CairoType::ContractAddress, CairoType::U32).to_string(),
        "Map!(String!, Int!)"
    );
}

#[test]
fn trailing_event_marker_yields_no_event() {
    let src = lines(&["mod Token {", "}", "#[event]"]);
    let d = parse_cairo_source("Token.cairo", &src).unwrap();
    assert!(d.events.is_empty());
}

#[test]
fn unclosed_storage_keeps_earlier_events() {
    let src = lines(&[
        "#[event]",
        "fn Minted(to: ContractAddress)",
        "struct Storage {",
        "    a: felt252,",
        "#[event]",
        "fn Burned(from: ContractAddress)",
    ]);
    let d = parse_cairo_source("src/Token.cairo", &src).unwrap();
    assert_eq!(d.storage, StorageOutcome::Unclosed);
    assert_eq!(d.events.len(), 1);
    assert_eq!(d.events[0].name, "Minted");
    assert_eq!(d.events[0].definition_at, 2);
}

#[test]
fn end_to_end_token_file() {
    let src = lines(&[
        "#[starknet::contract]",
        "mod Token {",
        "    #[storage]",
        "    struct Storage {",
        "        name: felt252,",
        "        symbol: felt252,",
        "    }",
        "",
        "    #[constructor]",
        "    fn constructor(ref self: ContractState) {}",
        "    #[event]",
        "    fn Transfer(from: ContractAddress, to: ContractAddress, value: u256) {}",
        "}",
    ]);
    let d = parse_cairo_source("contracts/Token.contract", &src).unwrap();
    assert_eq!(d.name, "Token");
    assert_eq!(d.events.len(), 1);
    let e = &d.events[0];
    assert_eq!(e.name, "Transfer");
    assert_eq!(e.definition_at, 12);
    assert_eq!(
        e.arguments,
        vec![
            CairoArgument::new("from".to_string(), CairoType::ContractAddress),
            CairoArgument::new("to".to_string(), CairoType::ContractAddress),
            CairoArgument::new("value".to_string(), CairoType::U256),
        ]
    );
    assert_eq!(
        d.storage,
        StorageOutcome::Closed(CairoStorage {
            fields: vec![
                (Identifier("name".to_string()), CairoType::Felt252),
                (Identifier("symbol".to_string()), CairoType::Felt252),
            ]
        })
    );
}

#[test]
fn two_files_independent_units() {
    let a = lines(&["#[event]", "fn Transfer(a: u8)"]);
    let b = lines(&["#[event]", "fn Approval(b: u16)", "#[event]", "fn Paused()"]);
    let da = parse_cairo_source("a.cairo", &a).unwrap();
    let db = parse_cairo_source("b.cairo", &b).unwrap();
    assert_eq!(da.name, "A");
    assert_eq!(db.name, "B");
    let na: Vec<&str> = da.events.iter().map(|e| e.name.as_str()).collect();
    let nb: Vec<&str> = db.events.iter().map(|e| e.name.as_str()).collect();
    assert_eq!(na, vec!["Transfer"]);
    assert_eq!(nb, vec!["Approval", "Paused"]);
    assert_eq!(db.events[1].definition_at, 4);
}

#[test]
fn bad_signature_aborts_file() {
    let src = lines(&["#[event]", "let x = 1;"]);
    assert!(parse_cairo_source("a.cairo", &src).is_err());
    let bad_storage = lines(&["struct Storage {", "  a: bool,", "}"]);
    assert_eq!(
        parse_cairo_source("a.cairo", &bad_storage).unwrap_err(),
        ParserError::UnknownType("bool".to_string())
    );
}

#[test]
fn second_storage_marker_ignored() {
    let src = lines(&[
        "struct Storage {",
        "  a: u8,",
        "}",
        "struct Storage {",
        "  b: bool,",
        "}",
    ]);
    let d = parse_cairo_source("a.cairo", &src).unwrap();
    assert_eq!(
        d.storage,
        StorageOutcome::Closed(CairoStorage {
            fields: vec![(Identifier("a".to_string()), CairoType::U8)]
        })
    );
}

#[test]
fn file_names() {
    assert_eq!(stem_of("dir/sub/token.cairo"), "token");
    assert_eq!(stem_of(".hidden"), ".hidden");
    assert_eq!(unit_name_of("dir/erc20.cairo"), "Erc20");
    assert_eq!(capitalize("token"), "Token");
    assert_eq!(capitalize("ßeta"), "SSeta");
    assert_eq!(capitalize(""), "");
    assert_eq!(is_cairo_file("a/b.cairo"), Ok(true));
    assert_eq!(
        is_cairo_file("a/b.rs"),
        Err(ParserError::InvalidFileExtension)
    );
    assert_eq!(
        is_cairo_file("a.cairo/b"),
        Err(ParserError::InvalidFileExtension)
    );
}

#[test]
fn signature_agrees_with_regex() {
    let re = regex::Regex::new(r"(fn )(?<fn_name>[a-zA-Z]+)\((?<args>.*)\)").unwrap();
    let samples = [
        "fn Transfer(from: ContractAddress, to: ContractAddress, value: u256)",
        "    fn Approval(owner: ContractAddress) {}",
        "fn 1x() fn Ok(a: u8)",
        "fn Ab(c) (d)",
        "fn A2(x)",
        "nothing here",
        "fn Open(",
    ];
    for s in samples {
        let ours = split_signature(s);
        let theirs = re.captures(s).map(|c| {
            (
                c.name("fn_name").unwrap().as_str().to_string(),
                c.name("args").unwrap().as_str().to_string(),
            )
        });
        assert_eq!(ours, theirs, "line {:?}", s);
    }
}

#[test]
fn error_payloads_name_the_offender() {
    assert_eq!(
        CairoType::from_token(" LegacyMap<ContractAddress, bool> "),
        Err(ParserError::UnknownType("bool".to_string()))
    );
    assert_eq!(
        CairoType::from_token("LegacyMap<u8 u16>"),
        Err(ParserError::UnknownType("LegacyMap<u8 u16>".to_string()))
    );
    let src = lines(&["#[event]", "fn Ok(a: u8)", "#[event]", "fn Bad(a u8, b: u8)"]);
    assert_eq!(
        parse_cairo_source("a.cairo", &src).unwrap_err(),
        ParserError::MissingArgumentSeparator("a u8".to_string())
    );
    let src = lines(&["#[event]", "  pub struct X {}"]);
    assert_eq!(
        parse_cairo_source("a.cairo", &src).unwrap_err(),
        ParserError::MalformedSignature("  pub struct X {}".to_string())
    );
}

#[test]
fn trailing_slash_and_one_letter_names() {
    assert_eq!(is_cairo_file("d/x.cairo/"), Ok(true));
    assert_eq!(stem_of("d/Token.cairo//"), "Token");
    assert_eq!(unit_name_of("d/a.cairo"), "A");
    assert_eq!(unit_name_of("d/.cairo"), ".cairo");
}
