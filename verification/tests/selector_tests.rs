use steel::selector::{BlockNumberOrTag, ResolveError, RpcBlockId, SelectorError};

#[test]
fn parse_tags() {
    assert_eq!(BlockNumberOrTag::parse("latest"), Ok(BlockNumberOrTag::Latest));
    assert_eq!(BlockNumberOrTag::parse("parent"), Ok(BlockNumberOrTag::Parent));
    assert_eq!(BlockNumberOrTag::parse("safe"), Ok(BlockNumberOrTag::Safe));
    assert_eq!(BlockNumberOrTag::parse("finalized"), Ok(BlockNumberOrTag::Finalized));
}

#[test]
fn parse_hex_number() {
    // the example scenario: "0xff" resolves to block number 255
    assert_eq!(BlockNumberOrTag::parse("0xff"), Ok(BlockNumberOrTag::Number(255)));
    assert_eq!(BlockNumberOrTag::parse("0x0"), Ok(BlockNumberOrTag::Number(0)));
    assert_eq!(BlockNumberOrTag::parse("0x10"), Ok(BlockNumberOrTag::Number(16)));
    assert_eq!(
        BlockNumberOrTag::parse("0xffffffffffffffff"),
        Ok(BlockNumberOrTag::Number(u64::MAX))
    );
    assert_eq!(BlockNumberOrTag::parse("0xDeadBeef"), Ok(BlockNumberOrTag::Number(0xdead_beef)));
}

#[test]
fn parse_rejects_missing_prefix() {
    // numeric-looking non-hex strings are not silently reinterpreted
    assert_eq!(BlockNumberOrTag::parse("10"), Err(SelectorError::MissingHexPrefix));
    assert_eq!(BlockNumberOrTag::parse(""), Err(SelectorError::MissingHexPrefix));
    assert_eq!(BlockNumberOrTag::parse("Latest"), Err(SelectorError::MissingHexPrefix));
    assert_eq!(BlockNumberOrTag::parse("pending"), Err(SelectorError::MissingHexPrefix));
}

#[test]
fn parse_rejects_bad_digits() {
    assert_eq!(BlockNumberOrTag::parse("0x"), Err(SelectorError::EmptyDigits));
    assert_eq!(BlockNumberOrTag::parse("0xgg"), Err(SelectorError::InvalidDigit));
    assert_eq!(BlockNumberOrTag::parse("0x12z4"), Err(SelectorError::InvalidDigit));
}

#[test]
fn parse_rejects_overflow() {
    assert_eq!(
        BlockNumberOrTag::parse("0x10000000000000000"),
        Err(SelectorError::Overflow)
    );
    // an overflowing prefix with a later bad digit is an invalid-digit error
    assert_eq!(
        BlockNumberOrTag::parse("0x11111111111111111x"),
        Err(SelectorError::InvalidDigit)
    );
}

#[test]
fn resolve_tags() {
    // "latest" resolves to whatever the provider currently reports
    assert_eq!(
        BlockNumberOrTag::Latest.into_rpc_type(7),
        Ok(RpcBlockId::Latest)
    );
    assert_eq!(
        BlockNumberOrTag::Safe.into_rpc_type(7),
        Ok(RpcBlockId::Safe)
    );
    assert_eq!(
        BlockNumberOrTag::Finalized.into_rpc_type(7),
        Ok(RpcBlockId::Finalized)
    );
    assert_eq!(
        BlockNumberOrTag::Number(42).into_rpc_type(7),
        Ok(RpcBlockId::Number(42))
    );
}

#[test]
fn resolve_parent() {
    assert_eq!(
        BlockNumberOrTag::Parent.into_rpc_type(5),
        Ok(RpcBlockId::Number(4))
    );
    // "parent" at height 0 fails: genesis has no parent
    assert_eq!(
        BlockNumberOrTag::Parent.into_rpc_type(0),
        Err(ResolveError::InvalidBlock)
    );
}

#[test]
fn display_round_trips() {
    let cases = [
        BlockNumberOrTag::Latest,
        BlockNumberOrTag::Parent,
        BlockNumberOrTag::Safe,
        BlockNumberOrTag::Finalized,
        BlockNumberOrTag::Number(0),
        BlockNumberOrTag::Number(255),
        BlockNumberOrTag::Number(u64::MAX),
    ];
    for sel in cases {
        let text = sel.display_bytes();
        let s = String::from_utf8(text).unwrap();
        assert_eq!(BlockNumberOrTag::parse(&s), Ok(sel));
    }
    assert_eq!(BlockNumberOrTag::Number(255).display_bytes(), b"0xff".to_vec());
    assert_eq!(BlockNumberOrTag::Latest.display_bytes(), b"latest".to_vec());
}
