use cw721_registry::expiration::{BlockInfo, Expiration};
use cw721_registry::msg::{QueryAnswer, QueryError, QueryMsg};
use cw721_registry::state::{Approval, Cw721Contract, TokenInfo};

const USER: &str = "nibi10vcakmc8g3nvd60c2ejzasnxjqxn6ru65j7cwh";

fn block(height: u64, time: u64) -> BlockInfo {
    BlockInfo { height, time }
}

fn registry() -> Cw721Contract<String> {
    Cw721Contract::new(
        "pe pnft".to_string(),
        "NFT".to_string(),
        USER.to_string(),
    )
}

fn mint(st: &mut Cw721Contract<String>, id: &str, owner: &str, data: &str) {
    st.insert_token(
        id.to_string(),
        TokenInfo {
            owner: owner.to_string(),
            approvals: Vec::new(),
            extension: data.to_string(),
        },
    );
}

#[test]
fn proper_initialization() {
    let mut contract = registry();
    let info = contract.contract_info();
    assert_eq!("pe pnft", info.name);
    assert_eq!("NFT", info.symbol);
    assert_eq!(USER, contract.minter().minter);

    let new_base_uri = "www.baidu.com/".to_string();
    contract.set_base_uri(new_base_uri);
    assert_eq!(Some("www.baidu.com/".to_string()), contract.base_uri());

    mint(&mut contract, "1", USER, "Some data");

    let res = contract
        .query(&block(0, 0), QueryMsg::NftInfo { token_id: 1.to_string() })
        .unwrap();
    let uri = match res {
        QueryAnswer::NftInfo(nft_info) => nft_info.token_uri.unwrap(),
        _ => panic!("wrong answer shape"),
    };
    println!("Token URI: {}", uri);
    assert_eq!("www.baidu.com/1", uri);
}

#[test]
fn locator_prepends_base_uri() {
    let mut st = registry();
    st.set_base_uri("https://x/".to_string());
    mint(&mut st, "1", "a", "d");
    let info = st.nft_info("1".to_string()).unwrap();
    assert_eq!(Some("https://x/1".to_string()), info.token_uri);
    assert_eq!("d", info.extension);
}

#[test]
fn locator_without_base_uri_is_bare_identifier() {
    let mut st = registry();
    mint(&mut st, "42", "a", "d");
    let info = st.nft_info("42".to_string()).unwrap();
    assert_eq!(Some("42".to_string()), info.token_uri);

    let mut st2 = registry();
    st2.set_base_uri(String::new());
    mint(&mut st2, "42", "a", "d");
    let info2 = st2.nft_info("42".to_string()).unwrap();
    assert_eq!(Some("42".to_string()), info2.token_uri);
}

#[test]
fn nft_info_absent_item_is_not_found() {
    let st = registry();
    assert_eq!(Err(QueryError::NotFound), st.nft_info("1".to_string()).map(|_| ()));
    assert_eq!(
        Err(QueryError::NotFound),
        st.owner_of(&block(0, 0), "1".to_string(), false).map(|_| ())
    );
    assert_eq!(
        Err(QueryError::NotFound),
        st.approvals(&block(0, 0), "1".to_string(), false).map(|_| ())
    );
}

#[test]
fn num_tokens_counts_items_and_overwrite_replaces() {
    let mut st = registry();
    assert_eq!(0, st.num_tokens().count);
    mint(&mut st, "1", "a", "d");
    mint(&mut st, "2", "a", "d");
    assert_eq!(2, st.num_tokens().count);
    mint(&mut st, "1", "b", "e");
    assert_eq!(2, st.num_tokens().count);
    let owner = st.owner_of(&block(0, 0), "1".to_string(), false).unwrap();
    assert_eq!("b", owner.owner);
}

#[test]
fn approval_before_expiration_then_not_found_after() {
    let mut st = registry();
    st.insert_token(
        "1".to_string(),
        TokenInfo {
            owner: "a".to_string(),
            approvals: vec![Approval {
                spender: "b".to_string(),
                expires: Expiration::AtHeight(100),
            }],
            extension: "d".to_string(),
        },
    );
    let early = st
        .approval(&block(50, 0), "1".to_string(), "b".to_string(), false)
        .unwrap();
    assert_eq!("b", early.approval.spender);
    assert_eq!(Expiration::AtHeight(100), early.approval.expires);

    let late = st.approval(&block(150, 0), "1".to_string(), "b".to_string(), false);
    assert_eq!(Err(QueryError::NotFound), late.map(|_| ()));
}

#[test]
fn expiration_boundary_counts_as_expired() {
    let mut st = registry();
    st.insert_token(
        "1".to_string(),
        TokenInfo {
            owner: "a".to_string(),
            approvals: vec![Approval {
                spender: "b".to_string(),
                expires: Expiration::AtHeight(100),
            }],
            extension: "d".to_string(),
        },
    );
    // at exactly the expiration height the approval is already expired
    let at = st.approval(&block(100, 0), "1".to_string(), "b".to_string(), false);
    assert_eq!(Err(QueryError::NotFound), at.map(|_| ()));
    // but it is still stored, so asking for expired entries returns it
    let with_expired = st
        .approval(&block(100, 0), "1".to_string(), "b".to_string(), true)
        .unwrap();
    assert_eq!("b", with_expired.approval.spender);

    st.insert_operator("a".to_string(), "c".to_string(), Expiration::AtTime(500));
    let op_at = st.operator(&block(0, 500), "a".to_string(), "c".to_string(), false);
    assert_eq!(Err(QueryError::NotFound), op_at.map(|_| ()));
    let op_before = st
        .operator(&block(0, 499), "a".to_string(), "c".to_string(), false)
        .unwrap();
    assert_eq!(Expiration::AtTime(500), op_before.approval.expires);
}

#[test]
fn owner_of_filters_expired_approvals() {
    let mut st = registry();
    st.insert_token(
        "1".to_string(),
        TokenInfo {
            owner: "a".to_string(),
            approvals: vec![
                Approval { spender: "b".to_string(), expires: Expiration::AtHeight(10) },
                Approval { spender: "c".to_string(), expires: Expiration::Never },
            ],
            extension: "d".to_string(),
        },
    );
    let res = st.owner_of(&block(10, 0), "1".to_string(), false).unwrap();
    assert_eq!("a", res.owner);
    assert_eq!(1, res.approvals.len());
    assert_eq!("c", res.approvals[0].spender);

    let all = st.owner_of(&block(10, 0), "1".to_string(), true).unwrap();
    assert_eq!(2, all.approvals.len());
    assert_eq!("b", all.approvals[0].spender);
}

#[test]
fn approval_duplicate_spender_first_match_answers() {
    let mut st = registry();
    st.insert_token(
        "1".to_string(),
        TokenInfo {
            owner: "a".to_string(),
            approvals: vec![
                Approval { spender: "b".to_string(), expires: Expiration::AtHeight(100) },
                Approval { spender: "b".to_string(), expires: Expiration::AtHeight(200) },
            ],
            extension: "d".to_string(),
        },
    );
    let r = st
        .approval(&block(50, 0), "1".to_string(), "b".to_string(), false)
        .unwrap();
    assert_eq!(Expiration::AtHeight(100), r.approval.expires);
    // once the first entry has expired, the first admitted match answers
    let r2 = st
        .approval(&block(150, 0), "1".to_string(), "b".to_string(), false)
        .unwrap();
    assert_eq!(Expiration::AtHeight(200), r2.approval.expires);
}

#[test]
fn operator_grant_never_expires() {
    let mut st = registry();
    st.insert_operator("a".to_string(), "c".to_string(), Expiration::Never);
    let r = st
        .operator(&block(1_000_000, 0), "a".to_string(), "c".to_string(), false)
        .unwrap();
    assert_eq!("c", r.approval.spender);
    assert_eq!(Expiration::Never, r.approval.expires);
    // absent pair
    let missing = st.operator(&block(0, 0), "a".to_string(), "x".to_string(), false);
    assert_eq!(Err(QueryError::NotFound), missing.map(|_| ()));
}

#[test]
fn operator_overwrite_takes_latest_expiration() {
    let mut st = registry();
    st.insert_operator("a".to_string(), "c".to_string(), Expiration::AtHeight(5));
    st.insert_operator("a".to_string(), "c".to_string(), Expiration::AtHeight(50));
    let r = st
        .operator(&block(10, 0), "a".to_string(), "c".to_string(), false)
        .unwrap();
    assert_eq!(Expiration::AtHeight(50), r.approval.expires);
}

#[test]
fn all_operators_contains_unexpired_grant() {
    let mut st = registry();
    st.insert_operator("a".to_string(), "c".to_string(), Expiration::Never);
    let r = st.operators(&block(0, 0), "a".to_string(), false, None, Some(10));
    assert_eq!(1, r.operators.len());
    assert_eq!("c", r.operators[0].spender);
    assert_eq!(Expiration::Never, r.operators[0].expires);
}

#[test]
fn query_dispatch_defaults_include_expired_to_false() {
    let mut st = registry();
    st.insert_token(
        "1".to_string(),
        TokenInfo {
            owner: "a".to_string(),
            approvals: vec![Approval {
                spender: "b".to_string(),
                expires: Expiration::AtHeight(10),
            }],
            extension: "d".to_string(),
        },
    );
    let res = st
        .query(
            &block(10, 0),
            QueryMsg::OwnerOf { token_id: "1".to_string(), include_expired: None },
        )
        .unwrap();
    match res {
        QueryAnswer::OwnerOf(o) => assert_eq!(0, o.approvals.len()),
        _ => panic!("wrong answer shape"),
    }
    let res2 = st
        .query(
            &block(10, 0),
            QueryMsg::OwnerOf { token_id: "1".to_string(), include_expired: Some(true) },
        )
        .unwrap();
    match res2 {
        QueryAnswer::OwnerOf(o) => assert_eq!(1, o.approvals.len()),
        _ => panic!("wrong answer shape"),
    }
}

#[test]
fn repeated_query_is_byte_identical() {
    let mut st = registry();
    st.set_base_uri("https://x/".to_string());
    mint(&mut st, "1", "a", "d");
    mint(&mut st, "2", "a", "e");
    st.insert_operator("a".to_string(), "c".to_string(), Expiration::Never);

    let b = block(7, 7);
    let first = st.tokens("a".to_string(), None, None);
    let second = st.tokens("a".to_string(), None, None);
    assert_eq!(first, second);

    let i1 = st.nft_info("1".to_string()).unwrap();
    let i2 = st.nft_info("1".to_string()).unwrap();
    assert_eq!(i1, i2);

    let o1 = st.operators(&b, "a".to_string(), false, None, None);
    let o2 = st.operators(&b, "a".to_string(), false, None, None);
    assert_eq!(o1, o2);
}

#[test]
fn query_dispatch_covers_every_arm() {
    let mut st = registry();
    assert!(matches!(
        st.query(&block(0, 0), QueryMsg::BaseUri {}),
        Ok(QueryAnswer::BaseUri(None))
    ));
    st.set_base_uri("https://x/".to_string());
    st.insert_token(
        "1".to_string(),
        TokenInfo {
            owner: "a".to_string(),
            approvals: vec![Approval { spender: "b".to_string(), expires: Expiration::Never }],
            extension: "d".to_string(),
        },
    );
    st.insert_operator("a".to_string(), "c".to_string(), Expiration::Never);
    let b = block(1, 1);

    match st.query(&b, QueryMsg::Minter {}).unwrap() {
        QueryAnswer::Minter(m) => assert_eq!(USER, m.minter),
        _ => panic!("wrong answer shape"),
    }
    match st.query(&b, QueryMsg::ContractInfo {}).unwrap() {
        QueryAnswer::ContractInfo(c) => {
            assert_eq!("pe pnft", c.name);
            assert_eq!("NFT", c.symbol);
        }
        _ => panic!("wrong answer shape"),
    }
    match st.query(&b, QueryMsg::BaseUri {}).unwrap() {
        QueryAnswer::BaseUri(u) => assert_eq!(Some("https://x/".to_string()), u),
        _ => panic!("wrong answer shape"),
    }
    match st.query(&b, QueryMsg::NumTokens {}).unwrap() {
        QueryAnswer::NumTokens(n) => assert_eq!(1, n.count),
        _ => panic!("wrong answer shape"),
    }
    match st
        .query(&b, QueryMsg::Tokens { owner: "a".to_string(), start_after: None, limit: None })
        .unwrap()
    {
        QueryAnswer::Tokens(t) => assert_eq!(vec!["1".to_string()], t.tokens),
        _ => panic!("wrong answer shape"),
    }
    match st.query(&b, QueryMsg::AllTokens { start_after: None, limit: None }).unwrap() {
        QueryAnswer::Tokens(t) => assert_eq!(vec!["1".to_string()], t.tokens),
        _ => panic!("wrong answer shape"),
    }
    match st
        .query(
            &b,
            QueryMsg::AllOperators {
                owner: "a".to_string(),
                include_expired: None,
                start_after: None,
                limit: None,
            },
        )
        .unwrap()
    {
        QueryAnswer::Operators(o) => assert_eq!("c", o.operators[0].spender),
        _ => panic!("wrong answer shape"),
    }
    match st
        .query(
            &b,
            QueryMsg::Approval {
                token_id: "1".to_string(),
                spender: "b".to_string(),
                include_expired: None,
            },
        )
        .unwrap()
    {
        QueryAnswer::Approval(a) => assert_eq!("b", a.approval.spender),
        _ => panic!("wrong answer shape"),
    }
    match st
        .query(&b, QueryMsg::Approvals { token_id: "1".to_string(), include_expired: None })
        .unwrap()
    {
        QueryAnswer::Approvals(a) => assert_eq!(1, a.approvals.len()),
        _ => panic!("wrong answer shape"),
    }
    match st
        .query(&b, QueryMsg::AllNftInfo { token_id: "1".to_string(), include_expired: None })
        .unwrap()
    {
        QueryAnswer::AllNftInfo(a) => {
            assert_eq!("a", a.access.owner);
            assert_eq!(Some("https://x/1".to_string()), a.info.token_uri);
        }
        _ => panic!("wrong answer shape"),
    }
    let missing = st.query(&b, QueryMsg::NftInfo { token_id: "9".to_string() });
    assert!(matches!(missing, Err(QueryError::NotFound)));
}

#[test]
fn all_nft_info_combines_access_and_info() {
    let mut st = registry();
    st.set_base_uri("https://x/".to_string());
    st.insert_token(
        "1".to_string(),
        TokenInfo {
            owner: "a".to_string(),
            approvals: vec![Approval { spender: "b".to_string(), expires: Expiration::Never }],
            extension: "payload".to_string(),
        },
    );
    let r = st.all_nft_info(&block(0, 0), "1".to_string(), false).unwrap();
    assert_eq!("a", r.access.owner);
    assert_eq!(1, r.access.approvals.len());
    assert_eq!(Some("https://x/1".to_string()), r.info.token_uri);
    assert_eq!("payload", r.info.extension);
}
