use cw721_registry::expiration::{BlockInfo, Expiration};
use cw721_registry::state::{Cw721Contract, TokenInfo};

fn block(height: u64, time: u64) -> BlockInfo {
    BlockInfo { height, time }
}

fn registry() -> Cw721Contract<String> {
    Cw721Contract::new("pe pnft".to_string(), "NFT".to_string(), "m".to_string())
}

fn mint(st: &mut Cw721Contract<String>, id: &str, owner: &str) {
    st.insert_token(
        id.to_string(),
        TokenInfo {
            owner: owner.to_string(),
            approvals: Vec::new(),
            extension: String::new(),
        },
    );
}

#[test]
fn tokens_after_is_exclusive() {
    let mut st = registry();
    mint(&mut st, "1", "a");
    mint(&mut st, "2", "a");
    mint(&mut st, "3", "a");
    let r = st.tokens("a".to_string(), Some("1".to_string()), Some(10));
    assert_eq!(vec!["2".to_string(), "3".to_string()], r.tokens);
}

#[test]
fn tokens_only_lists_the_owner() {
    let mut st = registry();
    mint(&mut st, "1", "a");
    mint(&mut st, "2", "b");
    mint(&mut st, "3", "a");
    let r = st.tokens("a".to_string(), None, None);
    assert_eq!(vec!["1".to_string(), "3".to_string()], r.tokens);
    let r_b = st.tokens("b".to_string(), None, None);
    assert_eq!(vec!["2".to_string()], r_b.tokens);
    let r_none = st.tokens("c".to_string(), None, None);
    assert_eq!(0, r_none.tokens.len());
}

#[test]
fn default_limit_is_ten_and_cap_is_thirty() {
    let mut st = registry();
    for i in 0..35u32 {
        mint(&mut st, &format!("t{:02}", i), "a");
    }
    let default = st.tokens("a".to_string(), None, None);
    assert_eq!(10, default.tokens.len());
    assert_eq!("t00", default.tokens[0]);
    assert_eq!("t09", default.tokens[9]);

    let clamped = st.tokens("a".to_string(), None, Some(100));
    assert_eq!(30, clamped.tokens.len());
    assert_eq!("t29", clamped.tokens[29]);

    let small = st.tokens("a".to_string(), None, Some(3));
    assert_eq!(3, small.tokens.len());

    let all = st.all_tokens(None, Some(100));
    assert_eq!(30, all.tokens.len());
}

#[test]
fn exhaustive_pagination_reaches_every_item_once() {
    let mut st = registry();
    for i in 0..23u32 {
        mint(&mut st, &format!("t{:02}", i), "a");
    }
    mint(&mut st, "zz", "someone-else");
    let mut seen: Vec<String> = Vec::new();
    let mut after: Option<String> = None;
    loop {
        let page = st.tokens("a".to_string(), after.clone(), Some(7)).tokens;
        let done = page.len() < 7;
        for id in page {
            // strictly ascending across pages: no repeats, no going back
            if let Some(last) = seen.last() {
                assert!(last < &id);
            }
            seen.push(id);
        }
        if done {
            break;
        }
        after = seen.last().cloned();
    }
    let expected: Vec<String> = (0..23u32).map(|i| format!("t{:02}", i)).collect();
    assert_eq!(expected, seen);
}

#[test]
fn all_tokens_walks_the_global_order() {
    let mut st = registry();
    mint(&mut st, "b", "1st-owner");
    mint(&mut st, "a", "2nd-owner");
    mint(&mut st, "c", "1st-owner");
    let r = st.all_tokens(None, None);
    assert_eq!(vec!["a".to_string(), "b".to_string(), "c".to_string()], r.tokens);
    let rest = st.all_tokens(Some("a".to_string()), None);
    assert_eq!(vec!["b".to_string(), "c".to_string()], rest.tokens);
}

#[test]
fn expired_grants_do_not_consume_page_slots() {
    let mut st = registry();
    st.insert_operator("a".to_string(), "c1".to_string(), Expiration::AtHeight(5));
    st.insert_operator("a".to_string(), "c2".to_string(), Expiration::Never);
    st.insert_operator("a".to_string(), "c3".to_string(), Expiration::Never);
    st.insert_operator("a".to_string(), "c4".to_string(), Expiration::Never);
    // c1 has expired at height 10; with a page of two, filtering happens
    // before the limit, so the page holds the first two live grants
    let r = st.operators(&block(10, 0), "a".to_string(), false, None, Some(2));
    assert_eq!(2, r.operators.len());
    assert_eq!("c2", r.operators[0].spender);
    assert_eq!("c3", r.operators[1].spender);

    let with_expired = st.operators(&block(10, 0), "a".to_string(), true, None, Some(2));
    assert_eq!("c1", with_expired.operators[0].spender);
    assert_eq!("c2", with_expired.operators[1].spender);
}

#[test]
fn operators_pagination_bound_and_owner_prefix() {
    let mut st = registry();
    st.insert_operator("a".to_string(), "c1".to_string(), Expiration::Never);
    st.insert_operator("a".to_string(), "c2".to_string(), Expiration::Never);
    st.insert_operator("b".to_string(), "c9".to_string(), Expiration::Never);
    let r = st.operators(&block(0, 0), "a".to_string(), false, Some("c1".to_string()), None);
    assert_eq!(1, r.operators.len());
    assert_eq!("c2", r.operators[0].spender);
}
