use token_voting::error::Error;
use token_voting::storage::read_u128;
use token_voting::token::{
    handle, init, is_valid_name, is_valid_symbol, query, Constants, HandleMsg, InitMsg,
    InitialBalance, QueryAnswer, QueryMsg,
};
use token_voting::types::{BlockInfo, Coin, ContractInfo, Env, MessageInfo};

fn mock_env(sender: &str, sent: Vec<Coin>) -> Env {
    Env {
        message: MessageInfo { sender: sender.to_string(), sent_funds: sent },
        block: BlockInfo { height: 12_345 },
        contract: ContractInfo { address: "cosmos2contract".to_string() },
    }
}

fn row(address: &str, amount: &str) -> InitialBalance {
    InitialBalance { address: address.to_string(), amount: amount.to_string() }
}

fn init_msg(rows: Vec<InitialBalance>) -> InitMsg {
    InitMsg {
        name: "Cash Token".to_string(),
        symbol: "CASH".to_string(),
        decimals: 8,
        initial_balances: rows,
    }
}

fn balance_of(store: &cosmwasm_std::MemoryStorage, address: &str) -> u128 {
    match query(store, QueryMsg::Balance { address: address.to_string() }).unwrap() {
        QueryAnswer::Balance(b) => b.balance.parse().unwrap(),
        _ => panic!("Unexpected query answer"),
    }
}

fn allowance_of(store: &cosmwasm_std::MemoryStorage, owner: &str, spender: &str) -> u128 {
    let msg = QueryMsg::Allowance { owner: owner.to_string(), spender: spender.to_string() };
    match query(store, msg).unwrap() {
        QueryAnswer::Allowance(a) => a.allowance.parse().unwrap(),
        _ => panic!("Unexpected query answer"),
    }
}

#[test]
fn init_credits_initial_balances() {
    let env = mock_env("minter0", vec![]);
    let msg = init_msg(vec![row("addr0001", "11"), row("addr0002", "22")]);
    let (store, state, res) = init(&env, &msg).unwrap();
    assert_eq!(res.messages.len(), 0);
    assert_eq!(state.minter, "minter0".to_string());
    assert_eq!(balance_of(&store, "addr0001"), 11);
    assert_eq!(balance_of(&store, "addr0002"), 22);
    assert_eq!(balance_of(&store, "addr0003"), 0);
}

#[test]
fn init_credits_duplicate_addresses() {
    let env = mock_env("minter0", vec![]);
    let msg = init_msg(vec![row("addr0001", "10"), row("addr0001", "5")]);
    let (store, _state, _res) = init(&env, &msg).unwrap();
    assert_eq!(balance_of(&store, "addr0001"), 15);
}

#[test]
fn init_rejects_bad_name() {
    let env = mock_env("minter0", vec![]);
    let mut msg = init_msg(vec![]);
    msg.name = "CC".to_string();
    match init(&env, &msg) {
        Err(e) => {
            assert_eq!(e, Error::InvalidName);
            assert_eq!(e.message(), "Name is not in the expected format (3-30 UTF-8 bytes)");
        },
        Ok(_) => panic!("Must return error"),
    }
}

#[test]
fn init_rejects_bad_symbol() {
    let env = mock_env("minter0", vec![]);
    let mut msg = init_msg(vec![]);
    msg.symbol = "cash".to_string();
    match init(&env, &msg) {
        Err(e) => assert_eq!(e.message(), "Ticker symbol is not in expected format [A-Z]{3,6}"),
        Ok(_) => panic!("Must return error"),
    }
}

#[test]
fn init_rejects_bad_decimals() {
    let env = mock_env("minter0", vec![]);
    let mut msg = init_msg(vec![]);
    msg.decimals = 19;
    match init(&env, &msg) {
        Err(e) => assert_eq!(e.message(), "Decimals must not exceed 18"),
        Ok(_) => panic!("Must return error"),
    }
}

#[test]
fn init_rejects_bad_amount() {
    let env = mock_env("minter0", vec![]);
    let msg = init_msg(vec![row("addr0001", "notanumber")]);
    match init(&env, &msg) {
        Err(e) => assert_eq!(e, Error::InvalidAmount),
        Ok(_) => panic!("Must return error"),
    }
}

#[test]
fn transfer_moves_funds() {
    let env = mock_env("addr0001", vec![]);
    let msg = init_msg(vec![row("addr0001", "11"), row("addr0002", "22")]);
    let (mut store, mut state, _res) = init(&env, &msg).unwrap();

    let transfer = HandleMsg::Transfer { recipient: "addr0002".to_string(), amount: "4".to_string() };
    let res = handle(&mut store, &mut state, &env, transfer).unwrap();
    assert_eq!(res.messages.len(), 0);
    assert_eq!(balance_of(&store, "addr0001"), 7);
    assert_eq!(balance_of(&store, "addr0002"), 26);
}

#[test]
fn transfer_rejects_insufficient_funds() {
    let env = mock_env("addr0001", vec![]);
    let msg = init_msg(vec![row("addr0001", "11")]);
    let (mut store, mut state, _res) = init(&env, &msg).unwrap();

    let transfer = HandleMsg::Transfer { recipient: "addr0002".to_string(), amount: "12".to_string() };
    match handle(&mut store, &mut state, &env, transfer) {
        Err(e) => assert_eq!(e.message(), "Insufficient funds: balance=11, required=12"),
        Ok(_) => panic!("Must return error"),
    }
    assert_eq!(balance_of(&store, "addr0001"), 11);
    assert_eq!(balance_of(&store, "addr0002"), 0);
}

#[test]
fn transfer_to_self_changes_nothing() {
    let env = mock_env("addr0001", vec![]);
    let msg = init_msg(vec![row("addr0001", "11")]);
    let (mut store, mut state, _res) = init(&env, &msg).unwrap();

    let transfer = HandleMsg::Transfer { recipient: "addr0001".to_string(), amount: "3".to_string() };
    handle(&mut store, &mut state, &env, transfer).unwrap();
    assert_eq!(balance_of(&store, "addr0001"), 11);
}

#[test]
fn approve_overwrites_allowance() {
    let env = mock_env("addr0001", vec![]);
    let msg = init_msg(vec![row("addr0001", "11")]);
    let (mut store, mut state, _res) = init(&env, &msg).unwrap();

    let approve = HandleMsg::Approve { spender: "addr0002".to_string(), amount: "5".to_string() };
    handle(&mut store, &mut state, &env, approve).unwrap();
    assert_eq!(allowance_of(&store, "addr0001", "addr0002"), 5);

    // approve overwrites, never adds
    let approve = HandleMsg::Approve { spender: "addr0002".to_string(), amount: "3".to_string() };
    handle(&mut store, &mut state, &env, approve).unwrap();
    assert_eq!(allowance_of(&store, "addr0001", "addr0002"), 3);
}

#[test]
fn transfer_from_spends_allowance() {
    let owner_env = mock_env("addr0001", vec![]);
    let msg = init_msg(vec![row("addr0001", "11")]);
    let (mut store, mut state, _res) = init(&owner_env, &msg).unwrap();

    let approve = HandleMsg::Approve { spender: "addr0003".to_string(), amount: "5".to_string() };
    handle(&mut store, &mut state, &owner_env, approve).unwrap();

    let spender_env = mock_env("addr0003", vec![]);
    let transfer_from = HandleMsg::TransferFrom {
        owner: "addr0001".to_string(),
        recipient: "addr0002".to_string(),
        amount: "4".to_string(),
    };
    handle(&mut store, &mut state, &spender_env, transfer_from).unwrap();
    assert_eq!(allowance_of(&store, "addr0001", "addr0003"), 1);
    assert_eq!(balance_of(&store, "addr0001"), 7);
    assert_eq!(balance_of(&store, "addr0002"), 4);
}

#[test]
fn transfer_from_rejects_excess() {
    let owner_env = mock_env("addr0001", vec![]);
    let msg = init_msg(vec![row("addr0001", "11")]);
    let (mut store, mut state, _res) = init(&owner_env, &msg).unwrap();

    let approve = HandleMsg::Approve { spender: "addr0003".to_string(), amount: "5".to_string() };
    handle(&mut store, &mut state, &owner_env, approve).unwrap();

    let spender_env = mock_env("addr0003", vec![]);
    let transfer_from = HandleMsg::TransferFrom {
        owner: "addr0001".to_string(),
        recipient: "addr0002".to_string(),
        amount: "6".to_string(),
    };
    match handle(&mut store, &mut state, &spender_env, transfer_from) {
        Err(e) => assert_eq!(e.message(), "Insufficient allowance: allowance=5, required=6"),
        Ok(_) => panic!("Must return error"),
    }
    // nothing moved
    assert_eq!(allowance_of(&store, "addr0001", "addr0003"), 5);
    assert_eq!(balance_of(&store, "addr0001"), 11);
    assert_eq!(balance_of(&store, "addr0002"), 0);
}

#[test]
fn burn_reduces_balance_and_supply() {
    let env = mock_env("addr0001", vec![]);
    let msg = init_msg(vec![row("addr0001", "11")]);
    let (mut store, mut state, _res) = init(&env, &msg).unwrap();

    let burn = HandleMsg::Burn { amount: "4".to_string() };
    handle(&mut store, &mut state, &env, burn).unwrap();
    assert_eq!(balance_of(&store, "addr0001"), 7);

    let burn = HandleMsg::Burn { amount: "8".to_string() };
    match handle(&mut store, &mut state, &env, burn) {
        Err(e) => assert_eq!(e.message(), "insufficient funds to burn: balance=7, required=8"),
        Ok(_) => panic!("Must return error"),
    }
    assert_eq!(balance_of(&store, "addr0001"), 7);
}

#[test]
fn mint_requires_minter() {
    let minter_env = mock_env("minter0", vec![]);
    let msg = init_msg(vec![row("addr0001", "11")]);
    let (mut store, mut state, _res) = init(&minter_env, &msg).unwrap();

    let mint = HandleMsg::Mint { recipient: "addr0002".to_string(), amount: "9".to_string() };
    handle(&mut store, &mut state, &minter_env, mint).unwrap();
    assert_eq!(balance_of(&store, "addr0002"), 9);

    // minting by any account other than the recorded minter is rejected
    // and leaves balances unchanged
    let thief_env = mock_env("addr0001", vec![]);
    let mint = HandleMsg::Mint { recipient: "addr0001".to_string(), amount: "9999".to_string() };
    match handle(&mut store, &mut state, &thief_env, mint) {
        Err(e) => assert_eq!(e, Error::Unauthorized),
        Ok(_) => panic!("Must return error"),
    }
    assert_eq!(balance_of(&store, "addr0001"), 11);
    assert_eq!(balance_of(&store, "addr0002"), 9);
}

#[test]
fn transfer_rejects_malformed_amount() {
    let env = mock_env("addr0001", vec![]);
    let msg = init_msg(vec![row("addr0001", "11")]);
    let (mut store, mut state, _res) = init(&env, &msg).unwrap();

    let transfer = HandleMsg::Transfer { recipient: "addr0002".to_string(), amount: "7b".to_string() };
    match handle(&mut store, &mut state, &env, transfer) {
        Err(e) => assert_eq!(e.message(), "Error while parsing string to u128"),
        Ok(_) => panic!("Must return error"),
    }
}

#[test]
fn name_and_symbol_validation() {
    assert!(is_valid_name("Cash Token"));
    assert!(!is_valid_name("CC"));
    assert!(!is_valid_name("0123456789012345678901234567890"));
    assert!(is_valid_symbol("CASH"));
    assert!(is_valid_symbol("ABC"));
    assert!(!is_valid_symbol("AB"));
    assert!(!is_valid_symbol("ABCDEFG"));
    assert!(!is_valid_symbol("CAsH"));
}

fn stored_supply(store: &cosmwasm_std::MemoryStorage) -> u128 {
    // the total supply lives under the length-prefixed "config"
    // namespace at the "total_supply" key
    let mut key = vec![0u8, 6];
    key.extend_from_slice(b"config");
    key.extend_from_slice(b"total_supply");
    read_u128(store, &key).unwrap()
}

#[test]
fn conservation_across_transfers_mints_and_burns() {
    let minter_env = mock_env("minter0", vec![]);
    let msg = init_msg(vec![row("addr0001", "11"), row("addr0002", "22")]);
    let (mut store, mut state, _res) = init(&minter_env, &msg).unwrap();
    assert_eq!(stored_supply(&store), 33);

    let addr1_env = mock_env("addr0001", vec![]);
    let transfer = HandleMsg::Transfer { recipient: "addr0003".to_string(), amount: "4".to_string() };
    handle(&mut store, &mut state, &addr1_env, transfer).unwrap();

    let mint = HandleMsg::Mint { recipient: "addr0002".to_string(), amount: "9".to_string() };
    handle(&mut store, &mut state, &minter_env, mint).unwrap();

    let burn = HandleMsg::Burn { amount: "5".to_string() };
    handle(&mut store, &mut state, &addr1_env, burn).unwrap();

    // total supply always equals the sum of all balances
    let sum = balance_of(&store, "addr0001") + balance_of(&store, "addr0002")
        + balance_of(&store, "addr0003");
    assert_eq!(stored_supply(&store), 33 + 9 - 5);
    assert_eq!(sum, stored_supply(&store));
}

#[test]
fn constants_hold_the_validated_metadata() {
    let c = Constants { name: "Cash Token".to_string(), symbol: "CASH".to_string(), decimals: 8 };
    assert!(is_valid_name(&c.name));
    assert!(is_valid_symbol(&c.symbol));
    assert!(c.decimals <= 18);
    assert_eq!(c, c.clone());
}
