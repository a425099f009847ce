use token_voting::types::{coins, log, BankMsg, BlockInfo, Coin, ContractInfo, Env, MessageInfo};
use token_voting::voting::{
    handle, init, query, Governance, HandleMsg, InitMsg, Oracle, QueryAnswer, QueryMsg, State,
};

const VOTING_TOKEN: &str = "secret";

struct TestOracle(u128);

impl Oracle for TestOracle {
    fn balance(&self, _address: &str, _denom: &str) -> u128 {
        self.0
    }
}

fn mock_env(sender: &str, sent: Vec<Coin>) -> Env {
    Env {
        message: MessageInfo { sender: sender.to_string(), sent_funds: sent },
        block: BlockInfo { height: 12_345 },
        contract: ContractInfo { address: "cosmos2contract".to_string() },
    }
}

fn mock_env_height(sender: &str, sent: Vec<Coin>, height: u64) -> Env {
    let mut env = mock_env(sender, sent);
    env.block.height = height;
    env
}

fn init_msg() -> InitMsg {
    InitMsg { denom: String::from(VOTING_TOKEN) }
}

fn mock_init() -> Governance {
    let env = mock_env("creator", coins(2, "token"));
    let (gov, _res) = init(&env, init_msg());
    gov
}

fn create_poll_msg(
    quorum_percentage: u8,
    description: String,
    start_height: Option<u64>,
    end_height: Option<u64>,
) -> HandleMsg {
    HandleMsg::CreatePoll {
        quorum_percentage: Some(quorum_percentage),
        description,
        start_height,
        end_height,
    }
}

#[test]
fn proper_initialization() {
    let env = mock_env("creator", coins(2, VOTING_TOKEN));
    let (gov, res) = init(&env, init_msg());
    assert_eq!(0, res.messages.len());

    assert_eq!(
        gov.state,
        State {
            denom: String::from(VOTING_TOKEN),
            owner: "creator".to_string(),
            poll_count: 0,
            staked_tokens: 0,
        }
    );
}

#[test]
fn poll_not_found() {
    let gov = mock_init();

    let res = query(&gov, QueryMsg::Poll { poll_id: 1 });

    match res {
        Err(e) => assert_eq!(e.message(), "Poll does not exist"),
        _ => panic!("Must return error"),
    }
}

#[test]
fn fails_create_poll_invalid_quorum_percentage() {
    let mut gov = mock_init();
    let env = mock_env("voter", coins(11, VOTING_TOKEN));
    let oracle = TestOracle(0);

    let msg = create_poll_msg(101, "test".to_string(), None, None);

    let res = handle(&mut gov, &env, &oracle, msg);

    match res {
        Ok(_) => panic!("Must return error"),
        Err(e) => assert_eq!(e.message(), "quorum_percentage must be 0 to 100"),
    }
}

#[test]
fn fails_create_poll_invalid_description() {
    let mut gov = mock_init();
    let env = mock_env("voter", coins(11, VOTING_TOKEN));
    let oracle = TestOracle(0);

    let msg = create_poll_msg(30, "a".to_string(), None, None);

    match handle(&mut gov, &env, &oracle, msg) {
        Ok(_) => panic!("Must return error"),
        Err(e) => assert_eq!(e.message(), "Description too short"),
    }

    let msg = create_poll_msg(
        100,
        "01234567890123456789012345678901234567890123456789012345678901234".to_string(),
        None,
        None,
    );

    match handle(&mut gov, &env, &oracle, msg) {
        Ok(_) => panic!("Must return error"),
        Err(e) => assert_eq!(e.message(), "Description too long"),
    }
}

#[test]
fn fails_create_poll_invalid_character() {
    let mut gov = mock_init();
    let env = mock_env("voter", coins(11, VOTING_TOKEN));
    let oracle = TestOracle(0);

    let msg = create_poll_msg(30, "te!t".to_string(), None, None);

    match handle(&mut gov, &env, &oracle, msg) {
        Ok(_) => panic!("Must return error"),
        Err(e) => assert_eq!(e.message(), "Invalid character: '!'"),
    }
}

#[test]
fn create_poll() {
    let mut gov = mock_init();
    let env = mock_env("creator", coins(2, VOTING_TOKEN));
    let oracle = TestOracle(0);

    let msg = create_poll_msg(30, "test".to_string(), None, None);

    let handle_res = handle(&mut gov, &env, &oracle, msg).unwrap();
    assert_eq!(
        handle_res.log,
        vec![
            log("action", "create_poll"),
            log("creator", "creator"),
            log("poll_id", "1"),
            log("quorum_percentage", "30"),
            log("end_height", "0"),
            log("start_height", "0"),
        ]
    );

    assert_eq!(
        gov.state,
        State {
            denom: String::from(VOTING_TOKEN),
            owner: "creator".to_string(),
            poll_count: 1,
            staked_tokens: 0,
        }
    );
}

#[test]
fn create_poll_no_quorum() {
    let mut gov = mock_init();
    let env = mock_env("creator", coins(2, VOTING_TOKEN));
    let oracle = TestOracle(0);

    let msg = create_poll_msg(0, "test".to_string(), None, None);

    let handle_res = handle(&mut gov, &env, &oracle, msg).unwrap();
    assert_eq!(
        handle_res.log,
        vec![
            log("action", "create_poll"),
            log("creator", "creator"),
            log("poll_id", "1"),
            log("quorum_percentage", "0"),
            log("end_height", "0"),
            log("start_height", "0"),
        ]
    );

    assert_eq!(
        gov.state,
        State {
            denom: String::from(VOTING_TOKEN),
            owner: "creator".to_string(),
            poll_count: 1,
            staked_tokens: 0,
        }
    );
}

#[test]
fn fails_end_poll_before_end_height() {
    let mut gov = mock_init();
    let env = mock_env_height("creator", coins(2, VOTING_TOKEN), 1000);
    let oracle = TestOracle(0);

    let msg = create_poll_msg(30, "test".to_string(), None, Some(10001));

    let handle_res = handle(&mut gov, &env, &oracle, msg).unwrap();
    assert_eq!(
        handle_res.log,
        vec![
            log("action", "create_poll"),
            log("creator", "creator"),
            log("poll_id", "1"),
            log("quorum_percentage", "30"),
            log("end_height", "10001"),
            log("start_height", "0"),
        ]
    );

    let res = query(&gov, QueryMsg::Poll { poll_id: 1 }).unwrap();
    match res {
        QueryAnswer::Poll(value) => assert_eq!(Some(10001), value.end_height),
        _ => panic!("Unexpected query answer"),
    }

    let msg = HandleMsg::EndPoll { poll_id: 1 };

    let handle_res = handle(&mut gov, &env, &oracle, msg);

    match handle_res {
        Ok(_) => panic!("Must return error"),
        Err(e) => assert_eq!(e.message(), "Voting period has not expired."),
    }
}

#[test]
fn happy_days_end_poll() {
    let mut gov = mock_init();
    let env = mock_env_height("creator", coins(2, VOTING_TOKEN), 1000);
    let oracle = TestOracle(1000);

    let msg = create_poll_msg(30, "test".to_string(), None, None);

    let _ = handle(&mut gov, &env, &oracle, msg);

    let msg = HandleMsg::StakeVotingTokens {};
    let env_voter = mock_env("voter", coins(1000, VOTING_TOKEN));

    let _ = handle(&mut gov, &env_voter, &oracle, msg).unwrap();

    let env_voter = mock_env("voter", coins(1000, VOTING_TOKEN));
    let msg = HandleMsg::CastVote { poll_id: 1, encrypted_vote: "yes".to_string(), weight: 1000 };
    let _ = handle(&mut gov, &env_voter, &oracle, msg);

    let env = mock_env_height("creator", coins(2, VOTING_TOKEN), 1000);

    let msg = HandleMsg::EndPoll { poll_id: 1 };

    let handle_res = handle(&mut gov, &env, &oracle, msg).unwrap();

    assert_eq!(
        handle_res.log,
        vec![
            log("action", "end_poll"),
            log("poll_id", "1"),
            log("rejected_reason", ""),
            log("passed", "true"),
        ]
    );
}

#[test]
fn happy_days_end_poll_one_vote() {
    let mut gov = mock_init();
    let env = mock_env_height("creator", coins(2, VOTING_TOKEN), 1000);
    let oracle = TestOracle(1000);

    let msg = create_poll_msg(0, "test".to_string(), None, None);

    let _ = handle(&mut gov, &env, &oracle, msg);

    let msg = HandleMsg::StakeVotingTokens {};
    let env_voter = mock_env("voter", coins(1, VOTING_TOKEN));

    let _ = handle(&mut gov, &env_voter, &oracle, msg).unwrap();

    let env_voter = mock_env("voter", coins(1, VOTING_TOKEN));
    let msg = HandleMsg::CastVote { poll_id: 1, encrypted_vote: "yes".to_string(), weight: 1 };
    let _ = handle(&mut gov, &env_voter, &oracle, msg);

    let env = mock_env_height("creator", coins(2, VOTING_TOKEN), 1000);

    let msg = HandleMsg::EndPoll { poll_id: 1 };

    let handle_res = handle(&mut gov, &env, &oracle, msg).unwrap();

    assert_eq!(
        handle_res.log,
        vec![
            log("action", "end_poll"),
            log("poll_id", "1"),
            log("rejected_reason", ""),
            log("passed", "true"),
        ]
    );
}

#[test]
fn end_poll_zero_quorum() {
    let mut gov = mock_init();
    let env = mock_env_height("creator", coins(2, VOTING_TOKEN), 1000);
    let oracle = TestOracle(1000);

    let msg = create_poll_msg(0, "test".to_string(), None, None);

    let _ = handle(&mut gov, &env, &oracle, msg);

    let msg = HandleMsg::EndPoll { poll_id: 1 };

    let handle_res = handle(&mut gov, &env, &oracle, msg).unwrap();

    assert_eq!(
        handle_res.log,
        vec![
            log("action", "end_poll"),
            log("poll_id", "1"),
            log("rejected_reason", "No votes"),
            log("passed", "false"),
        ]
    );
}

#[test]
fn end_poll_quorum_rejected() {
    let mut gov = mock_init();
    let creator_env = mock_env("creator", coins(2, VOTING_TOKEN));
    let oracle = TestOracle(100);

    let msg = create_poll_msg(30, "test".to_string(), None, None);

    let handle_res = handle(&mut gov, &creator_env, &oracle, msg).unwrap();
    assert_eq!(
        handle_res.log,
        vec![
            log("action", "create_poll"),
            log("creator", "creator"),
            log("poll_id", "1"),
            log("quorum_percentage", "30"),
            log("end_height", "0"),
            log("start_height", "0"),
        ]
    );

    let msg = HandleMsg::StakeVotingTokens {};
    let env = mock_env("voter1", coins(100, VOTING_TOKEN));

    let _ = handle(&mut gov, &env, &oracle, msg).unwrap();

    let msg = HandleMsg::CastVote { poll_id: 1, encrypted_vote: "yes".to_string(), weight: 10 };
    let handle_res = handle(&mut gov, &env, &oracle, msg).unwrap();

    assert_eq!(
        handle_res.log,
        vec![
            log("action", "vote_casted"),
            log("poll_id", "1"),
            log("weight", "10"),
            log("voter", "voter1"),
        ]
    );

    let msg = HandleMsg::EndPoll { poll_id: 1 };

    let handle_res = handle(&mut gov, &creator_env, &oracle, msg).unwrap();
    assert_eq!(
        handle_res.log,
        vec![
            log("action", "end_poll"),
            log("poll_id", "1"),
            log("rejected_reason", "Quorum not reached"),
            log("passed", "false"),
        ]
    );
}

#[test]
fn end_poll_nay_rejected() {
    let mut gov = mock_init();
    let env = mock_env("creator", coins(2, VOTING_TOKEN));
    let oracle = TestOracle(1000);

    let msg = create_poll_msg(10, "test".to_string(), None, None);

    let handle_res = handle(&mut gov, &env, &oracle, msg).unwrap();
    assert_eq!(
        handle_res.log,
        vec![
            log("action", "create_poll"),
            log("creator", "creator"),
            log("poll_id", "1"),
            log("quorum_percentage", "10"),
            log("end_height", "0"),
            log("start_height", "0"),
        ]
    );

    let msg = HandleMsg::StakeVotingTokens {};
    let env_voter = mock_env("voter", coins(100, VOTING_TOKEN));
    let _ = handle(&mut gov, &env_voter, &oracle, msg).unwrap();

    let msg = HandleMsg::StakeVotingTokens {};
    let env_voter2 = mock_env("voter2", coins(1000, VOTING_TOKEN));
    let _ = handle(&mut gov, &env_voter2, &oracle, msg).unwrap();

    let env_voter2 = mock_env("voter2", vec![]);
    let msg = HandleMsg::CastVote { poll_id: 1, encrypted_vote: "no".to_string(), weight: 1000 };
    let _ = handle(&mut gov, &env_voter2, &oracle, msg);

    let env = mock_env("creator", coins(1000, VOTING_TOKEN));

    let msg = HandleMsg::EndPoll { poll_id: 1 };
    let handle_res = handle(&mut gov, &env, &oracle, msg).unwrap();
    assert_eq!(
        handle_res.log,
        vec![
            log("action", "end_poll"),
            log("poll_id", "1"),
            log("rejected_reason", "Threshold not reached"),
            log("passed", "false"),
        ]
    );
}

#[test]
fn fails_end_poll_before_start_height() {
    let mut gov = mock_init();
    let env = mock_env_height("creator", coins(2, VOTING_TOKEN), 1000);
    let oracle = TestOracle(0);

    let msg = create_poll_msg(30, "test".to_string(), Some(10001), None);

    let handle_res = handle(&mut gov, &env, &oracle, msg).unwrap();
    assert_eq!(
        handle_res.log,
        vec![
            log("action", "create_poll"),
            log("creator", "creator"),
            log("poll_id", "1"),
            log("quorum_percentage", "30"),
            log("end_height", "0"),
            log("start_height", "10001"),
        ]
    );

    let msg = HandleMsg::EndPoll { poll_id: 1 };

    let handle_res = handle(&mut gov, &env, &oracle, msg);

    match handle_res {
        Ok(_) => panic!("Must return error"),
        Err(e) => assert_eq!(e.message(), "Voting period has not started."),
    }
}

#[test]
fn fails_cast_vote_not_enough_staked() {
    let mut gov = mock_init();
    let env = mock_env("creator", coins(2, VOTING_TOKEN));
    let oracle = TestOracle(0);

    let msg = create_poll_msg(30, "test".to_string(), None, None);

    let handle_res = handle(&mut gov, &env, &oracle, msg).unwrap();
    assert_eq!(
        handle_res.log,
        vec![
            log("action", "create_poll"),
            log("creator", "creator"),
            log("poll_id", "1"),
            log("quorum_percentage", "30"),
            log("end_height", "0"),
            log("start_height", "0"),
        ]
    );

    let env = mock_env("voter", coins(11, VOTING_TOKEN));
    let msg = HandleMsg::CastVote { poll_id: 1, encrypted_vote: "yes".to_string(), weight: 1 };

    let res = handle(&mut gov, &env, &oracle, msg);

    match res {
        Ok(_) => panic!("Must return error"),
        Err(e) => assert_eq!(e.message(), "User does not have enough staked tokens."),
    }
}

#[test]
fn happy_days_cast_vote() {
    let mut gov = mock_init();
    let env = mock_env("creator", coins(2, VOTING_TOKEN));
    let oracle = TestOracle(0);

    let msg = create_poll_msg(30, "test".to_string(), None, None);

    let handle_res = handle(&mut gov, &env, &oracle, msg).unwrap();
    assert_eq!(
        handle_res.log,
        vec![
            log("action", "create_poll"),
            log("creator", "creator"),
            log("poll_id", "1"),
            log("quorum_percentage", "30"),
            log("end_height", "0"),
            log("start_height", "0"),
        ]
    );

    let msg = HandleMsg::StakeVotingTokens {};
    let env = mock_env("voter1", coins(11, VOTING_TOKEN));

    let _ = handle(&mut gov, &env, &oracle, msg).unwrap();

    let env = mock_env("voter1", coins(11, VOTING_TOKEN));
    let msg = HandleMsg::CastVote { poll_id: 1, encrypted_vote: "yes".to_string(), weight: 10 };

    let handle_res = handle(&mut gov, &env, &oracle, msg).unwrap();

    assert_eq!(
        handle_res.log,
        vec![
            log("action", "vote_casted"),
            log("poll_id", "1"),
            log("weight", "10"),
            log("voter", "voter1"),
        ]
    );
}

#[test]
fn happy_days_withdraw_voting_tokens() {
    let mut gov = mock_init();
    let oracle = TestOracle(0);

    let msg = HandleMsg::StakeVotingTokens {};
    let env = mock_env("voter1", coins(11, VOTING_TOKEN));

    let _ = handle(&mut gov, &env, &oracle, msg).unwrap();

    assert_eq!(
        gov.state,
        State {
            denom: String::from(VOTING_TOKEN),
            owner: "creator".to_string(),
            poll_count: 0,
            staked_tokens: 11,
        }
    );

    let env = mock_env("voter1", coins(11, VOTING_TOKEN));
    let msg = HandleMsg::WithdrawVotingTokens { amount: Some(11) };

    let handle_res = handle(&mut gov, &env, &oracle, msg).unwrap();
    let msg = handle_res.messages.get(0).expect("no message");

    assert_eq!(
        msg,
        &BankMsg::Send {
            from_address: "cosmos2contract".to_string(),
            to_address: "voter1".to_string(),
            amount: coins(11, VOTING_TOKEN),
        }
    );

    assert_eq!(
        gov.state,
        State {
            denom: String::from(VOTING_TOKEN),
            owner: "creator".to_string(),
            poll_count: 0,
            staked_tokens: 0,
        }
    );
}

#[test]
fn fails_withdraw_voting_tokens_no_stake() {
    let mut gov = mock_init();
    let oracle = TestOracle(0);

    let env = mock_env("voter1", coins(11, VOTING_TOKEN));
    let msg = HandleMsg::WithdrawVotingTokens { amount: Some(11) };

    let res = handle(&mut gov, &env, &oracle, msg);

    match res {
        Ok(_) => panic!("Must return error"),
        Err(e) => assert_eq!(e.message(), "Nothing staked"),
    }
}

#[test]
fn fails_withdraw_too_many_tokens() {
    let mut gov = mock_init();
    let oracle = TestOracle(0);

    let msg = HandleMsg::StakeVotingTokens {};
    let env = mock_env("voter1", coins(10, VOTING_TOKEN));

    let _ = handle(&mut gov, &env, &oracle, msg).unwrap();

    let env = mock_env("voter1", vec![]);
    let msg = HandleMsg::WithdrawVotingTokens { amount: Some(11) };

    let res = handle(&mut gov, &env, &oracle, msg);

    match res {
        Ok(_) => panic!("Must return error"),
        Err(e) => assert_eq!(e.message(), "User is trying to withdraw too many tokens."),
    }
}

#[test]
fn fails_cast_vote_twice() {
    let mut gov = mock_init();
    let env = mock_env("creator", coins(2, VOTING_TOKEN));
    let oracle = TestOracle(0);

    let msg = create_poll_msg(30, "test".to_string(), None, None);

    let handle_res = handle(&mut gov, &env, &oracle, msg).unwrap();
    assert_eq!(
        handle_res.log,
        vec![
            log("action", "create_poll"),
            log("creator", "creator"),
            log("poll_id", "1"),
            log("quorum_percentage", "30"),
            log("end_height", "0"),
            log("start_height", "0"),
        ]
    );

    let msg = HandleMsg::StakeVotingTokens {};
    let env = mock_env("voter", coins(11, VOTING_TOKEN));

    let _ = handle(&mut gov, &env, &oracle, msg).unwrap();

    let env = mock_env("voter", coins(11, VOTING_TOKEN));
    let msg = HandleMsg::CastVote { poll_id: 1, encrypted_vote: "yes".to_string(), weight: 1 };
    let _ = handle(&mut gov, &env, &oracle, msg);

    let msg = HandleMsg::CastVote { poll_id: 1, encrypted_vote: "yes".to_string(), weight: 1 };
    let res = handle(&mut gov, &env, &oracle, msg);

    match res {
        Ok(_) => panic!("Must return error"),
        Err(e) => assert_eq!(e.message(), "User has already voted."),
    }
}

#[test]
fn fails_cast_vote_without_poll() {
    let mut gov = mock_init();
    let oracle = TestOracle(0);

    let msg = HandleMsg::CastVote { poll_id: 0, encrypted_vote: "yes".to_string(), weight: 1 };
    let env = mock_env("voter", coins(11, VOTING_TOKEN));

    let res = handle(&mut gov, &env, &oracle, msg);

    match res {
        Ok(_) => panic!("Must return error"),
        Err(e) => assert_eq!(e.message(), "Poll does not exist"),
    }
}

#[test]
fn happy_days_stake_voting_tokens() {
    let mut gov = mock_init();
    let oracle = TestOracle(0);

    let msg = HandleMsg::StakeVotingTokens {};
    let env = mock_env("voter1", coins(11, VOTING_TOKEN));

    let _ = handle(&mut gov, &env, &oracle, msg).unwrap();

    assert_eq!(
        gov.state,
        State {
            denom: String::from(VOTING_TOKEN),
            owner: "creator".to_string(),
            poll_count: 0,
            staked_tokens: 11,
        }
    );
}

#[test]
fn fails_insufficient_funds() {
    let oracle = TestOracle(0);

    let msg = init_msg();
    let env = mock_env("voter", coins(2, VOTING_TOKEN));
    let (mut gov, init_res) = init(&env, msg);
    assert_eq!(0, init_res.messages.len());

    let msg = HandleMsg::StakeVotingTokens {};
    let env = mock_env("voter", coins(0, VOTING_TOKEN));

    let res = handle(&mut gov, &env, &oracle, msg);

    match res {
        Ok(_) => panic!("Must return error"),
        Err(e) => assert_eq!(e.message(), "Insufficient funds sent"),
    }
}

#[test]
fn fails_staking_wrong_token() {
    let oracle = TestOracle(0);

    let msg = init_msg();
    let env = mock_env("voter", coins(2, VOTING_TOKEN));
    let (mut gov, init_res) = init(&env, msg);
    assert_eq!(0, init_res.messages.len());

    let msg = HandleMsg::StakeVotingTokens {};
    let env = mock_env("voter", coins(11, "play money"));

    let res = handle(&mut gov, &env, &oracle, msg);

    match res {
        Ok(_) => panic!("Must return error"),
        Err(e) => assert_eq!(e.message(), "Insufficient funds sent"),
    }
}

#[test]
fn stake_then_vote_then_end_releases_lock() {
    let mut gov = mock_init();
    let oracle = TestOracle(100);
    let env_creator = mock_env("creator", coins(2, VOTING_TOKEN));

    let msg = create_poll_msg(0, "test".to_string(), None, None);
    let _ = handle(&mut gov, &env_creator, &oracle, msg).unwrap();

    let env_voter = mock_env("voter1", coins(100, VOTING_TOKEN));
    let _ = handle(&mut gov, &env_voter, &oracle, HandleMsg::StakeVotingTokens {}).unwrap();

    let msg = HandleMsg::CastVote { poll_id: 1, encrypted_vote: "yes".to_string(), weight: 100 };
    let _ = handle(&mut gov, &env_voter, &oracle, msg).unwrap();

    // the locked weight blocks a withdrawal while the poll is open
    let msg = HandleMsg::WithdrawVotingTokens { amount: Some(1) };
    let res = handle(&mut gov, &env_voter, &oracle, msg);
    match res {
        Ok(_) => panic!("Must return error"),
        Err(e) => assert_eq!(e.message(), "User is trying to withdraw too many tokens."),
    }

    // ending the poll releases the lock
    let _ = handle(&mut gov, &env_creator, &oracle, HandleMsg::EndPoll { poll_id: 1 }).unwrap();

    let msg = HandleMsg::WithdrawVotingTokens { amount: Some(100) };
    let res = handle(&mut gov, &env_voter, &oracle, msg).unwrap();
    assert_eq!(
        res.messages.get(0).expect("no message"),
        &BankMsg::Send {
            from_address: "cosmos2contract".to_string(),
            to_address: "voter1".to_string(),
            amount: coins(100, VOTING_TOKEN),
        }
    );
    assert_eq!(gov.state.staked_tokens, 0);
}

#[test]
fn withdraw_defaults_to_full_balance() {
    let mut gov = mock_init();
    let oracle = TestOracle(0);

    let env = mock_env("voter1", coins(42, VOTING_TOKEN));
    let _ = handle(&mut gov, &env, &oracle, HandleMsg::StakeVotingTokens {}).unwrap();

    let env = mock_env("voter1", vec![]);
    let res = handle(&mut gov, &env, &oracle, HandleMsg::WithdrawVotingTokens { amount: None })
        .unwrap();
    assert_eq!(
        res.messages.get(0).expect("no message"),
        &BankMsg::Send {
            from_address: "cosmos2contract".to_string(),
            to_address: "voter1".to_string(),
            amount: coins(42, VOTING_TOKEN),
        }
    );
    assert_eq!(gov.state.staked_tokens, 0);
}

#[test]
fn query_token_stake_and_config() {
    let mut gov = mock_init();
    let oracle = TestOracle(0);

    let env = mock_env("voter1", coins(7, VOTING_TOKEN));
    let _ = handle(&mut gov, &env, &oracle, HandleMsg::StakeVotingTokens {}).unwrap();

    match query(&gov, QueryMsg::TokenStake { address: "voter1".to_string() }).unwrap() {
        QueryAnswer::TokenStake(t) => assert_eq!(t.token_balance, 7),
        _ => panic!("Unexpected query answer"),
    }
    match query(&gov, QueryMsg::TokenStake { address: "nobody".to_string() }).unwrap() {
        QueryAnswer::TokenStake(t) => assert_eq!(t.token_balance, 0),
        _ => panic!("Unexpected query answer"),
    }
    match query(&gov, QueryMsg::Config {}).unwrap() {
        QueryAnswer::Config(s) => assert_eq!(s.staked_tokens, 7),
        _ => panic!("Unexpected query answer"),
    }
}
