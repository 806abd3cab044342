use spot_exchange::custody::asset_manager::AssetManager;
use spot_exchange::custody::error::Error;
use spot_exchange::custody::operator_handlers::{
    ExecutionWithdrawData, OperatorAction, OperatorWithdrawStatus, ValidateUserSignatureData,
};
use spot_exchange::custody::storage_types::{ListingStatus, UserBalances, WithdrawStatus};
use spot_exchange::custody::trade_upload::{TradeUploadData, TradeUploadPair, TradeUploadUnit};

const OWNER: u64 = 1;
const OPERATOR: u64 = 2;
const FEE_COLLECTOR: u64 = 3;
const USER1: u64 = 11;
const USER2: u64 = 12;
const TOKEN: u64 = 101;
const TOKEN2: u64 = 102;
const FEE_TOKEN: u64 = 103;
const DEFAULT_PAIR: &str = "SPOT_TKN1_TKN2";

fn setup() -> AssetManager {
    let mut s = AssetManager::new();
    s.initialize(OWNER, OPERATOR, FEE_COLLECTOR).unwrap();
    s
}

fn with_default_listed_tokens(s: &mut AssetManager) {
    for t in [TOKEN, TOKEN2, FEE_TOKEN] {
        s.set_token_status(t, ListingStatus::Listed).unwrap();
    }
}

fn with_default_deposit(s: &mut AssetManager, amount: i128, fee_amount: i128) {
    s.deposit(USER1, TOKEN, amount).unwrap();
    s.deposit(USER2, TOKEN2, amount).unwrap();
    s.deposit(USER1, FEE_TOKEN, fee_amount).unwrap();
    s.deposit(USER2, FEE_TOKEN, fee_amount).unwrap();
}

fn with_default_listed_pair(s: &mut AssetManager) {
    s.set_pair_status(&DEFAULT_PAIR.to_string(), TOKEN, TOKEN2, ListingStatus::Listed).unwrap();
}

fn unit(trade_id: u64, account: u64, quantity: i128, amount: i128, fee_amount: i128) -> TradeUploadUnit {
    TradeUploadUnit {
        trade_id,
        account,
        symbol: DEFAULT_PAIR.to_string(),
        quantity,
        amount,
        fee_amount,
        fee_token_asset: FEE_TOKEN,
        timestamp: 0,
        order_signature: [7; 64],
        pub_key_id: 1,
        order: b"{\"symbol\":\"SPOT_TKN1_TKN2\",\"order_type\":\"MARKET\"}".to_vec(),
    }
}

fn bal(s: &AssetManager, user: u64, token: u64) -> i128 {
    s.balances(user, token).balance
}

fn check_initialized_body() {
    let s = setup();
    assert_eq!(s.owner(), Ok(OWNER));
    assert_eq!(s.operator_manager(), Ok(OPERATOR));
    assert_eq!(s.fee_collector(), Ok(FEE_COLLECTOR));
    assert_eq!((s.withdraw_id, s.batch_id), (1, 1));
}

#[test]
fn test_check_initialized() {
    check_initialized_body();
}

#[test]
fn mod_check_initialized() {
    check_initialized_body();
}

#[test]
fn second_initialize_fails() {
    let mut s = setup();
    assert_eq!(s.initialize(4, 5, 6), Err(Error::ErrAlreadyInitialized));
    assert_eq!(s.owner(), Ok(OWNER));
    assert_eq!(AssetManager::new().owner(), Err(Error::ErrNotInitialized));
}

fn deposit_fails_for_unsupported_token_body() {
    let mut s = setup();
    assert_eq!(s.deposit(USER1, TOKEN, 10), Err(Error::ErrTokenIsNotListed));
    assert_eq!(Error::ErrTokenIsNotListed.code(), 6);
}

#[test]
fn test_check_deposit_fail_for_unsupported_token() {
    deposit_fails_for_unsupported_token_body();
}

#[test]
fn mod_check_deposit_fail_for_unsupported_token() {
    deposit_fails_for_unsupported_token_body();
}

fn token_listed_delisted_body() {
    let mut s = setup();
    assert!(!s.is_token_listed(TOKEN));
    s.set_token_status(TOKEN, ListingStatus::Listed).unwrap();
    assert!(s.is_token_listed(TOKEN));
    s.set_token_status(TOKEN, ListingStatus::Delisted).unwrap();
    assert!(!s.is_token_listed(TOKEN));
}

#[test]
fn test_check_token_listed_delisted() {
    token_listed_delisted_body();
}

#[test]
fn mod_check_token_listed_delisted() {
    token_listed_delisted_body();
}

#[test]
fn same_listing_status_twice_fails() {
    let mut s = setup();
    s.set_token_status(TOKEN, ListingStatus::Listed).unwrap();
    assert_eq!(s.set_token_status(TOKEN, ListingStatus::Listed), Err(Error::ErrSameValueStored));
    assert!(s.is_token_listed(TOKEN));
}

fn pair_listed_delisted_body() {
    let mut s = setup();
    let pair_symbol = "SYMBOL".to_string();
    with_default_listed_tokens(&mut s);
    assert!(!s.is_pair_listed(&pair_symbol));
    s.set_pair_status(&pair_symbol, TOKEN, TOKEN2, ListingStatus::Listed).unwrap();
    assert!(s.is_pair_listed(&pair_symbol));
    s.set_pair_status(&pair_symbol, TOKEN, TOKEN2, ListingStatus::Delisted).unwrap();
    assert!(!s.is_pair_listed(&pair_symbol));
}

#[test]
fn test_check_pair_listed_delisted() {
    pair_listed_delisted_body();
}

#[test]
fn mod_check_pair_listed_delisted() {
    pair_listed_delisted_body();
}

#[test]
fn pair_listing_errors() {
    let mut s = setup();
    let sym = "P".to_string();
    assert_eq!(s.set_pair_status(&sym, TOKEN, TOKEN2, ListingStatus::Listed), Err(Error::ErrTokenIsNotListed));
    with_default_listed_tokens(&mut s);
    assert_eq!(s.set_pair_status(&sym, TOKEN, TOKEN, ListingStatus::Listed), Err(Error::ErrSamePairTokens));
    s.set_pair_status(&sym, TOKEN, TOKEN2, ListingStatus::Listed).unwrap();
    assert_eq!(s.set_pair_status(&sym, TOKEN, TOKEN2, ListingStatus::Listed), Err(Error::ErrSameValueStored));
    assert_eq!(s.set_pair_status(&sym, TOKEN2, TOKEN, ListingStatus::Delisted), Err(Error::ErrChangingPair));
}

fn deposit_body() {
    let mut s = setup();
    s.set_token_status(TOKEN, ListingStatus::Listed).unwrap();
    s.deposit(USER1, TOKEN, 10).unwrap();
    assert_eq!(bal(&s, USER1, TOKEN), 10);
}

#[test]
fn test_check_deposit() {
    deposit_body();
}

#[test]
fn mod_check_deposit() {
    deposit_body();
}

#[test]
fn zero_amounts_are_refused() {
    let mut s = setup();
    with_default_listed_tokens(&mut s);
    assert_eq!(s.deposit(USER1, TOKEN, 0), Err(Error::ErrAmountMustBePositive));
    assert_eq!(s.request_withdraw(USER1, TOKEN, 0), Err(Error::ErrAmountMustBePositive));
    assert_eq!(s.deposit(USER1, TOKEN, -3), Err(Error::ErrAmountMustBePositive));
}

#[test]
fn withdraw_of_whole_balance_succeeds_one_more_fails() {
    let mut s = setup();
    with_default_listed_tokens(&mut s);
    s.deposit(USER1, TOKEN, 10).unwrap();
    assert_eq!(s.request_withdraw(USER1, TOKEN, 11), Err(Error::ErrBalanceNotEnough));
    assert_eq!(s.request_withdraw(USER1, TOKEN, 10), Ok(1));
    assert_eq!(s.balances(USER1, TOKEN), UserBalances { balance: 0, balance_on_withdraw: 10 });
}

fn withdraw_approved_body() {
    let mut s = setup();
    with_default_listed_tokens(&mut s);
    with_default_deposit(&mut s, 10, 5);
    let id = s.request_withdraw(USER1, TOKEN, 4).unwrap();
    let UserBalances { balance, balance_on_withdraw } = s.balances(USER1, TOKEN);
    assert_eq!(balance, 6);
    assert_eq!(balance_on_withdraw, 4);
    s.execute_action(&OperatorAction::ExecuteWithdraw(ExecutionWithdrawData {
        id,
        user: USER1,
        token: TOKEN,
        amount: 4,
        execution_status: OperatorWithdrawStatus::Approve,
    }))
    .unwrap();
    let UserBalances { balance, balance_on_withdraw } = s.balances(USER1, TOKEN);
    assert_eq!(balance, 6);
    assert_eq!(balance_on_withdraw, 0);
}

#[test]
fn test_check_withdraw_approved() {
    withdraw_approved_body();
}

#[test]
fn mod_check_withdraw_approved() {
    withdraw_approved_body();
}

fn withdraw_rejected_body() {
    let mut s = setup();
    with_default_listed_tokens(&mut s);
    with_default_deposit(&mut s, 10, 5);
    let id = s.request_withdraw(USER1, TOKEN, 4).unwrap();
    let UserBalances { balance, balance_on_withdraw } = s.balances(USER1, TOKEN);
    assert_eq!(balance, 6);
    assert_eq!(balance_on_withdraw, 4);
    s.execute_action(&OperatorAction::ExecuteWithdraw(ExecutionWithdrawData {
        id,
        user: USER1,
        token: TOKEN,
        amount: 4,
        execution_status: OperatorWithdrawStatus::Reject,
    }))
    .unwrap();
    let UserBalances { balance, balance_on_withdraw } = s.balances(USER1, TOKEN);
    assert_eq!(balance, 10);
    assert_eq!(balance_on_withdraw, 0);
}

#[test]
fn test_check_withdraw_rejected() {
    withdraw_rejected_body();
}

#[test]
fn mod_check_withdraw_rejected() {
    withdraw_rejected_body();
}

#[test]
fn approve_then_reject_is_refused() {
    let mut s = setup();
    with_default_listed_tokens(&mut s);
    with_default_deposit(&mut s, 10, 5);
    let id = s.request_withdraw(USER1, TOKEN, 4).unwrap();
    assert_eq!(id, 1);
    let decision = |execution_status| {
        OperatorAction::ExecuteWithdraw(ExecutionWithdrawData { id, user: USER1, token: TOKEN, amount: 4, execution_status })
    };
    s.execute_action(&decision(OperatorWithdrawStatus::Approve)).unwrap();
    assert_eq!(s.execute_action(&decision(OperatorWithdrawStatus::Reject)), Err(Error::ErrWithdrawRequestAlreadyProcessed));
    assert_eq!(s.withdraw_requests.get(&1).unwrap().status, WithdrawStatus::Executed);
    assert_eq!(s.balances(USER1, TOKEN), UserBalances { balance: 6, balance_on_withdraw: 0 });
}

#[test]
fn withdraw_decision_errors() {
    let mut s = setup();
    with_default_listed_tokens(&mut s);
    with_default_deposit(&mut s, 10, 5);
    let id = s.request_withdraw(USER1, TOKEN, 4).unwrap();
    let mut d = ExecutionWithdrawData { id: 9, user: USER1, token: TOKEN, amount: 4, execution_status: OperatorWithdrawStatus::Approve };
    assert_eq!(s.process_withdraw_request(d), Err(Error::ErrWithdrawDataNotExist));
    d.id = id;
    d.amount = 3;
    assert_eq!(s.process_withdraw_request(d), Err(Error::ErrWithdrawRequestDataMismatch));
    assert_eq!(s.request_withdraw(USER1, TOKEN, 2), Ok(2));
}

fn verify_signature_body() {
    let mut s = setup();
    let verifying_key = [42u8; 32];
    s.user_announce_key(USER1, 1, verifying_key).unwrap();
    assert_eq!(s.get_user_key(USER1, 1), Ok(verifying_key));
    let message: &[u8] = b"Hello world!";
    let action = OperatorAction::ValidateUserSignature(ValidateUserSignatureData {
        user: USER1,
        key_id: 1,
        message: message.to_vec(),
        signature: [0; 64],
    });
    assert!(s.execute_action(&action).is_ok());
}

#[test]
fn test_check_verify_signature() {
    verify_signature_body();
}

#[test]
fn mod_check_verify_signature() {
    verify_signature_body();
}

#[test]
fn keys_are_written_once() {
    let mut s = setup();
    s.user_announce_key(USER1, 1, [1; 32]).unwrap();
    assert_eq!(s.user_announce_key(USER1, 1, [2; 32]), Err(Error::ErrPublicKeyAlreadyExist));
    assert_eq!(s.get_user_key(USER1, 1), Ok([1; 32]));
    assert_eq!(s.get_user_key(USER1, 2), Err(Error::ErrNoUserPublicKeyExist));
    let unknown = OperatorAction::ValidateUserSignature(ValidateUserSignatureData {
        user: USER2,
        key_id: 1,
        message: vec![],
        signature: [0; 64],
    });
    assert_eq!(s.execute_action(&unknown), Err(Error::ErrNoUserPublicKeyExist));
}

fn traded_setup() -> AssetManager {
    let mut s = setup();
    with_default_listed_tokens(&mut s);
    with_default_deposit(&mut s, 10, 5);
    with_default_listed_pair(&mut s);
    s.user_announce_key(USER1, 1, [1; 32]).unwrap();
    s.user_announce_key(USER2, 1, [2; 32]).unwrap();
    s
}

#[test]
fn operator_trades_upload() {
    let mut s = traded_setup();
    let trade_upload_data = TradeUploadData {
        batch_id: 1,
        trades: vec![TradeUploadPair { buy_side: unit(1, USER2, 1, 5, 1), sell_side: unit(2, USER1, 1, 5, 2) }],
    };
    s.execute_action(&OperatorAction::TradeUpload(trade_upload_data)).unwrap();
    assert_eq!(bal(&s, USER2, TOKEN2), 5);
    assert_eq!(bal(&s, USER2, TOKEN), 1);
    assert_eq!(bal(&s, USER1, TOKEN), 9);
    assert_eq!(bal(&s, USER1, TOKEN2), 5);
    assert_eq!(bal(&s, USER1, FEE_TOKEN), 3);
    assert_eq!(bal(&s, USER2, FEE_TOKEN), 4);
    assert_eq!(bal(&s, FEE_COLLECTOR, FEE_TOKEN), 3);
    assert_eq!(s.batch_id, 2);
}

#[test]
fn operator_trades_upload_without_fee() {
    let mut s = traded_setup();
    let trade_upload_data = TradeUploadData {
        batch_id: 1,
        trades: vec![TradeUploadPair { buy_side: unit(1, USER2, 1, 5, 0), sell_side: unit(2, USER1, 1, 5, 0) }],
    };
    s.execute_action(&OperatorAction::TradeUpload(trade_upload_data)).unwrap();
    assert_eq!(bal(&s, USER2, TOKEN2), 5);
    assert_eq!(bal(&s, USER2, TOKEN), 1);
    assert_eq!(bal(&s, USER1, TOKEN), 9);
    assert_eq!(bal(&s, USER1, TOKEN2), 5);
    assert_eq!(bal(&s, USER1, FEE_TOKEN), 5);
    assert_eq!(bal(&s, USER2, FEE_TOKEN), 5);
    assert_eq!(bal(&s, FEE_COLLECTOR, FEE_TOKEN), 0);
}

#[test]
fn trade_batch_errors() {
    let mut s = traded_setup();
    let pair = || TradeUploadPair { buy_side: unit(1, USER2, 1, 5, 0), sell_side: unit(2, USER1, 1, 5, 0) };
    let wrong_id = TradeUploadData { batch_id: 2, trades: vec![pair()] };
    assert_eq!(s.process_trades_batch(&wrong_id), Err(Error::ErrBatchIdNotMatch));
    let mut mismatched = pair();
    mismatched.sell_side.symbol = "OTHER".to_string();
    assert_eq!(
        s.process_trades_batch(&TradeUploadData { batch_id: 1, trades: vec![mismatched] }),
        Err(Error::ErrTradeSymbolsNotMatch)
    );
    let mut too_big = pair();
    too_big.buy_side.amount = 11;
    assert_eq!(s.process_trades_batch(&TradeUploadData { batch_id: 1, trades: vec![too_big] }), Err(Error::ErrBalanceNotEnough));
    assert_eq!(s.batch_id, 1);
}

#[test]
fn batch_ids_advance_one_at_a_time() {
    let mut s = traded_setup();
    let pair = || TradeUploadPair { buy_side: unit(1, USER2, 1, 1, 0), sell_side: unit(2, USER1, 1, 1, 0) };
    s.process_trades_batch(&TradeUploadData { batch_id: 1, trades: vec![pair()] }).unwrap();
    s.process_trades_batch(&TradeUploadData { batch_id: 2, trades: vec![pair(), pair()] }).unwrap();
    assert_eq!(s.batch_id, 3);
    assert_eq!(s.process_trades_batch(&TradeUploadData { batch_id: 2, trades: vec![] }), Err(Error::ErrBatchIdNotMatch));
    assert_eq!(bal(&s, USER2, TOKEN), 3);
}

#[test]
fn matched_trade_conserves_each_token() {
    let mut s = traded_setup();
    let total = |s: &AssetManager, token: u64| -> i128 {
        [USER1, USER2, FEE_COLLECTOR].iter().map(|u| {
            let b = s.balances(*u, token);
            b.balance + b.balance_on_withdraw
        }).sum()
    };
    let before: Vec<i128> = [TOKEN, TOKEN2, FEE_TOKEN].iter().map(|t| total(&s, *t)).collect();
    let data = TradeUploadData {
        batch_id: 1,
        trades: vec![TradeUploadPair { buy_side: unit(1, USER2, 2, 7, 1), sell_side: unit(2, USER1, 2, 7, 2) }],
    };
    s.process_trades_batch(&data).unwrap();
    let after: Vec<i128> = [TOKEN, TOKEN2, FEE_TOKEN].iter().map(|t| total(&s, *t)).collect();
    assert_eq!(before, after);
    s.request_withdraw(USER1, TOKEN, 3).unwrap();
    assert_eq!(total(&s, TOKEN), before[0]);
}

#[test]
fn failed_batch_changes_nothing() {
    let mut s = traded_setup();
    let good = TradeUploadPair { buy_side: unit(1, USER2, 1, 5, 1), sell_side: unit(2, USER1, 1, 5, 2) };
    let mut bad = good.clone();
    bad.buy_side.amount = 50;
    let before: Vec<i128> = [TOKEN, TOKEN2, FEE_TOKEN]
        .iter()
        .flat_map(|t| [USER1, USER2, FEE_COLLECTOR].map(|u| bal(&s, u, *t)))
        .collect();
    let batch = TradeUploadData { batch_id: 1, trades: vec![good, bad] };
    assert_eq!(s.execute_action(&OperatorAction::TradeUpload(batch)), Err(Error::ErrBalanceNotEnough));
    let after: Vec<i128> = [TOKEN, TOKEN2, FEE_TOKEN]
        .iter()
        .flat_map(|t| [USER1, USER2, FEE_COLLECTOR].map(|u| bal(&s, u, *t)))
        .collect();
    assert_eq!(before, after);
    assert_eq!(s.batch_id, 1);
}

#[test]
fn unlisted_pair_leaves_ledger_alone() {
    let mut s = traded_setup();
    s.set_pair_status(&DEFAULT_PAIR.to_string(), TOKEN, TOKEN2, ListingStatus::Delisted).unwrap();
    let pair = TradeUploadPair { buy_side: unit(1, USER2, 1, 5, 1), sell_side: unit(2, USER1, 1, 5, 2) };
    let mut ledger = s.balances.copy_table();
    assert_eq!(pair.execute_pair_swap(&mut ledger, &s.pairs, FEE_COLLECTOR), Err(Error::ErrFinalized));
    assert_eq!(s.process_trades_batch(&TradeUploadData { batch_id: 1, trades: vec![pair] }), Err(Error::ErrFinalized));
    assert_eq!(bal(&s, USER1, TOKEN), 10);
}
