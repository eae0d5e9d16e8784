use sha2::Digest;
use switchboard::amount::{Amount, AmountError, DEFAULT_FEE_SATS};
use switchboard::chain::{Chain, Sidechain};
use switchboard::client::{
    account_address, activation_calls, balance_call, block_count_call,
    deposit_address_with_digest, deposit_call, ethereum_balance, first_account_address,
    format_deposit_address, generate_call, new_address_call, refund_call, stop_calls,
    withdraw_call, ClientError, RpcValue, ACTIVATION_BLOCKS,
};
use switchboard::gateway::{error_message, GatewayError, ServerEvent, ServerState};
use switchboard::params::{coerce_param, is_json_number_text, JsonScalar};
use switchboard::supervisor::{boot_plan, shutdown_plan, BootFacts, Step};

fn coins(s: &str) -> Amount {
    Amount::parse_coins(s).unwrap()
}

#[test]
fn chain_names() {
    assert_eq!(Chain::Main.name(), "main");
    assert_eq!(Chain::Zcash.name(), "zcash");
    assert_eq!(Chain::Ethereum.name(), "ethereum");
    assert_eq!(Sidechain::Ethereum.name(), "ethereum");
}

#[test]
fn sidechain_chain_and_slot() {
    assert_eq!(Sidechain::Zcash.chain(), Chain::Zcash);
    assert_eq!(Sidechain::Ethereum.chain(), Chain::Ethereum);
    assert_eq!(Sidechain::Zcash.number(), 0);
    assert_eq!(Sidechain::Ethereum.number(), 1);
}

#[test]
fn parse_coin_amounts() {
    assert_eq!(coins("0.0001").to_sat(), 10_000);
    assert_eq!(coins("1").to_sat(), 100_000_000);
    assert_eq!(coins("21000000.00000001").to_sat(), 2_100_000_000_000_001);
    assert_eq!(coins("0.5").to_sat(), 50_000_000);
    assert_eq!(coins("007").to_sat(), 700_000_000);
    assert_eq!(coins("184467440737.09551615").to_sat(), u64::MAX);
}

#[test]
fn parse_coin_amount_errors() {
    for bad in ["", "abc", "1.", ".5", "0.123456789", "1.2.3", "-1", "1e5", " 1"] {
        assert_eq!(Amount::parse_coins(bad), Err(AmountError::Malformed), "{}", bad);
    }
    assert_eq!(Amount::parse_coins("184467440737.09551616"), Err(AmountError::TooLarge));
    assert_eq!(Amount::parse_coins("999999999999999999999999"), Err(AmountError::TooLarge));
}

#[test]
fn coin_text_forms() {
    assert_eq!(Amount::from_sat(10_000).to_coin_string(), "0.00010000");
    assert_eq!(Amount::from_sat(0).to_coin_string(), "0.00000000");
    assert_eq!(Amount::from_sat(123_456_789_012).to_coin_string(), "1234.56789012");
    assert_eq!(Amount::from_sat(u64::MAX).to_coin_string(), "184467440737.09551615");
}

#[test]
fn coin_text_round_trip() {
    for s in ["0.00000000", "12.34500000", "184467440737.09551615", "7.00000001"] {
        assert_eq!(coins(s).to_coin_string(), s);
    }
    for sats in [0u64, 1, 99_999_999, 100_000_000, 4_242_424_242, u64::MAX] {
        let text = Amount::from_sat(sats).to_coin_string();
        assert_eq!(coins(&text).to_sat(), sats);
    }
}

#[test]
fn default_fee_is_one_ten_thousandth() {
    assert_eq!(DEFAULT_FEE_SATS, 10_000);
    assert_eq!(Amount::default_fee().to_coin_string(), "0.00010000");
    assert_eq!(Amount::fee_or_default(None).to_sat(), 10_000);
    assert_eq!(Amount::fee_or_default(Some(Amount::from_sat(5))).to_sat(), 5);
}

#[test]
fn amounts_order_by_smallest_units() {
    assert!(Amount::from_sat(1) < Amount::from_sat(2));
    assert_eq!(coins("0.10"), coins("0.1"));
}

#[test]
fn account_address_is_hex() {
    assert_eq!(account_address(&vec![0xde, 0xad, 0x01]), "0xdead01");
    assert_eq!(account_address(&vec![]), "0x");
}

#[test]
fn first_account_or_none() {
    assert_eq!(first_account_address(&vec![]), Err(ClientError::NoAddressAvailable));
    assert_eq!(
        first_account_address(&vec![vec![0xab], vec![0xcd]]).unwrap(),
        "0xab"
    );
}

fn checksum(prefix: &str) -> String {
    hex::encode(sha2::Sha256::digest(prefix.as_bytes()))[..6].to_string()
}

#[test]
fn deposit_address_embeds_slot_one() {
    let r = format_deposit_address(1, "0xab12");
    assert!(r.starts_with("s1_0xab12_"));
    assert_eq!(r, format!("s1_0xab12_{}", checksum("s1_0xab12_")));
}

#[test]
fn deposit_address_embeds_slot_zero() {
    let r = format_deposit_address(0, "tmAddr");
    assert!(r.starts_with("s0_tmAddr_"));
    assert_eq!(r.len(), "s0_tmAddr_".len() + 6);
    assert_eq!(r, format!("s0_tmAddr_{}", checksum("s0_tmAddr_")));
}

#[test]
fn deposit_address_from_given_digest() {
    let r = deposit_address_with_digest(12, "x", &vec![0x01, 0xab, 0xff, 0x00]);
    assert_eq!(r, "s12_x_01abff");
}

#[test]
fn deposit_request() {
    let c = deposit_call(Sidechain::Ethereum, "0xab", coins("1"), None);
    assert_eq!(c.chain, Chain::Main);
    assert_eq!(c.method, "createsidechaindeposit");
    assert_eq!(c.params.len(), 4);
    assert!(matches!(c.params[0], RpcValue::Uint(1)));
    match &c.params[1] {
        RpcValue::Text(t) => assert_eq!(t, &format!("s1_0xab_{}", checksum("s1_0xab_"))),
        other => panic!("unexpected {:?}", other),
    }
    assert!(matches!(c.params[2], RpcValue::Coins(a) if a.to_sat() == 100_000_000));
    assert!(matches!(c.params[3], RpcValue::Coins(a) if a.to_sat() == 10_000));
    let z = deposit_call(Sidechain::Zcash, "zaddr", coins("2"), Some(coins("0.001")));
    assert!(matches!(z.params[0], RpcValue::Uint(0)));
    assert!(matches!(z.params[3], RpcValue::Coins(a) if a.to_sat() == 100_000));
}

#[test]
fn withdraw_passes_amount_then_fee() {
    let c = withdraw_call(Sidechain::Zcash, coins("1"), Some(coins("0.5")), &vec![]).unwrap();
    assert_eq!(c.chain, Chain::Zcash);
    assert_eq!(c.method, "withdraw");
    assert_eq!(c.params.len(), 2);
    assert!(matches!(c.params[0], RpcValue::Coins(a) if a.to_sat() == 100_000_000));
    assert!(matches!(c.params[1], RpcValue::Coins(a) if a.to_sat() == 50_000_000));
    let high = withdraw_call(Sidechain::Zcash, coins("1"), Some(coins("0.9")), &vec![]).unwrap();
    assert!(matches!(high.params[1], RpcValue::Coins(a) if a.to_sat() == 90_000_000));
    assert!(matches!(high.params[0], RpcValue::Coins(a) if a.to_sat() == 100_000_000));
}

#[test]
fn withdraw_on_account_sidechain() {
    let c = withdraw_call(Sidechain::Ethereum, coins("2"), None, &vec![vec![0x12, 0x34]]).unwrap();
    assert_eq!(c.chain, Chain::Ethereum);
    assert_eq!(c.method, "eth_withdraw");
    assert!(matches!(&c.params[0], RpcValue::Text(t) if t == "0x1234"));
    assert!(matches!(c.params[1], RpcValue::Uint(200_000_000)));
    assert!(matches!(c.params[2], RpcValue::Uint(10_000)));
    assert_eq!(
        withdraw_call(Sidechain::Ethereum, coins("2"), None, &vec![]).unwrap_err(),
        ClientError::NoAddressAvailable
    );
}

#[test]
fn refund_unsupported_on_account_sidechain() {
    for fee in [None, Some(coins("0.1")), Some(coins("5"))] {
        assert_eq!(
            refund_call(Sidechain::Ethereum, coins("1"), fee).unwrap_err(),
            ClientError::UnsupportedOperation
        );
    }
}

#[test]
fn refund_passes_amount_then_fee() {
    let c = refund_call(Sidechain::Zcash, coins("3"), Some(coins("0.2"))).unwrap();
    assert_eq!(c.chain, Chain::Zcash);
    assert_eq!(c.method, "refund");
    assert!(matches!(c.params[0], RpcValue::Coins(a) if a.to_sat() == 300_000_000));
    assert!(matches!(c.params[1], RpcValue::Coins(a) if a.to_sat() == 20_000_000));
}

#[test]
fn generate_request_defaults_amount() {
    let c = generate_call(5, None);
    assert_eq!(c.chain, Chain::Zcash);
    assert_eq!(c.method, "generate");
    assert!(matches!(c.params[0], RpcValue::Uint(5)));
    assert!(matches!(c.params[1], RpcValue::Coins(a) if a.to_sat() == 10_000));
}

#[test]
fn new_address_requests() {
    assert_eq!(new_address_call(Chain::Main).unwrap().method, "getnewaddress");
    assert_eq!(new_address_call(Chain::Zcash).unwrap().chain, Chain::Zcash);
    assert!(new_address_call(Chain::Ethereum).is_none());
}

#[test]
fn stop_requests() {
    let s = stop_calls();
    assert_eq!(s.len(), 2);
    assert_eq!((s[0].chain, s[0].method.as_str()), (Chain::Main, "stop"));
    assert_eq!((s[1].chain, s[1].method.as_str()), (Chain::Zcash, "stop"));
}

#[test]
fn balances_sum_and_floor_divide() {
    let r = ethereum_balance(&vec![3_000_000_000_000, 7_000_000_000_000]).unwrap();
    assert_eq!(r.to_sat(), 1_000);
    assert_eq!(ethereum_balance(&vec![19_999_999_999]).unwrap().to_sat(), 1);
    assert_eq!(ethereum_balance(&vec![]).unwrap().to_sat(), 0);
}

#[test]
fn balances_overflow() {
    assert_eq!(ethereum_balance(&vec![u128::MAX, 1]), Err(ClientError::BalanceOverflow));
    let limit = (u64::MAX as u128 + 1) * 10_000_000_000;
    assert_eq!(ethereum_balance(&vec![limit]), Err(ClientError::BalanceOverflow));
    assert_eq!(ethereum_balance(&vec![limit - 1]).unwrap().to_sat(), u64::MAX);
}

#[test]
fn raw_params_become_scalars() {
    assert!(matches!(coerce_param("null"), JsonScalar::Null));
    assert!(matches!(coerce_param("true"), JsonScalar::Bool(true)));
    assert!(matches!(coerce_param("false"), JsonScalar::Bool(false)));
    for n in ["42", "-1.5e10", "0", "-0", "3.25", "1E+3", "2e-7"] {
        assert!(matches!(coerce_param(n), JsonScalar::Number(ref t) if t == n), "{}", n);
    }
    for t in ["abc", "01", "1.", ".5", "-", "1e", "True", "nul", "1x", ""] {
        assert!(matches!(coerce_param(t), JsonScalar::Text(ref x) if x == t), "{}", t);
    }
    assert!(is_json_number_text("10"));
    assert!(!is_json_number_text("1e+"));
}

#[test]
fn first_boot_provisions_and_activates() {
    let plan = boot_plan(BootFacts { binaries_present: false, params_present: false, regtest: true });
    assert_eq!(
        plan,
        vec![
            Step::DownloadBinaries,
            Step::SetupRegtestGenesis,
            Step::FetchParams,
            Step::Spawn(Chain::Main),
            Step::Spawn(Chain::Zcash),
            Step::Spawn(Chain::Ethereum),
            Step::Settle,
            Step::ActivateSidechains,
            Step::StartServer,
        ]
    );
    assert_eq!(plan.iter().filter(|s| **s == Step::DownloadBinaries).count(), 1);
    assert_eq!(plan.iter().filter(|s| matches!(s, Step::Spawn(_))).count(), 3);
    assert_eq!(plan.iter().filter(|s| **s == Step::ActivateSidechains).count(), 1);
}

#[test]
fn second_boot_skips_provisioning() {
    let plan = boot_plan(BootFacts { binaries_present: true, params_present: true, regtest: true });
    assert_eq!(
        plan,
        vec![
            Step::Spawn(Chain::Main),
            Step::Spawn(Chain::Zcash),
            Step::Spawn(Chain::Ethereum),
            Step::Settle,
            Step::StartServer,
        ]
    );
    let mainnet = boot_plan(BootFacts { binaries_present: false, params_present: true, regtest: false });
    assert_eq!(mainnet[0], Step::DownloadBinaries);
    assert!(!mainnet.contains(&Step::ActivateSidechains));
    assert!(!mainnet.contains(&Step::SetupRegtestGenesis));
}

#[test]
fn shutdown_order() {
    assert_eq!(
        shutdown_plan(),
        vec![
            Step::StopServer,
            Step::StopClients,
            Step::Interrupt(Chain::Ethereum),
            Step::Wait(Chain::Zcash),
            Step::Wait(Chain::Main),
            Step::Wait(Chain::Ethereum),
        ]
    );
}

#[test]
fn server_lifecycle() {
    let s = ServerState::Starting;
    assert!(!s.accepts_requests());
    let s = s.next(ServerEvent::Bound);
    assert_eq!(s, ServerState::Listening);
    assert!(s.accepts_requests());
    let s = s.next(ServerEvent::Drained);
    assert_eq!(s, ServerState::Listening);
    let s = s.next(ServerEvent::StopSignal);
    assert_eq!(s, ServerState::Draining);
    assert!(!s.accepts_requests());
    assert!(!s.is_stopped());
    let s = s.next(ServerEvent::Drained);
    assert!(s.is_stopped());
}

#[test]
fn error_messages_are_plain() {
    let rpc = GatewayError::Rpc { code: -8, message: "Invalid amount".to_string() };
    assert_eq!(error_message(&rpc), "Invalid amount");
    let t = GatewayError::Transport("connection refused".to_string());
    assert_eq!(error_message(&t), "connection refused");
    assert_eq!(
        error_message(&GatewayError::Client(ClientError::NoAddressAvailable)),
        "no available ethereum addresses"
    );
    assert_eq!(error_message(&GatewayError::Amount(AmountError::Malformed)), "invalid amount");
    assert!(error_message(&GatewayError::Client(ClientError::UnsupportedOperation)).contains("geth console"));
}

#[test]
fn balance_and_block_count_requests() {
    let b = balance_call(Chain::Main).unwrap();
    assert_eq!((b.chain, b.method.as_str(), b.params.len()), (Chain::Main, "getbalance", 0));
    assert_eq!(balance_call(Chain::Zcash).unwrap().chain, Chain::Zcash);
    assert!(balance_call(Chain::Ethereum).is_none());
    let c = block_count_call(Chain::Zcash).unwrap();
    assert_eq!((c.chain, c.method.as_str()), (Chain::Zcash, "getblockcount"));
    assert!(block_count_call(Chain::Ethereum).is_none());
}

#[test]
fn activation_requests() {
    let calls = activation_calls();
    assert_eq!(calls.len(), 3);
    assert_eq!(calls[0].method, "createsidechainproposal");
    assert!(matches!(calls[0].params[0], RpcValue::Uint(0)));
    assert!(matches!(&calls[0].params[1], RpcValue::Text(t) if t == "zcash"));
    assert!(matches!(calls[1].params[0], RpcValue::Uint(1)));
    assert!(matches!(&calls[1].params[1], RpcValue::Text(t) if t == "ethereum"));
    assert_eq!(calls[2].method, "generate");
    assert!(matches!(calls[2].params[0], RpcValue::Uint(n) if n == ACTIVATION_BLOCKS));
}
