use vstd::prelude::*;
use sha2::Digest;
use crate::amount::{Amount, DEFAULT_FEE_SATS, nat_text, push_nat_text, string_of_chars};
use crate::chain::{Chain, Sidechain, chain_name, sidechain_chain, sidechain_slot};

verus! {

/// Native units of the account-model sidechain in one smallest unit.
pub const WEI_PER_SAT: u128 = 10_000_000_000;

/// A parameter of a node RPC call.
#[derive(Clone, Debug)]
pub enum RpcValue {
    /// An amount in coins, sent as its decimal text.
    Coins(Amount),
    /// A non-negative integer: a count, a slot, or smallest units.
    Uint(u64),
    /// A string.
    Text(String),
}

/// One RPC call on one chain: method and ordered parameters.
#[derive(Clone, Debug)]
pub struct RpcCall {
    pub chain: Chain,
    pub method: String,
    pub params: Vec<RpcValue>,
}

/// Why the client could not form a request.
#[derive(Clone, Copy, Debug, PartialEq, Eq, Structural, Hash)]
pub enum ClientError {
    /// The account-model sidechain controls no accounts.
    NoAddressAvailable,
    /// The operation has no automatic form on this sidechain; its console must be used.
    UnsupportedOperation,
    /// The summed balance does not fit in 64 bits of smallest units.
    BalanceOverflow,
}

/// What the client sends for an amount that may be absent: the amount, or the default fee.
pub open spec fn fee_of(fee: Option<Amount>) -> Amount {
    match fee {
        Some(f) => f,
        None => Amount { sats: DEFAULT_FEE_SATS },
    }
}

/// `call` is `method` on `chain`, with parameters `params`.
pub open spec fn call_is(call: RpcCall, chain: Chain, method: Seq<char>, params: Seq<RpcValue>) -> bool {
    call.chain == chain && call.method@ == method && call.params@ == params
}

/// A character of lowercase hexadecimal.
pub open spec fn hex_digit(n: nat) -> char {
    if n == 0 { '0' } else if n == 1 { '1' } else if n == 2 { '2' } else if n == 3 { '3' }
    else if n == 4 { '4' } else if n == 5 { '5' } else if n == 6 { '6' } else if n == 7 { '7' }
    else if n == 8 { '8' } else if n == 9 { '9' } else if n == 10 { 'a' } else if n == 11 { 'b' }
    else if n == 12 { 'c' } else if n == 13 { 'd' } else if n == 14 { 'e' } else { 'f' }
}

/// Bytes as lowercase hexadecimal, two characters a byte, high half first.
pub open spec fn hex_text(b: Seq<u8>) -> Seq<char>
    decreases b.len(),
{
    if b.len() == 0 {
        seq![]
    } else {
        hex_text(b.drop_last()) + seq![hex_digit(b.last() as nat / 16), hex_digit(b.last() as nat % 16)]
    }
}

/// The SHA-256 digest of a string's UTF-8 bytes.
pub uninterp spec fn sha256_of(s: Seq<char>) -> Seq<u8>;

/// Relies on hex::encode: lowercase hexadecimal, two characters a byte, high half first.
#[verifier::external_body]
fn hex_encode(b: &Vec<u8>) -> (r: String)
    ensures
        r@ == hex_text(b@),
{
    hex::encode(b)
}

/// Relies on sha2::Sha256::digest: the 32-byte digest of the string's bytes.
#[verifier::external_body]
fn sha256_digest(s: &str) -> (r: Vec<u8>)
    ensures
        r@ == sha256_of(s@),
        r@.len() == 32,
{
    sha2::Sha256::digest(s.as_bytes()).to_vec()
}

/// Appends the characters of `s`.
pub(crate) fn push_str(s: &str, out: &mut Vec<char>)
    ensures
        final(out)@ == old(out)@ + s@,
{
    let n = s.unicode_len();
    let mut i: usize = 0;
    while i < n
        invariant
            i <= n,
            n == s@.len(),
            out@ == old(out)@ + s@.take(i as int),
        decreases n - i,
    {
        out.push(s.get_char(i));
        i = i + 1;
        assert(out@ =~= old(out)@ + s@.take(i as int));
    }
    assert(s@.take(n as int) =~= s@);
}

/// The text of an account of the account-model sidechain: `0x` and its bytes in hexadecimal.
pub open spec fn account_text(account: Seq<u8>) -> Seq<char> {
    seq!['0', 'x'] + hex_text(account)
}

/// The text of an account: `0x` followed by its bytes in lowercase hexadecimal.
pub fn account_address(account: &Vec<u8>) -> (r: String)
    ensures
        r@ == account_text(account@),
{
    let hex = hex_encode(account);
    let mut v: Vec<char> = Vec::new();
    v.push('0');
    v.push('x');
    push_str(hex.as_str(), &mut v);
    assert(v@ =~= account_text(account@));
    string_of_chars(&v)
}

/// The address that receives deposits on the account-model sidechain: its first account.
pub fn first_account_address(accounts: &Vec<Vec<u8>>) -> (r: Result<String, ClientError>)
    ensures
        accounts@.len() == 0 ==> r == Err::<String, ClientError>(ClientError::NoAddressAvailable),
        accounts@.len() > 0 ==> (r matches Ok(a) && a@ == account_text(accounts@[0]@)),
{
    if accounts.len() == 0 {
        Err(ClientError::NoAddressAvailable)
    } else {
        Ok(account_address(&accounts[0]))
    }
}

/// The part of a deposit address before its checksum: `s<slot>_<address>_`.
pub open spec fn deposit_prefix(slot: nat, address: Seq<char>) -> Seq<char> {
    seq!['s'] + nat_text(slot) + seq!['_'] + address + seq!['_']
}

/// A deposit address whose prefix has the given digest: the prefix and the first six
/// hexadecimal characters of the digest.
pub open spec fn deposit_address_text(slot: nat, address: Seq<char>, digest: Seq<u8>) -> Seq<char> {
    deposit_prefix(slot, address) + hex_text(digest).take(6)
}

/// Forms a deposit address from the digest of its prefix.
pub fn deposit_address_with_digest(slot: usize, address: &str, digest: &Vec<u8>) -> (r: String)
    requires
        digest@.len() >= 3,
    ensures
        r@ == deposit_address_text(slot as nat, address@, digest@),
{
    let prefix = deposit_prefix_string(slot, address);
    let hex = hex_encode(digest);
    proof {
        lemma_hex_len(digest@);
    }
    let mut v: Vec<char> = Vec::new();
    push_str(prefix.as_str(), &mut v);
    let h = hex.as_str();
    let mut i: usize = 0;
    while i < 6
        invariant
            i <= 6,
            h@ == hex_text(digest@),
            h@.len() >= 6,
            v@ == deposit_prefix(slot as nat, address@) + h@.take(i as int),
        decreases 6 - i,
    {
        v.push(h.get_char(i));
        i = i + 1;
        assert(v@ =~= deposit_prefix(slot as nat, address@) + h@.take(i as int));
    }
    string_of_chars(&v)
}

proof fn lemma_hex_len(b: Seq<u8>)
    ensures
        hex_text(b).len() == 2 * b.len(),
    decreases b.len(),
{
    if b.len() > 0 {
        lemma_hex_len(b.drop_last());
    }
}

fn deposit_prefix_string(slot: usize, address: &str) -> (r: String)
    ensures
        r@ == deposit_prefix(slot as nat, address@),
{
    let mut v: Vec<char> = Vec::new();
    v.push('s');
    push_nat_text(slot as u64, &mut v);
    v.push('_');
    push_str(address, &mut v);
    v.push('_');
    assert(v@ =~= deposit_prefix(slot as nat, address@));
    string_of_chars(&v)
}

/// The deposit address of `address` on the sidechain in `slot`: `s<slot>_<address>_`
/// and a six-character checksum from the SHA-256 digest of that prefix.
pub fn format_deposit_address(slot: usize, address: &str) -> (r: String)
    ensures
        r@ == deposit_address_text(
            slot as nat,
            address@,
            sha256_of(deposit_prefix(slot as nat, address@)),
        ),
{
    let prefix = deposit_prefix_string(slot, address);
    let digest = sha256_digest(prefix.as_str());
    deposit_address_with_digest(slot, address, &digest)
}

/// A deposit address begins with `s` and the decimal slot of its sidechain.
pub proof fn lemma_deposit_address_slot(slot: nat, address: Seq<char>, digest: Seq<u8>)
    ensures
        deposit_address_text(slot, address, digest).subrange(0, 1 + nat_text(slot).len() as int)
            == seq!['s'] + nat_text(slot),
        nat_text(0) == seq!['0'],
        nat_text(1) == seq!['1'],
{
    assert(deposit_address_text(slot, address, digest).subrange(0, 1 + nat_text(slot).len() as int)
        =~= seq!['s'] + nat_text(slot));
}


fn text(s: &str) -> (r: String)
    ensures
        r@ == s@,
{
    String::from_str(s)
}

fn call_with(chain: Chain, method: &str, params: Vec<RpcValue>) -> (r: RpcCall)
    ensures
        r.chain == chain,
        r.method@ == method@,
        r.params == params,
{
    RpcCall { chain, method: text(method), params }
}

/// The request for `count` new blocks on the sidechain node, with the given amount or
/// the default one.
pub fn generate_call(count: u64, amount: Option<Amount>) -> (r: RpcCall)
    ensures
        call_is(r, Chain::Zcash, "generate"@, seq![RpcValue::Uint(count), RpcValue::Coins(fee_of(amount))]),
{
    let mut params: Vec<RpcValue> = Vec::new();
    params.push(RpcValue::Uint(count));
    params.push(RpcValue::Coins(Amount::fee_or_default(amount)));
    let r = call_with(Chain::Zcash, "generate", params);
    assert(r.params@ =~= seq![RpcValue::Uint(count), RpcValue::Coins(fee_of(amount))]);
    r
}

/// The request for a fresh address on a node that issues them; the account-model
/// sidechain issues none and answers with its first account instead.
pub fn new_address_call(chain: Chain) -> (r: Option<RpcCall>)
    ensures
        chain == Chain::Ethereum <==> r is None,
        r matches Some(c) ==> call_is(c, chain, "getnewaddress"@, seq![]),
{
    match chain {
        Chain::Ethereum => None,
        _ => {
            let r = call_with(chain, "getnewaddress", Vec::new());
            assert(r.params@ =~= Seq::<RpcValue>::empty());
            Some(r)
        },
    }
}

/// The mainchain request that deposits `amount` to `sidechain` at `address`, with the
/// given fee or the default one.
pub fn deposit_call(sidechain: Sidechain, address: &str, amount: Amount, fee: Option<Amount>) -> (r: RpcCall)
    ensures
        r.chain == Chain::Main,
        r.method@ == "createsidechaindeposit"@,
        r.params@.len() == 4,
        r.params@[0] == RpcValue::Uint(sidechain_slot(sidechain) as u64),
        r.params@[1] matches RpcValue::Text(t) && t@ == deposit_address_text(
            sidechain_slot(sidechain),
            address@,
            sha256_of(deposit_prefix(sidechain_slot(sidechain), address@)),
        ),
        r.params@[2] == RpcValue::Coins(amount),
        r.params@[3] == RpcValue::Coins(fee_of(fee)),
{
    let slot = sidechain.number();
    let encoded = format_deposit_address(slot, address);
    let mut params: Vec<RpcValue> = Vec::new();
    params.push(RpcValue::Uint(slot as u64));
    params.push(RpcValue::Text(encoded));
    params.push(RpcValue::Coins(amount));
    params.push(RpcValue::Coins(Amount::fee_or_default(fee)));
    call_with(Chain::Main, "createsidechaindeposit", params)
}

/// The request that withdraws `amount` from `sidechain` to the mainchain. The fee is the
/// withdrawal's priority in the sidechain's bundle and is passed on its own, after the
/// amount. The account-model sidechain withdraws from its first account.
pub fn withdraw_call(sidechain: Sidechain, amount: Amount, fee: Option<Amount>, accounts: &Vec<Vec<u8>>) -> (r: Result<RpcCall, ClientError>)
    ensures
        sidechain == Sidechain::Zcash ==> (r matches Ok(c) && call_is(
            c,
            Chain::Zcash,
            "withdraw"@,
            seq![RpcValue::Coins(amount), RpcValue::Coins(fee_of(fee))],
        )),
        sidechain == Sidechain::Ethereum && accounts@.len() == 0 ==> r == Err::<RpcCall, ClientError>(
            ClientError::NoAddressAvailable,
        ),
        sidechain == Sidechain::Ethereum && accounts@.len() > 0 ==> (r matches Ok(c) && {
            &&& c.chain == Chain::Ethereum
            &&& c.method@ == "eth_withdraw"@
            &&& c.params@.len() == 3
            &&& c.params@[0] matches RpcValue::Text(t) && t@ == account_text(accounts@[0]@)
            &&& c.params@[1] == RpcValue::Uint(amount.sats)
            &&& c.params@[2] == RpcValue::Uint(fee_of(fee).sats)
        }),
{
    let fee = Amount::fee_or_default(fee);
    match sidechain {
        Sidechain::Zcash => {
            let mut params: Vec<RpcValue> = Vec::new();
            params.push(RpcValue::Coins(amount));
            params.push(RpcValue::Coins(fee));
            let r = call_with(Chain::Zcash, "withdraw", params);
            assert(r.params@ =~= seq![RpcValue::Coins(amount), RpcValue::Coins(fee)]);
            Ok(r)
        },
        Sidechain::Ethereum => {
            let account = first_account_address(accounts)?;
            let mut params: Vec<RpcValue> = Vec::new();
            params.push(RpcValue::Text(account));
            params.push(RpcValue::Uint(amount.to_sat()));
            params.push(RpcValue::Uint(fee.to_sat()));
            Ok(call_with(Chain::Ethereum, "eth_withdraw", params))
        },
    }
}

/// The request that refunds `amount` pending withdrawal back to `sidechain`, with the fee
/// of the change withdrawal as its priority, passed after the amount. The account-model
/// sidechain has no such request: refunds there are made by hand on its console, and no
/// call is formed.
pub fn refund_call(sidechain: Sidechain, amount: Amount, fee: Option<Amount>) -> (r: Result<RpcCall, ClientError>)
    ensures
        sidechain == Sidechain::Zcash ==> (r matches Ok(c) && call_is(
            c,
            Chain::Zcash,
            "refund"@,
            seq![RpcValue::Coins(amount), RpcValue::Coins(fee_of(fee))],
        )),
        sidechain == Sidechain::Ethereum <==> r == Err::<RpcCall, ClientError>(
            ClientError::UnsupportedOperation,
        ),
{
    match sidechain {
        Sidechain::Zcash => {
            let mut params: Vec<RpcValue> = Vec::new();
            params.push(RpcValue::Coins(amount));
            params.push(RpcValue::Coins(Amount::fee_or_default(fee)));
            let r = call_with(Chain::Zcash, "refund", params);
            assert(r.params@ =~= seq![RpcValue::Coins(amount), RpcValue::Coins(fee_of(fee))]);
            Ok(r)
        },
        Sidechain::Ethereum => Err(ClientError::UnsupportedOperation),
    }
}

/// The requests that stop the mainchain node and then the sidechain node that take them.
pub fn stop_calls() -> (r: Vec<RpcCall>)
    ensures
        r@.len() == 2,
        call_is(r@[0], Chain::Main, "stop"@, seq![]),
        call_is(r@[1], Chain::Zcash, "stop"@, seq![]),
{
    let mut r: Vec<RpcCall> = Vec::new();
    let a = call_with(Chain::Main, "stop", Vec::new());
    let b = call_with(Chain::Zcash, "stop", Vec::new());
    assert(a.params@ =~= Seq::<RpcValue>::empty());
    assert(b.params@ =~= Seq::<RpcValue>::empty());
    r.push(a);
    r.push(b);
    r
}

/// Blocks mined on the mainchain after the sidechain proposals, so that they are acknowledged.
pub const ACTIVATION_BLOCKS: u64 = 200;

fn plain_call(chain: Chain, method: &str) -> (r: RpcCall)
    ensures
        call_is(r, chain, method@, seq![]),
{
    let r = call_with(chain, method, Vec::new());
    assert(r.params@ =~= Seq::<RpcValue>::empty());
    r
}

/// The request for a node's balance in coins. The account-model sidechain has none: its
/// balance is the sum over its accounts (see `ethereum_balance`).
pub fn balance_call(chain: Chain) -> (r: Option<RpcCall>)
    ensures
        chain == Chain::Ethereum <==> r is None,
        r matches Some(c) ==> call_is(c, chain, "getbalance"@, seq![]),
{
    match chain {
        Chain::Ethereum => None,
        _ => Some(plain_call(chain, "getbalance")),
    }
}

/// The request for a node's block count. The account-model sidechain is asked for its
/// block number through its own dialect instead.
pub fn block_count_call(chain: Chain) -> (r: Option<RpcCall>)
    ensures
        chain == Chain::Ethereum <==> r is None,
        r matches Some(c) ==> call_is(c, chain, "getblockcount"@, seq![]),
{
    match chain {
        Chain::Ethereum => None,
        _ => Some(plain_call(chain, "getblockcount")),
    }
}

fn proposal_call(sidechain: Sidechain) -> (r: RpcCall)
    ensures
        r.chain == Chain::Main,
        r.method@ == "createsidechainproposal"@,
        r.params@.len() == 2,
        r.params@[0] == RpcValue::Uint(sidechain_slot(sidechain) as u64),
        r.params@[1] matches RpcValue::Text(t) && t@ == chain_name(sidechain_chain(sidechain)),
{
    let mut params: Vec<RpcValue> = Vec::new();
    params.push(RpcValue::Uint(sidechain.number() as u64));
    params.push(RpcValue::Text(text(sidechain.name())));
    call_with(Chain::Main, "createsidechainproposal", params)
}

/// The mainchain requests that activate the sidechains on regtest: a proposal for each,
/// by slot and name, then `ACTIVATION_BLOCKS` blocks to acknowledge them.
pub fn activation_calls() -> (r: Vec<RpcCall>)
    ensures
        r@.len() == 3,
        r@[0].method@ == "createsidechainproposal"@ && r@[0].chain == Chain::Main
            && r@[0].params@.len() == 2 && r@[0].params@[0] == RpcValue::Uint(0),
        r@[1].method@ == "createsidechainproposal"@ && r@[1].chain == Chain::Main
            && r@[1].params@.len() == 2 && r@[1].params@[0] == RpcValue::Uint(1),
        call_is(r@[2], Chain::Main, "generate"@, seq![RpcValue::Uint(ACTIVATION_BLOCKS)]),
{
    let mut r: Vec<RpcCall> = Vec::new();
    r.push(proposal_call(Sidechain::Zcash));
    r.push(proposal_call(Sidechain::Ethereum));
    let mut params: Vec<RpcValue> = Vec::new();
    params.push(RpcValue::Uint(ACTIVATION_BLOCKS));
    let g = call_with(Chain::Main, "generate", params);
    assert(g.params@ =~= seq![RpcValue::Uint(ACTIVATION_BLOCKS)]);
    r.push(g);
    r
}

/// The sum of a sequence of balances.
pub open spec fn balance_sum(s: Seq<u128>) -> nat
    decreases s.len(),
{
    if s.len() == 0 {
        0
    } else {
        balance_sum(s.drop_last()) + s.last() as nat
    }
}

proof fn lemma_balance_sum_prefix(s: Seq<u128>, i: int)
    requires
        0 <= i <= s.len(),
    ensures
        balance_sum(s.take(i)) <= balance_sum(s),
    decreases s.len(),
{
    if i < s.len() {
        assert(s.drop_last().take(i) =~= s.take(i));
        lemma_balance_sum_prefix(s.drop_last(), i);
    } else {
        assert(s.take(i) =~= s);
    }
}

/// The account-model sidechain's balance in smallest units: the balances of its accounts,
/// in native units, summed and divided by `WEI_PER_SAT`, the remainder dropped.
pub fn ethereum_balance(balances: &Vec<u128>) -> (r: Result<Amount, ClientError>)
    ensures
        balance_sum(balances@) / (WEI_PER_SAT as nat) <= u64::MAX ==> r == Ok::<Amount, ClientError>(
            Amount { sats: (balance_sum(balances@) / (WEI_PER_SAT as nat)) as u64 },
        ),
        balance_sum(balances@) / (WEI_PER_SAT as nat) > u64::MAX ==> r == Err::<Amount, ClientError>(
            ClientError::BalanceOverflow,
        ),
{
    let mut total: u128 = 0;
    let mut i: usize = 0;
    assert(balances@.take(0) =~= Seq::<u128>::empty());
    while i < balances.len()
        invariant
            i <= balances@.len(),
            total as nat == balance_sum(balances@.take(i as int)),
        decreases balances@.len() - i,
    {
        assert(balances@.take(i + 1).drop_last() =~= balances@.take(i as int));
        match total.checked_add(balances[i]) {
            Some(t) => {
                total = t;
            },
            None => {
                proof {
                    lemma_balance_sum_prefix(balances@, i + 1);
                    assert(balance_sum(balances@) > u128::MAX);
                    assert(balance_sum(balances@) / (WEI_PER_SAT as nat) > u64::MAX) by (nonlinear_arith)
                        requires
                            balance_sum(balances@) > u128::MAX,
                    ;
                }
                return Err(ClientError::BalanceOverflow);
            },
        }
        i = i + 1;
    }
    assert(balances@.take(i as int) =~= balances@);
    let sats = total / WEI_PER_SAT;
    if sats > u64::MAX as u128 {
        return Err(ClientError::BalanceOverflow);
    }
    Ok(Amount { sats: sats as u64 })
}

} // verus!
