use vstd::prelude::*;
use vstd::arithmetic::div_mod::lemma_fundamental_div_mod_converse;

verus! {

/// Smallest units in one coin.
pub const SATS_PER_COIN: u64 = 100_000_000;

/// The fee used when a request names none: 0.0001 coin.
pub const DEFAULT_FEE_SATS: u64 = 10_000;

/// The largest whole number of coins that fits in smallest units.
pub const MAX_WHOLE_COINS: u64 = 184_467_440_737;

/// A money value, counted in smallest units.
#[derive(Clone, Copy, Debug, PartialEq, Eq, Structural, Hash, PartialOrd, Ord)]
pub struct Amount {
    pub sats: u64,
}

/// Why a decimal amount was refused.
#[derive(Clone, Copy, Debug, PartialEq, Eq, Structural, Hash)]
pub enum AmountError {
    /// The text is not a decimal number of coins with at most eight places.
    Malformed,
    /// The value does not fit in 64 bits of smallest units.
    TooLarge,
}

pub open spec fn pow10(e: nat) -> nat
    decreases e,
{
    if e == 0 {
        1
    } else {
        10 * pow10((e - 1) as nat)
    }
}

pub open spec fn is_digit(c: char) -> bool {
    c == '0' || c == '1' || c == '2' || c == '3' || c == '4' || c == '5' || c == '6' || c == '7'
        || c == '8' || c == '9'
}

pub open spec fn digit_num(c: char) -> nat {
    if c == '1' {
        1
    } else if c == '2' {
        2
    } else if c == '3' {
        3
    } else if c == '4' {
        4
    } else if c == '5' {
        5
    } else if c == '6' {
        6
    } else if c == '7' {
        7
    } else if c == '8' {
        8
    } else if c == '9' {
        9
    } else {
        0
    }
}

pub open spec fn digit_char(d: nat) -> char {
    if d == 0 {
        '0'
    } else if d == 1 {
        '1'
    } else if d == 2 {
        '2'
    } else if d == 3 {
        '3'
    } else if d == 4 {
        '4'
    } else if d == 5 {
        '5'
    } else if d == 6 {
        '6'
    } else if d == 7 {
        '7'
    } else if d == 8 {
        '8'
    } else {
        '9'
    }
}

pub open spec fn all_digits(s: Seq<char>) -> bool {
    forall|i: int| 0 <= i < s.len() ==> is_digit(#[trigger] s[i])
}

/// The number that a string of decimal digits denotes.
pub open spec fn digits_value(s: Seq<char>) -> nat
    decreases s.len(),
{
    if s.len() == 0 {
        0
    } else {
        digits_value(s.drop_last()) * 10 + digit_num(s.last())
    }
}

/// The decimal digits of `n`, without leading zeros.
pub open spec fn nat_text(n: nat) -> Seq<char>
    decreases n,
{
    if n < 10 {
        seq![digit_char(n)]
    } else {
        nat_text(n / 10).push(digit_char(n % 10))
    }
}

/// The last `w` decimal digits of `n`, padded with zeros.
pub open spec fn padded_text(n: nat, w: nat) -> Seq<char>
    decreases w,
{
    if w == 0 {
        seq![]
    } else {
        padded_text(n / 10, (w - 1) as nat).push(digit_char(n % 10))
    }
}

/// The decimal form of an amount in coins: whole coins, a point, eight places.
pub open spec fn coin_text(sats: nat) -> Seq<char> {
    nat_text(sats / (SATS_PER_COIN as nat)) + seq!['.'] + padded_text(
        sats % (SATS_PER_COIN as nat),
        8,
    )
}

/// `s` is a whole number of coins.
pub open spec fn is_whole_text(s: Seq<char>) -> bool {
    s.len() > 0 && all_digits(s)
}

/// `s` is digits, a point at `k`, and one to eight digits.
pub open spec fn point_at(s: Seq<char>, k: int) -> bool {
    &&& 0 < k < s.len() - 1
    &&& s.len() - 1 - k <= 8
    &&& s[k] == '.'
    &&& all_digits(s.take(k))
    &&& all_digits(s.skip(k + 1))
}

/// The smallest units that `s`, with its point at `k`, denotes.
pub open spec fn value_with_point(s: Seq<char>, k: int) -> nat {
    digits_value(s.take(k)) * pow10(8) + digits_value(s.skip(k + 1)) * pow10(
        (8 - (s.len() - 1 - k)) as nat,
    )
}

/// `s` is a decimal number of coins with at most eight places.
pub open spec fn is_coin_text(s: Seq<char>) -> bool {
    is_whole_text(s) || exists|k: int| point_at(s, k)
}

/// The smallest units that a decimal number of coins denotes.
pub open spec fn coin_text_value(s: Seq<char>) -> nat {
    if is_whole_text(s) {
        digits_value(s) * pow10(8)
    } else {
        value_with_point(s, choose|k: int| point_at(s, k))
    }
}

/// `s` is the form that `coin_text` gives: no leading zero, exactly eight places.
pub open spec fn is_canonical_coin_text(s: Seq<char>) -> bool {
    exists|k: int| point_at(s, k) && s.len() - 1 - k == 8 && (k == 1 || s[0] != '0')
}

proof fn lemma_pow10_8()
    ensures
        pow10(8) == 100_000_000,
        pow10(0) == 1,
{
    reveal_with_fuel(pow10, 9);
}

proof fn lemma_digit_round(c: char)
    requires
        is_digit(c),
    ensures
        digit_num(c) < 10,
        digit_char(digit_num(c)) == c,
{
}

proof fn lemma_digit_char_is_digit(d: nat)
    requires
        d < 10,
    ensures
        is_digit(digit_char(d)),
        digit_num(digit_char(d)) == d,
{
}

/// A string of `n` digits denotes less than `10^n`.
pub proof fn lemma_digits_bound(s: Seq<char>)
    requires
        all_digits(s),
    ensures
        digits_value(s) < pow10(s.len()),
    decreases s.len(),
{
    if s.len() > 0 {
        let t = s.drop_last();
        assert(all_digits(t));
        lemma_digits_bound(t);
        lemma_digit_round(s.last());
        let a = digits_value(t);
        let p = pow10(t.len());
        assert(a * 10 + digit_num(s.last()) < 10 * p) by (nonlinear_arith)
            requires
                a < p,
                digit_num(s.last()) < 10,
        ;
    }
}

/// Leaving digits off the end never makes the number larger.
pub proof fn lemma_digits_prefix(s: Seq<char>, i: int)
    requires
        0 <= i <= s.len(),
    ensures
        digits_value(s.take(i)) <= digits_value(s),
    decreases s.len(),
{
    if i < s.len() {
        let t = s.drop_last();
        assert(t.take(i) =~= s.take(i));
        lemma_digits_prefix(t, i);
    } else {
        assert(s.take(i) =~= s);
    }
}

/// A digit appended to a run of digits.
pub proof fn lemma_digits_extend(s: Seq<char>, from: int, to: int)
    requires
        0 <= from < to <= s.len(),
    ensures
        digits_value(s.subrange(from, to)) == digits_value(s.subrange(from, to - 1)) * 10
            + digit_num(s[to - 1]),
{
    assert(s.subrange(from, to).drop_last() =~= s.subrange(from, to - 1));
}

/// The text of `n` is canonical digits that denote `n`.
pub proof fn lemma_nat_text(n: nat)
    ensures
        is_whole_text(nat_text(n)),
        digits_value(nat_text(n)) == n,
        nat_text(n).len() == 1 || nat_text(n)[0] != '0',
        n >= 1 ==> nat_text(n)[0] != '0',
    decreases n,
{
    if n < 10 {
        lemma_digit_char_is_digit(n);
        assert(nat_text(n).drop_last() =~= Seq::<char>::empty());
        assert(digits_value(Seq::<char>::empty()) == 0);
    } else {
        lemma_nat_text(n / 10);
        let t = nat_text(n / 10);
        lemma_digit_char_is_digit(n % 10);
        assert(nat_text(n).drop_last() =~= t);
        assert(nat_text(n)[0] == t[0]);
        assert(nat_text(n).last() == digit_char(n % 10));
        assert(n == (n / 10) * 10 + n % 10);
    }
}

/// Canonical digits are the text of what they denote.
pub proof fn lemma_text_of_digits(s: Seq<char>)
    requires
        is_whole_text(s),
        s.len() == 1 || s[0] != '0',
    ensures
        nat_text(digits_value(s)) == s,
    decreases s.len(),
{
    let t = s.drop_last();
    let c = s.last();
    lemma_digit_round(c);
    if s.len() == 1 {
        assert(t =~= Seq::<char>::empty());
        assert(digits_value(t) == 0);
        assert(digits_value(s) == digit_num(c));
        assert(seq![c] =~= s);
    } else {
        assert(t[0] == s[0]);
        assert(all_digits(t));
        lemma_text_of_digits(t);
        let a = digits_value(t);
        lemma_leading_digit(t);
        let v = a * 10 + digit_num(c);
        assert(v / 10 == a && v % 10 == digit_num(c) && v >= 10) by (nonlinear_arith)
            requires
                v == a * 10 + digit_num(c),
                digit_num(c) < 10,
                a >= 1,
        ;
        assert(nat_text(v) == nat_text(a).push(digit_char(digit_num(c))));
        assert(t.push(c) =~= s);
    }
}

/// Digits that do not start with zero denote at least one.
proof fn lemma_leading_digit(s: Seq<char>)
    requires
        is_whole_text(s),
        s[0] != '0',
    ensures
        digits_value(s) >= 1,
    decreases s.len(),
{
    let t = s.drop_last();
    if s.len() == 1 {
        assert(s.last() == s[0]);
    } else {
        assert(t[0] == s[0]);
        assert(all_digits(t));
        lemma_leading_digit(t);
    }
}

/// Digits padded to their own width are the digits themselves.
pub proof fn lemma_padded_of_digits(s: Seq<char>)
    requires
        all_digits(s),
    ensures
        padded_text(digits_value(s), s.len()) == s,
    decreases s.len(),
{
    if s.len() == 0 {
        assert(padded_text(0, 0) =~= s);
    } else {
        let t = s.drop_last();
        let c = s.last();
        lemma_digit_round(c);
        assert(all_digits(t));
        lemma_padded_of_digits(t);
        let a = digits_value(t);
        let v = a * 10 + digit_num(c);
        assert(v / 10 == a && v % 10 == digit_num(c)) by (nonlinear_arith)
            requires
                v == a * 10 + digit_num(c),
                digit_num(c) < 10,
        ;
        assert(t.push(c) =~= s);
    }
}

/// The point of a decimal number of coins stands in one place only.
pub proof fn lemma_point_unique(s: Seq<char>, k1: int, k2: int)
    requires
        point_at(s, k1),
        point_at(s, k2),
    ensures
        k1 == k2,
{
    if k1 < k2 {
        assert(s.take(k2)[k1] == s[k1]);
    } else if k2 < k1 {
        assert(s.take(k1)[k2] == s[k2]);
    }
}

/// A number with a point is not a whole number.
pub proof fn lemma_point_not_whole(s: Seq<char>, k: int)
    requires
        point_at(s, k),
    ensures
        !is_whole_text(s),
        coin_text_value(s) == value_with_point(s, k),
{
    let j = choose|j: int| point_at(s, j);
    lemma_point_unique(s, j, k);
}

/// Writing an amount in coins and reading it back gives the same text, for every
/// text in the written form whose value fits in 64 bits.
pub proof fn lemma_coin_text_round_trip(s: Seq<char>)
    requires
        is_canonical_coin_text(s),
        coin_text_value(s) <= u64::MAX,
    ensures
        is_coin_text(s),
        coin_text(coin_text_value(s)) == s,
{
    let k = choose|k: int|
        point_at(s, k) && s.len() - 1 - k == 8 && (k == 1 || s[0] != '0');
    lemma_point_not_whole(s, k);
    let w = s.take(k);
    let f = s.skip(k + 1);
    lemma_pow10_8();
    lemma_digits_bound(f);
    reveal_with_fuel(pow10, 9);
    let wv = digits_value(w);
    let fv = digits_value(f);
    let v = wv * 100_000_000 + fv;
    assert(s.len() - 1 - k == 8);
    assert(value_with_point(s, k) == wv * pow10(8) + fv * pow10(0));
    let p0 = pow10(0);
    let p8 = pow10(8);
    assert(fv * p0 + wv * p8 == v) by (nonlinear_arith)
        requires
            p0 == 1,
            p8 == 100_000_000,
            v == wv * 100_000_000 + fv,
    ;
    assert(coin_text_value(s) == v);
    lemma_fundamental_div_mod_converse(v as int, 100_000_000, wv as int, fv as int);
    assert(w[0] == s[0]);
    lemma_text_of_digits(w);
    lemma_padded_of_digits(f);
    assert(nat_text(wv) + seq!['.'] + padded_text(fv, 8) =~= s);
}

/// Every amount reads back from its written form.
pub proof fn lemma_coin_text_parses(sats: nat)
    ensures
        is_canonical_coin_text(coin_text(sats)),
        coin_text_value(coin_text(sats)) == sats,
{
    let w = sats / 100_000_000;
    let f = sats % 100_000_000;
    let wt = nat_text(w);
    let ft = padded_text(f, 8);
    let s = coin_text(sats);
    let k = wt.len() as int;
    lemma_nat_text(w);
    lemma_padded_digits(f, 8);
    assert(s.take(k) =~= wt);
    assert(s.skip(k + 1) =~= ft);
    assert(s[k] == '.');
    assert(k == 1 || s[0] == wt[0]);
    assert(point_at(s, k));
    lemma_point_not_whole(s, k);
    lemma_pow10_8();
    reveal_with_fuel(pow10, 9);
    lemma_padded_value(f, 8);
    assert(f < 100_000_000);
    assert(sats == w * 100_000_000 + f);
    assert(s.len() - 1 - k == 8);
    let p0 = pow10(0);
    let p8 = pow10(8);
    assert(value_with_point(s, k) == digits_value(wt) * p8 + digits_value(ft) * p0);
    assert(digits_value(wt) * p8 + digits_value(ft) * p0 == sats) by (nonlinear_arith)
        requires
            p0 == 1,
            p8 == 100_000_000,
            digits_value(wt) == w,
            digits_value(ft) == f,
            sats == w * 100_000_000 + f,
    ;
}

/// Padded text is digits.
proof fn lemma_padded_digits(n: nat, w: nat)
    ensures
        all_digits(padded_text(n, w)),
        padded_text(n, w).len() == w,
    decreases w,
{
    if w > 0 {
        lemma_padded_digits(n / 10, (w - 1) as nat);
        lemma_digit_char_is_digit(n % 10);
    }
}

/// Padded text denotes the number modulo the width's power of ten.
proof fn lemma_padded_value(n: nat, w: nat)
    ensures
        digits_value(padded_text(n, w)) == n % pow10(w),
    decreases w,
{
    if w == 0 {
    } else {
        let wp = (w - 1) as nat;
        lemma_padded_value(n / 10, wp);
        lemma_digit_char_is_digit(n % 10);
        assert(padded_text(n, w).drop_last() =~= padded_text(n / 10, wp));
        let p = pow10(wp);
        assert(p > 0) by {
            lemma_pow10_pos(wp);
        }
        assert((n / 10) % p * 10 + n % 10 == n % (10 * p)) by {
            vstd::arithmetic::div_mod::lemma_breakdown(n as int, 10, p as int);
        }
    }
}

proof fn lemma_pow10_pos(e: nat)
    ensures
        pow10(e) > 0,
    decreases e,
{
    if e > 0 {
        lemma_pow10_pos((e - 1) as nat);
    }
}


/// Relies on `String`'s `FromIterator<char>`: the string holds the characters in order.
#[verifier::external_body]
pub(crate) fn string_of_chars(v: &Vec<char>) -> (r: String)
    ensures
        r@ == v@,
{
    v.iter().collect()
}

fn digit_of(c: char) -> (r: Option<u64>)
    ensures
        r is Some <==> is_digit(c),
        r matches Some(d) ==> d as nat == digit_num(c),
{
    match c {
        '0' => Some(0),
        '1' => Some(1),
        '2' => Some(2),
        '3' => Some(3),
        '4' => Some(4),
        '5' => Some(5),
        '6' => Some(6),
        '7' => Some(7),
        '8' => Some(8),
        '9' => Some(9),
        _ => None,
    }
}

fn char_of_digit(d: u64) -> (r: char)
    requires
        d < 10,
    ensures
        r == digit_char(d as nat),
{
    if d == 0 {
        '0'
    } else if d == 1 {
        '1'
    } else if d == 2 {
        '2'
    } else if d == 3 {
        '3'
    } else if d == 4 {
        '4'
    } else if d == 5 {
        '5'
    } else if d == 6 {
        '6'
    } else if d == 7 {
        '7'
    } else if d == 8 {
        '8'
    } else {
        '9'
    }
}

/// Appends the decimal digits of `n`.
pub(crate) fn push_nat_text(n: u64, out: &mut Vec<char>)
    ensures
        final(out)@ == old(out)@ + nat_text(n as nat),
    decreases n,
{
    if n >= 10 {
        push_nat_text(n / 10, out);
    }
    out.push(char_of_digit(n % 10));
    proof {
        if n < 10 {
            assert(n % 10 == n);
        }
    }
    assert(final(out)@ =~= old(out)@ + nat_text(n as nat));
}

/// Appends the last `w` decimal digits of `n`, padded with zeros.
fn push_padded_text(n: u64, w: u64, out: &mut Vec<char>)
    ensures
        final(out)@ == old(out)@ + padded_text(n as nat, w as nat),
    decreases w,
{
    if w > 0 {
        push_padded_text(n / 10, w - 1, out);
        out.push(char_of_digit(n % 10));
    }
    assert(final(out)@ =~= old(out)@ + padded_text(n as nat, w as nat));
}

/// The number that `s[from..to]` denotes, where it is at most `bound`.
fn digits_up_to(s: &str, from: usize, to: usize, bound: u64) -> (r: Option<u64>)
    requires
        from <= to <= s@.len(),
        all_digits(s@.subrange(from as int, to as int)),
    ensures
        r == (if digits_value(s@.subrange(from as int, to as int)) <= bound as nat {
            Some(digits_value(s@.subrange(from as int, to as int)) as u64)
        } else {
            None::<u64>
        }),
{
    let ghost full = s@.subrange(from as int, to as int);
    let mut acc: u64 = 0;
    let mut i: usize = from;
    assert(s@.subrange(from as int, from as int) =~= Seq::<char>::empty());
    while i < to
        invariant
            from <= i <= to <= s@.len(),
            full == s@.subrange(from as int, to as int),
            all_digits(full),
            acc as nat == digits_value(s@.subrange(from as int, i as int)),
            acc <= bound,
        decreases to - i,
    {
        let c = s.get_char(i);
        assert(full[i - from] == c);
        let d = digit_of(c).unwrap();
        proof {
            lemma_digits_extend(s@, from as int, i + 1);
            assert(full.take(i + 1 - from) =~= s@.subrange(from as int, i + 1));
            lemma_digits_prefix(full, i + 1 - from);
        }
        if acc > bound / 10 {
            assert(acc * 10 + d > bound) by (nonlinear_arith)
                requires
                    acc > bound / 10,
            ;
            return None;
        }
        assert(acc * 10 <= bound) by (nonlinear_arith)
            requires
                acc <= bound / 10,
        ;
        if d > bound || acc * 10 > bound - d {
            return None;
        }
        acc = acc * 10 + d;
        i = i + 1;
    }
    assert(s@.subrange(from as int, i as int) == full);
    Some(acc)
}

fn pow10_exec(e: u64) -> (r: u64)
    requires
        e <= 8,
    ensures
        r as nat == pow10(e as nat),
    decreases e,
{
    if e == 0 {
        1
    } else {
        let p = pow10_exec(e - 1);
        proof {
            lemma_pow10_mono((e - 1) as nat);
        }
        10 * p
    }
}

proof fn lemma_pow10_mono(e: nat)
    requires
        e <= 8,
    ensures
        pow10(e) <= 100_000_000,
    decreases e,
{
    reveal_with_fuel(pow10, 9);
}

impl Amount {
    /// The amount of `sats` smallest units.
    pub fn from_sat(sats: u64) -> (r: Amount)
        ensures
            r.sats == sats,
    {
        Amount { sats }
    }

    /// The amount in smallest units.
    pub fn to_sat(&self) -> (r: u64)
        ensures
            r == self.sats,
    {
        self.sats
    }

    /// The fee used where a request gives none.
    pub fn default_fee() -> (r: Amount)
        ensures
            r.sats == DEFAULT_FEE_SATS,
    {
        Amount { sats: DEFAULT_FEE_SATS }
    }

    /// The given fee, or the default fee where none is given.
    pub fn fee_or_default(fee: Option<Amount>) -> (r: Amount)
        ensures
            r == (match fee {
                Some(f) => f,
                None => Amount { sats: DEFAULT_FEE_SATS },
            }),
    {
        match fee {
            Some(f) => f,
            None => Amount::default_fee(),
        }
    }

    /// The amount in coins, as the decimal text that the node RPCs take.
    pub fn to_coin_string(&self) -> (r: String)
        ensures
            r@ == coin_text(self.sats as nat),
    {
        let mut v: Vec<char> = Vec::new();
        push_nat_text(self.sats / SATS_PER_COIN, &mut v);
        v.push('.');
        push_padded_text(self.sats % SATS_PER_COIN, 8, &mut v);
        assert(v@ =~= coin_text(self.sats as nat));
        string_of_chars(&v)
    }

    /// Reads a decimal number of coins, with at most eight places.
    pub fn parse_coins(s: &str) -> (r: Result<Amount, AmountError>)
        ensures
            match r {
                Ok(a) => is_coin_text(s@) && a.sats as nat == coin_text_value(s@),
                Err(AmountError::Malformed) => !is_coin_text(s@),
                Err(AmountError::TooLarge) => is_coin_text(s@) && coin_text_value(s@)
                    > u64::MAX,
            },
    {
        let n = s.unicode_len();
        let mut k: usize = 0;
        while k < n
            invariant
                k <= n,
                n == s@.len(),
                all_digits(s@.take(k as int)),
            ensures
                k <= n,
                k < n ==> !is_digit(s@[k as int]),
            decreases n - k,
        {
            if digit_of(s.get_char(k)).is_none() {
                break;
            }
            proof {
                assert forall|i: int| 0 <= i < k + 1 implies is_digit(
                    #[trigger] s@.take(k + 1)[i],
                ) by {
                    if i < k {
                        assert(s@.take(k + 1)[i] == s@.take(k as int)[i]);
                    }
                }
            }
            k = k + 1;
        }
        proof {
            lemma_pow10_8();
        }
        if k == n {
            if n == 0 {
                proof {
                    assert forall|j: int| !point_at(s@, j) by {}
                }
                return Err(AmountError::Malformed);
            }
            assert(s@.take(n as int) =~= s@);
            assert(s@.subrange(0, n as int) =~= s@);
            match digits_up_to(s, 0, n, MAX_WHOLE_COINS) {
                Some(w) => {
                    return Ok(Amount { sats: w * SATS_PER_COIN });
                },
                None => {
                    return Err(AmountError::TooLarge);
                },
            }
        }
        let c = s.get_char(k);
        assert(!is_digit(s@[k as int]));
        let frac_len = n - 1 - k;
        if c != '.' || k == 0 || k + 1 == n || frac_len > 8 {
            proof {
                assert forall|j: int| !point_at(s@, j) by {
                    if point_at(s@, j) {
                        if j < k {
                            assert(s@.take(k as int)[j] == s@[j]);
                        } else if j > k {
                            assert(s@.take(j)[k as int] == s@[k as int]);
                        }
                    }
                }
                assert(!all_digits(s@));
            }
            return Err(AmountError::Malformed);
        }
        let mut j: usize = k + 1;
        while j < n
            invariant
                k + 1 <= j <= n,
                n == s@.len(),
                s@[k as int] == '.',
                all_digits(s@.take(k as int)),
                all_digits(s@.subrange(k + 1, j as int)),
            decreases n - j,
        {
            let cj = s.get_char(j);
            if digit_of(cj).is_none() {
                proof {
                    assert forall|m: int| !point_at(s@, m) by {
                        if point_at(s@, m) {
                            if m < k {
                                assert(s@.take(k as int)[m] == s@[m]);
                            } else if m > k {
                                assert(s@.take(m)[k as int] == s@[k as int]);
                            } else {
                                assert(s@.skip(k + 1)[j - k - 1] == s@[j as int]);
                            }
                        }
                    }
                    assert(!all_digits(s@)) by {
                        assert(!is_digit(s@[k as int]));
                    }
                }
                return Err(AmountError::Malformed);
            }
            proof {
                assert forall|i: int| 0 <= i < j + 1 - (k + 1) implies is_digit(
                    #[trigger] s@.subrange(k + 1, j + 1)[i],
                ) by {
                    if i < j - (k + 1) {
                        assert(s@.subrange(k + 1, j + 1)[i] == s@.subrange(k + 1, j as int)[i]);
                    }
                }
            }
            j = j + 1;
        }
        assert(s@.subrange(0, k as int) =~= s@.take(k as int));
        assert(s@.subrange(k + 1, n as int) =~= s@.skip(k + 1));
        assert(point_at(s@, k as int));
        proof {
            lemma_point_not_whole(s@, k as int);
            lemma_digits_bound(s@.skip(k + 1));
            lemma_pow10_mono(frac_len as nat);
        }
        let fv = digits_up_to(s, k + 1, n, u64::MAX).unwrap();
        let scale = pow10_exec((8 - frac_len) as u64);
        proof {
            lemma_pow10_sum(frac_len as nat, (8 - frac_len) as nat);
        }
        assert(fv * scale < 100_000_000) by (nonlinear_arith)
            requires
                fv < pow10(frac_len as nat),
                scale == pow10((8 - frac_len) as nat),
                pow10(frac_len as nat) * pow10((8 - frac_len) as nat) == 100_000_000,
        ;
        match digits_up_to(s, 0, k, MAX_WHOLE_COINS) {
            Some(w) => {
                let whole = w * SATS_PER_COIN;
                match whole.checked_add(fv * scale) {
                    Some(total) => Ok(Amount { sats: total }),
                    None => Err(AmountError::TooLarge),
                }
            },
            None => {
                Err(AmountError::TooLarge)
            },
        }
    }
}

proof fn lemma_pow10_sum(a: nat, b: nat)
    requires
        a + b == 8,
    ensures
        pow10(a) * pow10(b) == 100_000_000,
{
    lemma_pow10_add(a, b);
    lemma_pow10_8();
}

proof fn lemma_pow10_add(a: nat, b: nat)
    ensures
        pow10(a + b) == pow10(a) * pow10(b),
    decreases a,
{
    if a > 0 {
        let a1 = (a - 1) as nat;
        lemma_pow10_add(a1, b);
        assert(pow10(a + b) == 10 * pow10(a1 + b));
        assert(pow10(a) == 10 * pow10(a1));
        assert(10 * (pow10(a1) * pow10(b)) == (10 * pow10(a1)) * pow10(b)) by (nonlinear_arith);
    } else {
        assert(pow10(0) == 1);
        assert(a + b == b);
        assert(pow10(a) * pow10(b) == pow10(b));
    }
}

} // verus!
