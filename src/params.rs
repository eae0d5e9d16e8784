use vstd::prelude::*;
use crate::amount::{is_digit, string_of_chars};
use crate::client::push_str;

verus! {

/// A raw pass-through parameter, read as a JSON scalar where it is one.
#[derive(Clone, Debug)]
pub enum JsonScalar {
    Null,
    Bool(bool),
    /// A JSON number, kept as its text so that no precision is lost.
    Number(String),
    Text(String),
}

/// The end of the run of digits that starts at `i`.
pub open spec fn digit_run(s: Seq<char>, i: int) -> int
    decreases s.len() - i,
{
    if 0 <= i < s.len() && is_digit(s[i]) {
        digit_run(s, i + 1)
    } else {
        i
    }
}

/// Where the integer part starts: after a leading minus sign, if any.
pub open spec fn sign_end(s: Seq<char>) -> int {
    if s.len() > 0 && s[0] == '-' {
        1
    } else {
        0
    }
}

/// Where the fraction that may start at `b` ends; -1 where a point has no digits after it.
pub open spec fn fraction_end(s: Seq<char>, b: int) -> int {
    if b < s.len() && s[b] == '.' {
        if digit_run(s, b + 1) > b + 1 {
            digit_run(s, b + 1)
        } else {
            -1
        }
    } else {
        b
    }
}

/// The text from `c` on is empty or an exponent: `e` or `E`, a sign or none, and digits.
pub open spec fn exponent_ok(s: Seq<char>, c: int) -> bool {
    c == s.len() || (c < s.len() && (s[c] == 'e' || s[c] == 'E') && {
        let e = if c + 1 < s.len() && (s[c + 1] == '+' || s[c + 1] == '-') {
            c + 2
        } else {
            c + 1
        };
        e < s.len() && digit_run(s, e) == s.len()
    })
}

/// `s` is a JSON number: an optional minus, an integer part without leading zeros, an
/// optional fraction and an optional exponent.
pub open spec fn is_json_number(s: Seq<char>) -> bool {
    let a = sign_end(s);
    let b = digit_run(s, a);
    &&& b > a
    &&& (b == a + 1 || s[a] != '0')
    &&& fraction_end(s, b) >= 0
    &&& exponent_ok(s, fraction_end(s, b))
}

/// What a raw parameter becomes: null, a boolean or a number where it reads as one,
/// and the text itself otherwise.
pub open spec fn coerced(s: Seq<char>, v: JsonScalar) -> bool {
    if s == seq!['n', 'u', 'l', 'l'] {
        v == JsonScalar::Null
    } else if s == seq!['t', 'r', 'u', 'e'] {
        v == JsonScalar::Bool(true)
    } else if s == seq!['f', 'a', 'l', 's', 'e'] {
        v == JsonScalar::Bool(false)
    } else if is_json_number(s) {
        v matches JsonScalar::Number(t) && t@ == s
    } else {
        v matches JsonScalar::Text(t) && t@ == s
    }
}

fn is_digit_exec(c: char) -> (r: bool)
    ensures
        r == is_digit(c),
{
    c == '0' || c == '1' || c == '2' || c == '3' || c == '4' || c == '5' || c == '6' || c == '7'
        || c == '8' || c == '9'
}

fn digit_run_exec(s: &str, n: usize, i: usize) -> (r: usize)
    requires
        n == s@.len(),
        i <= n,
    ensures
        r as int == digit_run(s@, i as int),
        i <= r <= n,
{
    let mut j: usize = i;
    while j < n && is_digit_exec(s.get_char(j))
        invariant
            i <= j <= n,
            n == s@.len(),
            digit_run(s@, j as int) == digit_run(s@, i as int),
        decreases n - j,
    {
        j = j + 1;
    }
    j
}

fn matches_word(s: &str, n: usize, w: &Vec<char>) -> (r: bool)
    requires
        n == s@.len(),
    ensures
        r == (s@ == w@),
{
    if n != w.len() {
        return false;
    }
    let mut i: usize = 0;
    while i < n
        invariant
            i <= n,
            n == s@.len(),
            n == w@.len(),
            s@.take(i as int) == w@.take(i as int),
        decreases n - i,
    {
        if s.get_char(i) != w[i] {
            return false;
        }
        assert(s@.take(i + 1) =~= s@.take(i as int).push(s@[i as int]));
        assert(w@.take(i + 1) =~= w@.take(i as int).push(w@[i as int]));
        i = i + 1;
    }
    assert(s@ =~= s@.take(n as int));
    assert(w@ =~= w@.take(n as int));
    true
}

/// Whether `s` is a JSON number.
pub fn is_json_number_text(s: &str) -> (r: bool)
    ensures
        r == is_json_number(s@),
{
    let n = s.unicode_len();
    let a: usize = if n > 0 && s.get_char(0) == '-' { 1 } else { 0 };
    let b = digit_run_exec(s, n, a);
    if b == a {
        return false;
    }
    if b != a + 1 && s.get_char(a) == '0' {
        return false;
    }
    let c: usize = if b < n && s.get_char(b) == '.' {
        let d = digit_run_exec(s, n, b + 1);
        if d == b + 1 {
            return false;
        }
        d
    } else {
        b
    };
    assert(fraction_end(s@, b as int) == c as int);
    if c == n {
        return true;
    }
    let e = s.get_char(c);
    if e != 'e' && e != 'E' {
        return false;
    }
    let start: usize = if c + 1 < n && (s.get_char(c + 1) == '+' || s.get_char(c + 1) == '-') {
        c + 2
    } else {
        c + 1
    };
    if start >= n {
        return false;
    }
    digit_run_exec(s, n, start) == n
}

/// Reads a raw pass-through parameter as a JSON scalar: `null`, `true` and `false`, and
/// JSON numbers, take priority over the text itself.
pub fn coerce_param(s: &str) -> (r: JsonScalar)
    ensures
        coerced(s@, r),
{
    let n = s.unicode_len();
    let null_word: Vec<char> = vec!['n', 'u', 'l', 'l'];
    let true_word: Vec<char> = vec!['t', 'r', 'u', 'e'];
    let false_word: Vec<char> = vec!['f', 'a', 'l', 's', 'e'];
    assert(null_word@ =~= seq!['n', 'u', 'l', 'l']);
    assert(true_word@ =~= seq!['t', 'r', 'u', 'e']);
    assert(false_word@ =~= seq!['f', 'a', 'l', 's', 'e']);
    if matches_word(s, n, &null_word) {
        return JsonScalar::Null;
    }
    if matches_word(s, n, &true_word) {
        return JsonScalar::Bool(true);
    }
    if matches_word(s, n, &false_word) {
        return JsonScalar::Bool(false);
    }
    let mut v: Vec<char> = Vec::new();
    push_str(s, &mut v);
    assert(v@ =~= s@);
    let t = string_of_chars(&v);
    if is_json_number_text(s) {
        JsonScalar::Number(t)
    } else {
        JsonScalar::Text(t)
    }
}

} // verus!
