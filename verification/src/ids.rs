//! Collision-resistant, sortable textual identifiers of the form
//! `"<prefix>-<millisecond-epoch><6 random lowercase-alphanumeric chars>"`.

use vstd::prelude::*;

verus! {

/// True for the characters an identifier suffix may contain:
/// lowercase latin letters and decimal digits.
pub open spec fn is_lower_alnum(c: char) -> bool {
    ('0' <= c && c <= '9') || ('a' <= c && c <= 'z')
}

/// The lowercase base-36 digit for a value below 36.
pub open spec fn base36_char(d: int) -> char {
    seq![
        '0', '1', '2', '3', '4', '5', '6', '7', '8', '9',
        'a', 'b', 'c', 'd', 'e', 'f', 'g', 'h', 'i', 'j',
        'k', 'l', 'm', 'n', 'o', 'p', 'q', 'r', 's', 't',
        'u', 'v', 'w', 'x', 'y', 'z',
    ][d]
}

/// The decimal digit characters of `n`, most significant first.
pub open spec fn dec_digits(n: nat) -> Seq<char>
    decreases n,
{
    if n < 10 {
        seq![base36_char(n as int)]
    } else {
        dec_digits(n / 10) + seq![base36_char((n % 10) as int)]
    }
}

/// The suffix characters taken from `draws`, one base-36 digit each.
pub open spec fn suffix_chars(draws: Seq<u32>) -> Seq<char> {
    draws.map_values(|d: u32| base36_char(d as int % 36))
}

/// The identifier built from a prefix, a millisecond timestamp and the
/// random draws for the suffix.
pub open spec fn id_chars(prefix: Seq<char>, now_ms: u64, draws: Seq<u32>) -> Seq<char> {
    prefix + seq!['-'] + dec_digits(now_ms as nat) + suffix_chars(draws)
}

/// Every base-36 digit is a lowercase letter or a decimal digit.
pub proof fn lemma_base36_char_lower_alnum(d: int)
    requires
        0 <= d < 36,
    ensures
        is_lower_alnum(base36_char(d)),
{
}

/// A decimal rendering is nonempty and holds digit characters only.
pub proof fn lemma_dec_digits_shape(n: nat)
    ensures
        dec_digits(n).len() >= 1,
        forall|i: int| 0 <= i < dec_digits(n).len() ==> is_lower_alnum(#[trigger] dec_digits(n)[i]),
    decreases n,
{
    if n < 10 {
        lemma_base36_char_lower_alnum(n as int);
    } else {
        lemma_dec_digits_shape(n / 10);
        lemma_base36_char_lower_alnum((n % 10) as int);
    }
}

/// A one-character string slice for the base-36 digit `d`.
fn base36_str(d: u32) -> (s: &'static str)
    requires
        d < 36,
    ensures
        s@ =~= seq![base36_char(d as int)],
{
    match d {
        0 => { proof { reveal_strlit("0"); } "0" },
        1 => { proof { reveal_strlit("1"); } "1" },
        2 => { proof { reveal_strlit("2"); } "2" },
        3 => { proof { reveal_strlit("3"); } "3" },
        4 => { proof { reveal_strlit("4"); } "4" },
        5 => { proof { reveal_strlit("5"); } "5" },
        6 => { proof { reveal_strlit("6"); } "6" },
        7 => { proof { reveal_strlit("7"); } "7" },
        8 => { proof { reveal_strlit("8"); } "8" },
        9 => { proof { reveal_strlit("9"); } "9" },
        10 => { proof { reveal_strlit("a"); } "a" },
        11 => { proof { reveal_strlit("b"); } "b" },
        12 => { proof { reveal_strlit("c"); } "c" },
        13 => { proof { reveal_strlit("d"); } "d" },
        14 => { proof { reveal_strlit("e"); } "e" },
        15 => { proof { reveal_strlit("f"); } "f" },
        16 => { proof { reveal_strlit("g"); } "g" },
        17 => { proof { reveal_strlit("h"); } "h" },
        18 => { proof { reveal_strlit("i"); } "i" },
        19 => { proof { reveal_strlit("j"); } "j" },
        20 => { proof { reveal_strlit("k"); } "k" },
        21 => { proof { reveal_strlit("l"); } "l" },
        22 => { proof { reveal_strlit("m"); } "m" },
        23 => { proof { reveal_strlit("n"); } "n" },
        24 => { proof { reveal_strlit("o"); } "o" },
        25 => { proof { reveal_strlit("p"); } "p" },
        26 => { proof { reveal_strlit("q"); } "q" },
        27 => { proof { reveal_strlit("r"); } "r" },
        28 => { proof { reveal_strlit("s"); } "s" },
        29 => { proof { reveal_strlit("t"); } "t" },
        30 => { proof { reveal_strlit("u"); } "u" },
        31 => { proof { reveal_strlit("v"); } "v" },
        32 => { proof { reveal_strlit("w"); } "w" },
        33 => { proof { reveal_strlit("x"); } "x" },
        34 => { proof { reveal_strlit("y"); } "y" },
        _ => { proof { reveal_strlit("z"); } "z" },
    }
}

/// The decimal rendering of `n`.
pub fn u64_to_dec_string(n: u64) -> (s: String)
    ensures
        s@ == dec_digits(n as nat),
    decreases n,
{
    if n < 10 {
        let d = base36_str(n as u32);
        let s = String::from_str(d);
        proof {
            assert(s@ =~= dec_digits(n as nat));
        }
        s
    } else {
        proof {
            assert(n / 10 < n);
        }
        let mut front = u64_to_dec_string(n / 10);
        let d = base36_str((n % 10) as u32);
        front.append(d);
        proof {
            assert((n as nat) / 10 == (n / 10) as nat);
            assert((n as nat) % 10 == (n % 10) as nat);
            assert(front@ =~= dec_digits(n as nat));
        }
        front
    }
}

/// Builds the identifier for the given prefix, timestamp and draws.
pub fn generate_id_from(prefix: &str, now_ms: u64, draws: &Vec<u32>) -> (s: String)
    requires
        draws@.len() == 6,
    ensures
        s@ == id_chars(prefix@, now_ms, draws@),
{
    let mut s = String::from_str(prefix);
    proof { reveal_strlit("-"); }
    s.append("-");
    let digits = u64_to_dec_string(now_ms);
    s.append(digits.as_str());
    let mut i: usize = 0;
    while i < 6
        invariant
            i <= 6,
            draws@.len() == 6,
            s@ == prefix@ + seq!['-'] + dec_digits(now_ms as nat)
                + suffix_chars(draws@.subrange(0, i as int)),
        decreases 6 - i,
    {
        let d = draws[i] % 36;
        let c = base36_str(d);
        s.append(c);
        proof {
            assert(draws@.subrange(0, i + 1 as int)
                =~= draws@.subrange(0, i as int).push(draws@[i as int]));
            assert(suffix_chars(draws@.subrange(0, i + 1 as int))
                =~= suffix_chars(draws@.subrange(0, i as int)).push(base36_char(draws@[i as int] as int % 36)));
            assert(s@ =~= prefix@ + seq!['-'] + dec_digits(now_ms as nat)
                + suffix_chars(draws@.subrange(0, i + 1 as int)));
        }
        i = i + 1;
    }
    proof {
        assert(draws@.subrange(0, 6) =~= draws@);
    }
    s
}

/// Relies on chrono's `Utc::now` composed with `DateTime::timestamp_millis`:
/// the number of milliseconds since the Unix epoch at the time of the call.
/// Nothing is assumed of the value; it depends on the clock. On a system
/// clock set before the epoch `Utc::now` itself panics, so the negative
/// case the callers clamp would in fact never be returned; that is
/// chrono's behaviour, not something this contract relies on.
#[verifier::external_body]
fn now_millis() -> (t: i64) {
    chrono::Utc::now().timestamp_millis()
}

pub assume_specification<T>[ rand::random::<T> ]() -> (r: T)
    where
        rand::distributions::Standard: rand::distributions::Distribution<T>,
;

/// The clock reading clamped to the epoch: milliseconds since the Unix
/// epoch, or zero for a clock set before it.
pub fn current_millis() -> (t: u64) {
    let t = now_millis();
    if t < 0 {
        0
    } else {
        t as u64
    }
}

/// A fresh identifier: the prefix, a dash, the current timestamp in decimal,
/// and six random lowercase-alphanumeric characters.
pub fn generate_id(prefix: &str) -> (s: String)
    ensures
        exists|ts: u64, draws: Seq<u32>|
            draws.len() == 6 && s@ == id_chars(prefix@, ts, draws),
        s@.len() > prefix@.len() + 7,
        s@.subrange(0, prefix@.len() as int) == prefix@,
        s@[prefix@.len() as int] == '-',
        forall|i: int|
            prefix@.len() < i < s@.len() ==> is_lower_alnum(#[trigger] s@[i]),
{
    let t = now_millis();
    let ts: u64 = if t < 0 { 0 } else { t as u64 };
    let mut draws: Vec<u32> = Vec::new();
    let mut k: usize = 0;
    while k < 6
        invariant
            k <= 6,
            draws@.len() == k,
        decreases 6 - k,
    {
        draws.push(rand::random::<u32>());
        k = k + 1;
    }
    let s = generate_id_from(prefix, ts, &draws);
    proof {
        lemma_dec_digits_shape(ts as nat);
        assert forall|i: int| prefix@.len() < i < s@.len() implies is_lower_alnum(#[trigger] s@[i]) by {
            let dash: int = prefix@.len() as int;
            let dl = dec_digits(ts as nat).len();
            if i <= dash + dl {
                assert(s@[i] == dec_digits(ts as nat)[i - dash - 1]);
            } else {
                let j = i - dash - 1 - dl;
                assert(s@[i] == suffix_chars(draws@)[j]);
                lemma_base36_char_lower_alnum(draws@[j] as int % 36);
            }
        }
        assert(s@.subrange(0, prefix@.len() as int) =~= prefix@);
    }
    s
}

} // verus!
