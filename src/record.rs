//! The record of one known digest, the algorithm tags, and the text forms
//! of the values a record holds.
use vstd::prelude::*;

verus! {

/// The closed set of digest algorithms whose results the cache keeps.
#[derive(Clone, Copy, Debug, PartialEq, Eq, Structural, Hash)]
pub enum Algorithm {
    MD5,
    SHA1,
    SHA256,
    SHA512,
}

/// The ten decimal digits, in order.
pub open spec fn digit_chars() -> Seq<char> {
    seq!['0', '1', '2', '3', '4', '5', '6', '7', '8', '9']
}

pub open spec fn is_digit(c: char) -> bool {
    '0' <= c && c <= '9'
}

pub open spec fn digit_value(c: char) -> nat {
    (c as int - '0' as int) as nat
}

pub open spec fn all_digits(s: Seq<char>) -> bool {
    forall|i: int| 0 <= i < s.len() ==> is_digit(#[trigger] s[i])
}

/// The number that a string of decimal digits denotes.
pub open spec fn digits_value(s: Seq<char>) -> nat
    decreases s.len(),
{
    if s.len() == 0 {
        0
    } else {
        digits_value(s.drop_last()) * 10 + digit_value(s.last())
    }
}

/// An unsigned 64-bit number in decimal: an optional `+`, then one or more
/// digits whose value fits in 64 bits.
pub open spec fn spec_parse_u64(s: Seq<char>) -> Option<u64> {
    let d = if s.len() > 0 && s[0] == '+' {
        s.drop_first()
    } else {
        s
    };
    if d.len() > 0 && all_digits(d) && digits_value(d) <= u64::MAX {
        Some(digits_value(d) as u64)
    } else {
        None
    }
}

/// The shortest decimal form of a number.
pub open spec fn decimal(n: nat) -> Seq<char>
    decreases n,
{
    if n < 10 {
        seq![digit_chars()[n as int]]
    } else {
        decimal(n / 10).push(digit_chars()[(n % 10) as int])
    }
}

pub open spec fn is_hex_char(c: char) -> bool {
    ('0' <= c && c <= '9') || ('a' <= c && c <= 'f') || ('A' <= c && c <= 'F')
}

/// A digest is valid for an algorithm when it has that algorithm's number
/// of hexadecimal digits and nothing else.
pub open spec fn spec_valid_hash(h: Seq<char>, a: Algorithm) -> bool {
    &&& h.len() == a.hex_len()
    &&& forall|i: int| 0 <= i < h.len() ==> is_hex_char(#[trigger] h[i])
}

impl Algorithm {
    /// The tag's textual form, as it stands in a record file.
    pub open spec fn spec_name(self) -> Seq<char> {
        match self {
            Algorithm::MD5 => seq!['M', 'D', '5'],
            Algorithm::SHA1 => seq!['S', 'H', 'A', '1'],
            Algorithm::SHA256 => seq!['S', 'H', 'A', '2', '5', '6'],
            Algorithm::SHA512 => seq!['S', 'H', 'A', '5', '1', '2'],
        }
    }

    /// The tag whose textual form is `s`, if any.
    pub open spec fn spec_from_name(s: Seq<char>) -> Option<Algorithm> {
        if s == Algorithm::MD5.spec_name() {
            Some(Algorithm::MD5)
        } else if s == Algorithm::SHA1.spec_name() {
            Some(Algorithm::SHA1)
        } else if s == Algorithm::SHA256.spec_name() {
            Some(Algorithm::SHA256)
        } else if s == Algorithm::SHA512.spec_name() {
            Some(Algorithm::SHA512)
        } else {
            None
        }
    }

    /// The number of hexadecimal digits in a digest of this algorithm.
    pub open spec fn hex_len(self) -> nat {
        match self {
            Algorithm::MD5 => 32,
            Algorithm::SHA1 => 40,
            Algorithm::SHA256 => 64,
            Algorithm::SHA512 => 128,
        }
    }

    pub fn name(&self) -> (r: String)
        ensures
            r@ == self.spec_name(),
    {
        match self {
            Algorithm::MD5 => {
                proof {
                    reveal_strlit("MD5");
                }
                String::from_str("MD5")
            },
            Algorithm::SHA1 => {
                proof {
                    reveal_strlit("SHA1");
                }
                String::from_str("SHA1")
            },
            Algorithm::SHA256 => {
                proof {
                    reveal_strlit("SHA256");
                }
                String::from_str("SHA256")
            },
            Algorithm::SHA512 => {
                proof {
                    reveal_strlit("SHA512");
                }
                String::from_str("SHA512")
            },
        }
    }

    pub fn from_name(s: &str) -> (r: Option<Algorithm>)
        ensures
            r == Algorithm::spec_from_name(s@),
    {
        let t = String::from_str(s);
        if t == Algorithm::MD5.name() {
            Some(Algorithm::MD5)
        } else if t == Algorithm::SHA1.name() {
            Some(Algorithm::SHA1)
        } else if t == Algorithm::SHA256.name() {
            Some(Algorithm::SHA256)
        } else if t == Algorithm::SHA512.name() {
            Some(Algorithm::SHA512)
        } else {
            None
        }
    }

    pub fn digest_hex_len(&self) -> (r: usize)
        ensures
            r == self.hex_len(),
    {
        match self {
            Algorithm::MD5 => 32,
            Algorithm::SHA1 => 40,
            Algorithm::SHA256 => 64,
            Algorithm::SHA512 => 128,
        }
    }
}

/// Whether `hash` is a well-formed digest for `algo`.
pub fn validate_hash(hash: &str, algo: Algorithm) -> (r: bool)
    ensures
        r == spec_valid_hash(hash@, algo),
{
    let n = hash.unicode_len();
    if n != algo.digest_hex_len() {
        return false;
    }
    let mut i: usize = 0;
    while i < n
        invariant
            n == hash@.len(),
            i <= n,
            forall|j: int| 0 <= j < i ==> is_hex_char(#[trigger] hash@[j]),
        decreases n - i,
    {
        let c = hash.get_char(i);
        if !(('0' <= c && c <= '9') || ('a' <= c && c <= 'f') || ('A' <= c && c <= 'F')) {
            return false;
        }
        i = i + 1;
    }
    true
}

proof fn lemma_digits_value_prefix(s: Seq<char>, i: int)
    requires
        0 <= i <= s.len(),
    ensures
        digits_value(s.subrange(0, i)) <= digits_value(s),
    decreases s.len(),
{
    if i < s.len() {
        assert(s.drop_last().subrange(0, i) =~= s.subrange(0, i));
        lemma_digits_value_prefix(s.drop_last(), i);
    } else {
        assert(s.subrange(0, i) =~= s);
    }
}

/// Reads an unsigned 64-bit number written in decimal.
pub fn parse_u64(s: &str) -> (r: Option<u64>)
    ensures
        r == spec_parse_u64(s@),
{
    let n = s.unicode_len();
    let start: usize = if n > 0 && s.get_char(0) == '+' {
        1
    } else {
        0
    };
    let ghost d = if s@.len() > 0 && s@[0] == '+' {
        s@.drop_first()
    } else {
        s@
    };
    assert(d =~= s@.subrange(start as int, n as int));
    if start == n {
        return None;
    }
    let mut acc: u64 = 0;
    let mut i: usize = start;
    while i < n
        invariant
            n == s@.len(),
            start <= i <= n,
            d =~= s@.subrange(start as int, n as int),
            d == (if s@.len() > 0 && s@[0] == '+' {
                s@.drop_first()
            } else {
                s@
            }),
            all_digits(s@.subrange(start as int, i as int)),
            acc == digits_value(s@.subrange(start as int, i as int)),
        decreases n - i,
    {
        let c = s.get_char(i);
        let ghost pre = s@.subrange(start as int, i as int);
        let ghost next = s@.subrange(start as int, i + 1);
        assert(next.drop_last() =~= pre);
        assert(next.last() == c);
        if !('0' <= c && c <= '9') {
            assert(d[i - start] == c);
            assert(!is_digit(d[i - start]));
            assert(!all_digits(d));
            return None;
        }
        let v = (c as u32 - '0' as u32) as u64;
        assert(v == digit_value(c));
        if acc > (u64::MAX - v) / 10 {
            assert(digits_value(next) > u64::MAX) by (nonlinear_arith)
                requires
                    acc > (u64::MAX - v) / 10,
                    digits_value(next) == acc * 10 + v,
                    v <= 9,
            ;
            proof {
                lemma_digits_value_prefix(d, i + 1 - start);
                assert(d.subrange(0, i + 1 - start) =~= next);
                assert(digits_value(d) > u64::MAX);
            }
            return None;
        }
        assert(acc * 10 + v <= u64::MAX) by (nonlinear_arith)
            requires
                acc <= (u64::MAX - v) / 10,
                v <= 9,
        ;
        acc = acc * 10 + v;
        i = i + 1;
        assert(all_digits(next)) by {
            assert forall|j: int| 0 <= j < next.len() implies is_digit(#[trigger] next[j]) by {
                if j < pre.len() {
                    assert(next[j] == pre[j]);
                }
            }
        }
    }
    assert(s@.subrange(start as int, n as int) =~= d);
    Some(acc)
}

/// Writes a number in decimal.
pub fn u64_to_decimal(v: u64) -> (r: String)
    ensures
        r@ == decimal(v as nat),
    decreases v,
{
    let digits = "0123456789";
    proof {
        reveal_strlit("0123456789");
        assert(digits@ =~= digit_chars());
    }
    if v < 10 {
        let d = v as usize;
        let r = String::from_str(digits.substring_char(d, d + 1));
        assert(r@ =~= seq![digit_chars()[d as int]]);
        r
    } else {
        let mut r = u64_to_decimal(v / 10);
        let d = (v % 10) as usize;
        let last = digits.substring_char(d, d + 1);
        assert(last@ =~= seq![digit_chars()[d as int]]);
        r.append(last);
        assert(r@ =~= decimal((v / 10) as nat).push(digit_chars()[(v % 10) as int]));
        r
    }
}

/// One known fact: the digest of the file with this identity.
#[derive(Clone, Debug, PartialEq, Eq)]
pub struct HashEntry {
    pub path: String,
    pub size: u64,
    pub time: u64,
    pub algo: Algorithm,
    pub hash: String,
}

impl View for HashEntry {
    type V = (Seq<char>, u64, u64, Algorithm, Seq<char>);

    open spec fn view(&self) -> Self::V {
        (self.path@, self.size, self.time, self.algo, self.hash@)
    }
}

} // verus!
