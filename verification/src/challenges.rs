//! Shared helpers of the two challenge engines: the binary rendering of an
//! uppercase hexadecimal digest and the leading-zero count that the
//! proof-of-work check relies on.

use vstd::prelude::*;

use crate::hash_cash::MD5HashCash;
use crate::monstrous_maze::MonstrousMaze;

verus! {

/// The union of the two challenge engines, as a session holds the one in
/// flight.
pub enum Challenges {
    MD5HashCash(MD5HashCash),
    MonstrousMaze(MonstrousMaze),
}

/// An uppercase hexadecimal digit, as the digest rendering produces them.
pub open spec fn is_upper_hex_digit(c: char) -> bool {
    ('0' <= c && c <= '9') || ('A' <= c && c <= 'F')
}

/// The numerical value of an uppercase hexadecimal digit.
pub open spec fn hex_digit_value(c: char) -> nat {
    if '0' <= c && c <= '9' {
        (c as nat - '0' as nat) as nat
    } else {
        (c as nat - 'A' as nat + 10) as nat
    }
}

/// One binary digit of a nibble: bit `k` (0 = least significant) of `v`,
/// rendered as the character '0' or '1'.
pub open spec fn bit_char(v: nat, k: nat) -> char {
    if (v / vstd::arithmetic::power2::pow2(k)) % 2 == 1 {
        '1'
    } else {
        '0'
    }
}

/// The four binary digits of one hexadecimal digit, most significant first.
pub open spec fn bits_of_hex_char(c: char) -> Seq<char> {
    let v = hex_digit_value(c);
    seq![bit_char(v, 3), bit_char(v, 2), bit_char(v, 1), bit_char(v, 0)]
}

/// The binary rendering of a hexadecimal string: each digit expanded to its
/// four binary digits, in order.
pub open spec fn binary_of_hex(s: Seq<char>) -> Seq<char>
    decreases s.len(),
{
    if s.len() == 0 {
        Seq::empty()
    } else {
        bits_of_hex_char(s[0]) + binary_of_hex(s.drop_first())
    }
}

/// True when the string starts with exactly `c` copies of '0' followed by a
/// character that is not '0'. A string of nothing but '0', and the empty
/// string, match no count at all.
pub open spec fn zero_prefix_matches(s: Seq<char>, c: nat) -> bool {
    &&& c < s.len()
    &&& (forall|j: int| 0 <= j < c ==> s[j] == '0')
    &&& s[c as int] != '0'
}

/// The four binary digits of one uppercase hexadecimal digit.
fn to_binary(c: char) -> (r: &'static str)
    requires
        is_upper_hex_digit(c),
    ensures
        r@ == bits_of_hex_char(c),
{
    proof {
        vstd::arithmetic::power2::lemma2_to64();
        reveal_strlit("0000");
        reveal_strlit("0001");
        reveal_strlit("0010");
        reveal_strlit("0011");
        reveal_strlit("0100");
        reveal_strlit("0101");
        reveal_strlit("0110");
        reveal_strlit("0111");
        reveal_strlit("1000");
        reveal_strlit("1001");
        reveal_strlit("1010");
        reveal_strlit("1011");
        reveal_strlit("1100");
        reveal_strlit("1101");
        reveal_strlit("1110");
        reveal_strlit("1111");
    }
    match c {
        '0' => "0000",
        '1' => "0001",
        '2' => "0010",
        '3' => "0011",
        '4' => "0100",
        '5' => "0101",
        '6' => "0110",
        '7' => "0111",
        '8' => "1000",
        '9' => "1001",
        'A' => "1010",
        'B' => "1011",
        'C' => "1100",
        'D' => "1101",
        'E' => "1110",
        'F' => "1111",
        _ => "0000",
    }
}

/// Expands an uppercase hexadecimal string to its binary digit string,
/// four binary digits per hexadecimal digit.
pub fn convert_string_to_binary(input: String) -> (r: String)
    requires
        forall|j: int| 0 <= j < input@.len() ==> is_upper_hex_digit(#[trigger] input@[j]),
    ensures
        r@ == binary_of_hex(input@),
{
    let n = input.as_str().unicode_len();
    let mut r = String::new();
    let mut i: usize = 0;
    while i < n
        invariant
            i <= n,
            n == input@.len(),
            forall|j: int| 0 <= j < input@.len() ==> is_upper_hex_digit(#[trigger] input@[j]),
            r@ == binary_of_hex(input@.take(i as int)),
        decreases n - i,
    {
        let c = input.as_str().get_char(i);
        r.append(to_binary(c));
        proof {
            lemma_binary_of_hex_snoc(input@, i as int);
        }
        i = i + 1;
    }
    proof {
        assert(input@.take(n as int) =~= input@);
    }
    r
}

/// Expanding one more hexadecimal digit appends its four binary digits.
proof fn lemma_binary_of_hex_snoc(s: Seq<char>, i: int)
    requires
        0 <= i < s.len(),
    ensures
        binary_of_hex(s.take(i + 1)) == binary_of_hex(s.take(i)) + bits_of_hex_char(s[i]),
    decreases i,
{
    if i == 0 {
        assert(s.take(1).drop_first() =~= s.take(0));
        assert(binary_of_hex(s.take(1)) =~= bits_of_hex_char(s[0]) + binary_of_hex(s.take(0)));
        assert(binary_of_hex(s.take(0)) =~= Seq::<char>::empty());
        assert(binary_of_hex(s.take(1)) =~= binary_of_hex(s.take(0)) + bits_of_hex_char(s[0]));
    } else {
        lemma_binary_of_hex_snoc(s.drop_first(), i - 1);
        assert(s.take(i + 1).drop_first() =~= s.drop_first().take(i));
        assert(s.take(i).drop_first() =~= s.drop_first().take(i - 1));
        assert(s.drop_first()[i - 1] == s[i]);
        assert(binary_of_hex(s.take(i + 1)) == bits_of_hex_char(s[0]) + binary_of_hex(
            s.drop_first().take(i),
        ));
        assert(binary_of_hex(s.take(i)) == bits_of_hex_char(s[0]) + binary_of_hex(
            s.drop_first().take(i - 1),
        ));
        assert((bits_of_hex_char(s[0]) + (binary_of_hex(s.drop_first().take(i - 1))
            + bits_of_hex_char(s[i]))) =~= (bits_of_hex_char(s[0]) + binary_of_hex(
            s.drop_first().take(i - 1),
        )) + bits_of_hex_char(s[i]));
    }
}

/// Whether every character of the string is an uppercase hexadecimal
/// digit, as a digest rendering must be before it can be checked.
pub fn is_upper_hex_string(s: &String) -> (r: bool)
    ensures
        r == forall|j: int| 0 <= j < s@.len() ==> is_upper_hex_digit(#[trigger] s@[j]),
{
    let n = s.as_str().unicode_len();
    let mut i: usize = 0;
    while i < n
        invariant
            i <= n,
            n == s@.len(),
            forall|j: int| 0 <= j < i ==> is_upper_hex_digit(#[trigger] s@[j]),
        decreases n - i,
    {
        let c = s.as_str().get_char(i);
        let is_digit = c >= '0' && c <= '9';
        let is_upper = c >= 'A' && c <= 'F';
        if !(is_digit || is_upper) {
            return false;
        }
        i = i + 1;
    }
    true
}

/// Counts the '0' characters at the front of `input` up to its first other
/// character, and reports whether that count equals `complexity` exactly.
pub fn check_number_of_zero(input: String, complexity: u32) -> (r: bool)
    ensures
        r == zero_prefix_matches(input@, complexity as nat),
{
    let n = input.as_str().unicode_len();
    let mut i: usize = 0;
    while i < n
        invariant
            i <= n,
            n == input@.len(),
            forall|j: int| 0 <= j < i ==> input@[j] == '0',
        decreases n - i,
    {
        let c = input.as_str().get_char(i);
        if c != '0' {
            return i == complexity as usize;
        }
        i = i + 1;
    }
    false
}

} // verus!
