//! The proof-of-work engine ("hashcash"): search seeds from 1 upward until
//! the MD5 digest of the seed (16 uppercase hexadecimal digits, zero
//! padded) concatenated with the message carries exactly the required
//! count of leading zero binary digits.

use vstd::prelude::*;

use crate::challenges::{
    binary_of_hex, bits_of_hex_char, check_number_of_zero, convert_string_to_binary,
    is_upper_hex_digit, zero_prefix_matches,
};
use crate::messages::{MD5HashCashInput, MD5HashCashOutput};
use crate::strutil::push_char;

verus! {

/// The uppercase hexadecimal digit of a nibble value.
pub open spec fn hex_upper_char(v: nat) -> char {
    if v == 0 {
        '0'
    } else if v == 1 {
        '1'
    } else if v == 2 {
        '2'
    } else if v == 3 {
        '3'
    } else if v == 4 {
        '4'
    } else if v == 5 {
        '5'
    } else if v == 6 {
        '6'
    } else if v == 7 {
        '7'
    } else if v == 8 {
        '8'
    } else if v == 9 {
        '9'
    } else if v == 10 {
        'A'
    } else if v == 11 {
        'B'
    } else if v == 12 {
        'C'
    } else if v == 13 {
        'D'
    } else if v == 14 {
        'E'
    } else {
        'F'
    }
}

/// A seed rendered as 16 uppercase hexadecimal digits, most significant
/// nibble first, zero padded on the left.
pub open spec fn seed_hex(seed: u64) -> Seq<char> {
    Seq::new(16, |i: int| hex_upper_char((((seed >> ((60 - 4 * i) as u64)) & 0xF) as nat)))
}

/// The exact string the digest is taken over: the fixed-width seed
/// rendering followed by the message.
pub open spec fn pow_preimage(seed: u64, msg: Seq<char>) -> Seq<char> {
    seed_hex(seed) + msg
}

/// The 32 uppercase hexadecimal digits of the MD5 digest of a string's
/// UTF-8 bytes. The digest is a fixed function of the characters alone;
/// its value is stated nowhere and learned only by calling the digest.
pub uninterp spec fn md5_hex_of(s: Seq<char>) -> Seq<char>;

/// Relies on md5::compute and the UpperHex rendering of md5::Digest:
/// a 16-byte digest of the input bytes, each byte rendered as two
/// uppercase hexadecimal digits.
#[verifier::external_body]
fn md5_hex_upper(s: &str) -> (r: String)
    ensures
        r@ == md5_hex_of(s@),
        r@.len() == 32,
        forall|j: int| 0 <= j < r@.len() ==> is_upper_hex_digit(#[trigger] r@[j]),
{
    format!("{:X}", md5::compute(s.as_bytes()))
}

/// The proof-of-work acceptance check: the binary rendering of the digest
/// string starts with exactly `complexity` zero digits.
pub open spec fn pow_ok(hash: Seq<char>, complexity: nat) -> bool {
    zero_prefix_matches(binary_of_hex(hash), complexity)
}

/// True when some seed no larger than `limit` solves the puzzle.
pub open spec fn pow_solvable_within(msg: Seq<char>, complexity: nat, limit: u64) -> bool {
    exists|s: u64| 1 <= s <= limit && pow_ok(md5_hex_of(pow_preimage(s, msg)), complexity)
}

/// The proof-of-work challenge around its input.
#[derive(Debug)]
pub struct MD5HashCash {
    pub input: MD5HashCashInput,
}

/// The uppercase hexadecimal digit character of a nibble.
fn hex_char(v: u64) -> (r: char)
    requires
        v < 16,
    ensures
        r == hex_upper_char(v as nat),
{
    match v {
        0 => '0',
        1 => '1',
        2 => '2',
        3 => '3',
        4 => '4',
        5 => '5',
        6 => '6',
        7 => '7',
        8 => '8',
        9 => '9',
        10 => 'A',
        11 => 'B',
        12 => 'C',
        13 => 'D',
        14 => 'E',
        _ => 'F',
    }
}

/// Renders a seed as its fixed-width hexadecimal string.
fn seed_to_hex(seed: u64) -> (r: String)
    ensures
        r@ == seed_hex(seed),
{
    let mut r = String::new();
    let mut i: usize = 0;
    while i < 16
        invariant
            i <= 16,
            r@ == seed_hex(seed).take(i as int),
        decreases 16 - i,
    {
        let sh: u64 = 60 - 4 * (i as u64);
        let nib: u64 = (seed >> sh) & 0xF;
        proof {
            assert((seed >> sh) & 0xF < 16) by (bit_vector);
        }
        let c = hex_char(nib);
        push_char(&mut r, c);
        proof {
            assert(seed_hex(seed).take(i + 1) =~= seed_hex(seed).take(i as int).push(
                seed_hex(seed)[i as int],
            ));
        }
        i = i + 1;
    }
    proof {
        assert(seed_hex(seed).take(16) =~= seed_hex(seed));
    }
    r
}

impl MD5HashCash {
    /// The engine's display name.
    pub fn name() -> (r: String)
        ensures
            r@ == "MD5HashCash"@,
    {
        String::from_str("MD5HashCash")
    }

    /// Wraps an input as a challenge.
    pub fn new(input: MD5HashCashInput) -> (r: Self)
        ensures
            r.input == input,
    {
        MD5HashCash { input }
    }

    /// Searches seeds 1, 2, 3, ... and returns the first whose digest
    /// passes the acceptance check, together with that digest.
    pub fn solve(&self) -> (r: MD5HashCashOutput)
        requires
            pow_solvable_within(self.input.message@, self.input.complexity as nat, u64::MAX),
        ensures
            1 <= r.seed,
            r.hashcode@ == md5_hex_of(pow_preimage(r.seed, self.input.message@)),
            pow_ok(r.hashcode@, self.input.complexity as nat),
            forall|s: u64|
                1 <= s < r.seed ==> !pow_ok(
                    md5_hex_of(pow_preimage(s, self.input.message@)),
                    self.input.complexity as nat,
                ),
    {
        let ghost msg = self.input.message@;
        let ghost cx = self.input.complexity as nat;
        let ghost w = choose|s: u64|
            1 <= s <= u64::MAX && pow_ok(md5_hex_of(pow_preimage(s, msg)), cx);
        let mut seed: u64 = 1;
        loop
            invariant
                1 <= seed <= w,
                pow_ok(md5_hex_of(pow_preimage(w, msg)), cx),
                msg == self.input.message@,
                cx == self.input.complexity as nat,
                forall|s: u64| 1 <= s < seed ==> !pow_ok(md5_hex_of(pow_preimage(s, msg)), cx),
            decreases w - seed,
        {
            let hex = seed_to_hex(seed);
            let concatenated = hex.concat(self.input.message.as_str());
            let hashcode = md5_hex_upper(concatenated.as_str());
            let hashcode_binary = convert_string_to_binary(hashcode.clone());
            if check_number_of_zero(hashcode_binary, self.input.complexity) {
                return MD5HashCashOutput { seed, hashcode };
            }
            proof {
                assert(seed < w);
            }
            seed = seed + 1;
        }
    }

    /// Searches seeds up to `seed_limit` only. Returns the solver's answer
    /// when a seed in that range passes, and None when none does.
    pub fn solve_bounded(&self, seed_limit: u64) -> (r: Option<MD5HashCashOutput>)
        ensures
            match r {
                Some(out) => {
                    &&& 1 <= out.seed <= seed_limit
                    &&& out.hashcode@ == md5_hex_of(pow_preimage(out.seed, self.input.message@))
                    &&& pow_ok(out.hashcode@, self.input.complexity as nat)
                    &&& forall|s: u64|
                        1 <= s < out.seed ==> !pow_ok(
                            md5_hex_of(pow_preimage(s, self.input.message@)),
                            self.input.complexity as nat,
                        )
                },
                None => !pow_solvable_within(
                    self.input.message@,
                    self.input.complexity as nat,
                    seed_limit,
                ),
            },
    {
        let ghost msg = self.input.message@;
        let ghost cx = self.input.complexity as nat;
        let mut seed: u64 = 1;
        if seed_limit == 0 {
            return None;
        }
        loop
            invariant
                1 <= seed <= seed_limit,
                seed_limit >= 1,
                msg == self.input.message@,
                cx == self.input.complexity as nat,
                forall|s: u64| 1 <= s < seed ==> !pow_ok(md5_hex_of(pow_preimage(s, msg)), cx),
            decreases seed_limit - seed,
        {
            let hex = seed_to_hex(seed);
            let concatenated = hex.concat(self.input.message.as_str());
            let hashcode = md5_hex_upper(concatenated.as_str());
            let hashcode_binary = convert_string_to_binary(hashcode.clone());
            if check_number_of_zero(hashcode_binary, self.input.complexity) {
                // a passing seed within the range shows the unbounded
                // search terminates; the solver then returns the least one
                proof {
                    assert(pow_ok(md5_hex_of(pow_preimage(seed, msg)), cx));
                    assert(pow_solvable_within(msg, cx, u64::MAX));
                }
                let out = self.solve();
                proof {
                    assert(!(seed < out.seed));
                }
                return Some(out);
            }
            if seed == seed_limit {
                return None;
            }
            seed = seed + 1;
        }
    }

    /// Recomputes only the zero-count check on the submitted digest string
    /// against the configured complexity; the digest is not re-derived
    /// from the seed.
    pub fn verify(&self, answer: &MD5HashCashOutput) -> (r: bool)
        requires
            forall|j: int|
                0 <= j < answer.hashcode@.len() ==> is_upper_hex_digit(#[trigger] answer.hashcode@[j]),
        ensures
            r == pow_ok(answer.hashcode@, self.input.complexity as nat),
    {
        let hash_cash_client_answer_in_binary = convert_string_to_binary(answer.hashcode.clone());
        check_number_of_zero(hash_cash_client_answer_in_binary, self.input.complexity)
    }
}

/// Returns the next seed to try: 1 on an empty history, else one past the
/// last seed tried.
pub fn generate_seed(already_generated_seed: &Vec<u64>) -> (r: Option<u64>)
    requires
        already_generated_seed@.len() > 0 ==> already_generated_seed@.last() < u64::MAX
            && !already_generated_seed@.contains((already_generated_seed@.last() + 1) as u64),
    ensures
        already_generated_seed@.len() == 0 ==> r == Some(1u64),
        already_generated_seed@.len() > 0 ==> r == Some(
            (already_generated_seed@.last() + 1) as u64,
        ),
{
    if already_generated_seed.len() == 0 {
        return Some(1);
    }
    let last = already_generated_seed[already_generated_seed.len() - 1];
    Some(last + 1)
}

/// The uppercase form of an ASCII letter; any other character unchanged.
pub open spec fn ascii_upper_char(c: char) -> char {
    if c == 'a' {
        'A'
    } else if c == 'b' {
        'B'
    } else if c == 'c' {
        'C'
    } else if c == 'd' {
        'D'
    } else if c == 'e' {
        'E'
    } else if c == 'f' {
        'F'
    } else if c == 'g' {
        'G'
    } else if c == 'h' {
        'H'
    } else if c == 'i' {
        'I'
    } else if c == 'j' {
        'J'
    } else if c == 'k' {
        'K'
    } else if c == 'l' {
        'L'
    } else if c == 'm' {
        'M'
    } else if c == 'n' {
        'N'
    } else if c == 'o' {
        'O'
    } else if c == 'p' {
        'P'
    } else if c == 'q' {
        'Q'
    } else if c == 'r' {
        'R'
    } else if c == 's' {
        'S'
    } else if c == 't' {
        'T'
    } else if c == 'u' {
        'U'
    } else if c == 'v' {
        'V'
    } else if c == 'w' {
        'W'
    } else if c == 'x' {
        'X'
    } else if c == 'y' {
        'Y'
    } else if c == 'z' {
        'Z'
    } else {
        c
    }
}

/// A string mapped character by character to its ASCII uppercase form.
pub open spec fn upper_seq(s: Seq<char>) -> Seq<char> {
    s.map_values(|c: char| ascii_upper_char(c))
}

/// A string padded on the left with '0' up to 16 characters, then
/// uppercased.
pub open spec fn pad16_upper(s: Seq<char>) -> Seq<char>
    decreases (if s.len() < 16 {
        16 - s.len()
    } else {
        0
    }),
{
    if s.len() < 16 {
        pad16_upper(seq!['0'] + s)
    } else {
        upper_seq(s)
    }
}

/// Padding unfolds to a block of zeros in front of the uppercased string.
proof fn lemma_pad16_unfold(s: Seq<char>)
    ensures
        pad16_upper(s) == Seq::new(
            if s.len() < 16 {
                (16 - s.len()) as nat
            } else {
                0
            },
            |i: int| '0',
        ) + upper_seq(s),
    decreases (if s.len() < 16 {
        16 - s.len()
    } else {
        0
    }),
{
    let k: nat = if s.len() < 16 {
        (16 - s.len()) as nat
    } else {
        0
    };
    if s.len() < 16 {
        let padded = seq!['0'] + s;
        lemma_pad16_unfold(padded);
        let k2: nat = (k - 1) as nat;
        assert(Seq::new(k2, |i: int| '0') + upper_seq(padded) =~= Seq::new(k, |i: int| '0')
            + upper_seq(s)) by {
            assert(upper_seq(padded) =~= seq![ascii_upper_char('0')] + upper_seq(s));
        }
    } else {
        assert(Seq::new(0, |i: int| '0') + upper_seq(s) =~= upper_seq(s));
    }
}

/// The uppercase form of one character.
fn ascii_upper(c: char) -> (r: char)
    ensures
        r == ascii_upper_char(c),
{
    match c {
        'a' => 'A',
        'b' => 'B',
        'c' => 'C',
        'd' => 'D',
        'e' => 'E',
        'f' => 'F',
        'g' => 'G',
        'h' => 'H',
        'i' => 'I',
        'j' => 'J',
        'k' => 'K',
        'l' => 'L',
        'm' => 'M',
        'n' => 'N',
        'o' => 'O',
        'p' => 'P',
        'q' => 'Q',
        'r' => 'R',
        's' => 'S',
        't' => 'T',
        'u' => 'U',
        'v' => 'V',
        'w' => 'W',
        'x' => 'X',
        'y' => 'Y',
        'z' => 'Z',
        _ => c,
    }
}

/// Pads an ASCII string on the left with '0' until it is at least 16
/// characters long, and uppercases it.
pub fn complete_hexadecimal_seed_with_zero(input: String) -> (r: String)
    requires
        input@.len() < usize::MAX,
        vstd::string::string_is_ascii(&input),
    ensures
        r@ == pad16_upper(input@),
{
    let n = input.as_str().unicode_len();
    let zeros: usize = if n < 16 {
        16 - n
    } else {
        0
    };
    let mut r = String::new();
    let mut j: usize = 0;
    while j < zeros
        invariant
            j <= zeros,
            r@ =~= Seq::new(j as nat, |i: int| '0'),
        decreases zeros - j,
    {
        push_char(&mut r, '0');
        proof {
            assert(r@ =~= Seq::new((j + 1) as nat, |i: int| '0'));
        }
        j = j + 1;
    }
    let mut i: usize = 0;
    while i < n
        invariant
            i <= n,
            n == input@.len(),
            zeros == (if n < 16 {
                (16 - n) as int
            } else {
                0int
            }),
            r@ =~= Seq::new(zeros as nat, |k: int| '0') + upper_seq(input@.take(i as int)),
        decreases n - i,
    {
        let c = input.as_str().get_char(i);
        let u = ascii_upper(c);
        push_char(&mut r, u);
        proof {
            assert(upper_seq(input@.take(i + 1)) =~= upper_seq(input@.take(i as int)).push(
                ascii_upper_char(input@[i as int]),
            ));
            assert(r@ =~= Seq::new(zeros as nat, |k: int| '0') + upper_seq(
                input@.take(i + 1),
            ));
        }
        i = i + 1;
    }
    proof {
        assert(input@.take(n as int) =~= input@);
        lemma_pad16_unfold(input@);
    }
    r
}

/// Every character of the binary rendering of any string is '0' or '1'.
pub proof fn lemma_binary_digits(hash: Seq<char>)
    ensures
        forall|j: int|
            0 <= j < binary_of_hex(hash).len() ==> binary_of_hex(hash)[j] == '0' || binary_of_hex(
                hash,
            )[j] == '1',
    decreases hash.len(),
{
    if hash.len() > 0 {
        lemma_binary_digits(hash.drop_first());
        let b = binary_of_hex(hash);
        assert(b == bits_of_hex_char(hash[0]) + binary_of_hex(hash.drop_first()));
        assert forall|j: int| 0 <= j < b.len() implies b[j] == '0' || b[j] == '1' by {
            if j < 4 {
                assert(b[j] == bits_of_hex_char(hash[0])[j]);
            } else {
                assert(b[j] == binary_of_hex(hash.drop_first())[j - 4]);
            }
        }
    }
}

/// Law: an accepted proof-of-work digest has, in binary, exactly
/// `complexity` leading '0' digits followed by a '1' digit.
pub proof fn lemma_pow_answer_shape(hash: Seq<char>, complexity: nat)
    requires
        pow_ok(hash, complexity),
    ensures
        complexity < binary_of_hex(hash).len(),
        forall|j: int| 0 <= j < complexity ==> binary_of_hex(hash)[j] == '0',
        binary_of_hex(hash)[complexity as int] == '1',
{
    lemma_binary_digits(hash);
}

} // verus!
