//! A classic shift cipher over the 26-letter Latin alphabet.
//!
//! [`caesar`] validates its key, then rotates every Latin letter of the input
//! by `key % 26` positions — forward to encrypt, backward to decrypt — keeping
//! each letter's case and passing every other character through unchanged.

use vstd::prelude::*;

verus! {

/// Direction of the shift: forward to encrypt, backward to decrypt.
#[derive(Clone, Copy)]
pub enum Mode {
    Encrypt,
    Decrypt,
}

/// The only failure: the key lies outside the closed range `[0, 999_999]`.
#[derive(Debug, PartialEq, Eq, Structural)]
pub struct KeyError;

impl KeyError {
    /// The fixed human-readable description of the failure.
    pub fn message(&self) -> (m: &'static str)
        ensures
            m@ == "the key parameter must be a positive number between 0 - 999999."@,
    {
        "the key parameter must be a positive number between 0 - 999999."
    }
}

/// `c` is one of the 26 lowercase Latin letters.
pub open spec fn is_lower_alpha(c: char) -> bool {
    'a' <= c && c <= 'z'
}

/// `c` is one of the 26 uppercase Latin letters.
pub open spec fn is_upper_alpha(c: char) -> bool {
    'A' <= c && c <= 'Z'
}

/// The forward displacement, in `[0, 26)`, that a key produces: encryption
/// moves every letter `key % 26` positions forward, decryption moves it the
/// same distance backward, i.e. forward by the complement.
pub open spec fn effective_shift(key: int, mode: Mode) -> int
    recommends
        0 <= key,
{
    match mode {
        Mode::Encrypt => key % 26,
        Mode::Decrypt => (26 - key % 26) % 26,
    }
}

/// One character under a forward displacement `s`: a Latin letter rotates
/// within its own case, any other character is unchanged.
pub open spec fn shift_char(c: char, s: int) -> char
    recommends
        0 <= s < 26,
{
    if is_lower_alpha(c) {
        (('a' as int) + ((c as int) - ('a' as int) + s) % 26) as char
    } else if is_upper_alpha(c) {
        (('A' as int) + ((c as int) - ('A' as int) + s) % 26) as char
    } else {
        c
    }
}

/// A whole text under a forward displacement, character by character.
pub open spec fn shift_text(t: Seq<char>, s: int) -> Seq<char>
    recommends
        0 <= s < 26,
{
    Seq::new(t.len(), |i: int| shift_char(t[i], s))
}

/// Position, after encryption, of the letter at `letter_index`: the index
/// moves `key` places forward around the 26-letter alphabet.
fn calc_index_forward(letter_index: &usize, key: i32) -> (r: usize)
    requires
        *letter_index < 26,
        0 <= key <= 999_999,
    ensures
        r < 26,
        r == (*letter_index + effective_shift(key as int, Mode::Encrypt)) % 26,
{
    let li = *letter_index as i32;
    let result = (li + key) % 26;
    result as usize
}

/// Position, after decryption, of the letter at `letter_index`: the index
/// moves `key` places backward around the 26-letter alphabet, which is the
/// same as moving forward by the complement of `key % 26`.
fn calc_index_backward(letter_index: &usize, key: i32) -> (r: usize)
    requires
        *letter_index < 26,
        0 <= key <= 999_999,
    ensures
        r < 26,
        r == (*letter_index + effective_shift(key as int, Mode::Decrypt)) % 26,
{
    let li = *letter_index as i32;
    let mut result = (li - key % 26) % 26;
    if result < 0 {
        result = 26 + result;
    }
    result as usize
}

/// Relies on String::push: appends the single character `c` to the string.
#[verifier::external_body]
fn push_char(s: &mut String, c: char)
    ensures
        final(s)@ == old(s)@.push(c),
{
    s.push(c);
}

/// Shift every Latin letter of `input` by `key` positions around the
/// alphabet — forward under [`Mode::Encrypt`], backward under
/// [`Mode::Decrypt`] — keeping each letter's case; every other character
/// passes through unchanged. Fails with [`KeyError`], and only then, when
/// the key lies outside the closed range `[0, 999_999]`.
pub fn caesar(input: &str, key: i32, dir: Mode) -> (r: Result<String, KeyError>)
    ensures
        r is Ok <==> 0 <= key <= 999_999,
        r is Ok ==> r->Ok_0@ == shift_text(input@, effective_shift(key as int, dir)),
        r is Err ==> r->Err_0 == KeyError,
{
    if key < 0 {
        return Err(KeyError);
    }
    if key > 999_999 {
        return Err(KeyError);
    }

    let ghost s: int = effective_shift(key as int, dir);
    let n = input.unicode_len();
    let mut result = String::new();
    let mut i: usize = 0;
    while i < n
        invariant
            0 <= key <= 999_999,
            s == effective_shift(key as int, dir),
            n == input@.len(),
            i <= n,
            result@ =~= shift_text(input@, s).take(i as int),
        decreases n - i,
    {
        let c = input.get_char(i);
        let u = c as u32;
        if 97 <= u && u <= 122 {
            let p = (u - 97) as usize;
            let np = match dir {
                Mode::Encrypt => calc_index_forward(&p, key),
                Mode::Decrypt => calc_index_backward(&p, key),
            };
            let out = ((97 + np) as u8) as char;
            push_char(&mut result, out);
        } else if 65 <= u && u <= 90 {
            let p = (u - 65) as usize;
            let np = match dir {
                Mode::Encrypt => calc_index_forward(&p, key),
                Mode::Decrypt => calc_index_backward(&p, key),
            };
            let out = ((65 + np) as u8) as char;
            push_char(&mut result, out);
        } else {
            push_char(&mut result, c);
        }
        i = i + 1;
    }
    Ok(result)
}

/// Shifting one character forward by `e` and then forward by the complement
/// of `e` brings it back to where it started.
proof fn lemma_shift_char_round_trip(c: char, e: int)
    requires
        0 <= e < 26,
    ensures
        shift_char(shift_char(c, e), (26 - e) % 26) == c,
{
    let d = (26 - e) % 26;
    if is_lower_alpha(c) {
        let x = (c as int) - ('a' as int);
        assert(shift_char(shift_char(c, e), d) as int == 'a' as int + ((x + e) % 26 + d) % 26);
        assert(((x + e) % 26 + d) % 26 == x);
    } else if is_upper_alpha(c) {
        let x = (c as int) - ('A' as int);
        assert(shift_char(shift_char(c, e), d) as int == 'A' as int + ((x + e) % 26 + d) % 26);
        assert(((x + e) % 26 + d) % 26 == x);
    }
}

/// Decrypting with the key that encrypted a text gives the text back: for
/// every valid key and every text, decryption undoes encryption.
pub proof fn lemma_round_trip(t: Seq<char>, key: int)
    requires
        0 <= key <= 999_999,
    ensures
        shift_text(shift_text(t, effective_shift(key, Mode::Encrypt)), effective_shift(key, Mode::Decrypt)) == t,
{
    let e = effective_shift(key, Mode::Encrypt);
    let d = effective_shift(key, Mode::Decrypt);
    assert forall|i: int| 0 <= i < t.len() implies shift_text(
        shift_text(t, e),
        d,
    )[i] == t[i] by {
        lemma_shift_char_round_trip(t[i], e);
    }
    assert(shift_text(shift_text(t, e), d) =~= t);
}

/// A key of zero changes nothing: in either mode the output equals the input.
pub proof fn lemma_identity_at_zero_key(t: Seq<char>, mode: Mode)
    ensures
        shift_text(t, effective_shift(0, mode)) == t,
{
    assert(effective_shift(0, mode) == 0);
    assert(shift_text(t, 0) =~= t);
}

/// Only the key's remainder modulo 26 matters: a key and that remainder
/// produce the same output in either mode.
pub proof fn lemma_periodicity(t: Seq<char>, key: int, mode: Mode)
    requires
        0 <= key,
    ensures
        shift_text(t, effective_shift(key, mode)) == shift_text(t, effective_shift(key % 26, mode)),
{
    assert(key % 26 % 26 == key % 26);
}

/// A character that is not a Latin letter appears unchanged, at the same
/// position, in the output.
pub proof fn lemma_pass_through(t: Seq<char>, s: int)
    ensures
        forall|i: int|
            0 <= i < t.len() && !is_lower_alpha(t[i]) && !is_upper_alpha(t[i])
                ==> #[trigger] shift_text(t, s)[i] == t[i],
{
}

/// Letters keep their case: a lowercase letter maps to a lowercase letter,
/// an uppercase letter to an uppercase one, at the same position.
pub proof fn lemma_case_preserved(t: Seq<char>, s: int)
    requires
        0 <= s < 26,
    ensures
        forall|i: int|
            0 <= i < t.len() && is_lower_alpha(t[i]) ==> is_lower_alpha(
                #[trigger] shift_text(t, s)[i],
            ),
        forall|i: int|
            0 <= i < t.len() && is_upper_alpha(t[i]) ==> is_upper_alpha(
                #[trigger] shift_text(t, s)[i],
            ),
{
}

/// The output has exactly as many characters as the input.
pub proof fn lemma_length_preserved(t: Seq<char>, s: int)
    ensures
        shift_text(t, s).len() == t.len(),
{
}

} // verus!
