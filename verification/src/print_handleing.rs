//! The texts that the program shows besides its log lines.

use vstd::prelude::*;
use crate::download::{lemma_decimal_digits, lemma_parse_decimal};
use crate::text::{
    decimal, decimal_chars, is_ascii_digit, parse_unsigned_spec, string_from_chars, trim_end_spec,
    trim_spec, trim_start_spec,
};

verus! {

/// The label of the entry at `index` of a numbered list: its number, from
/// one, in brackets.
pub fn anime_list_label(index: usize) -> (r: String)
    requires
        index < usize::MAX,
    ensures
        r@ == seq!['['] + decimal((index + 1) as nat) + seq![']'],
{
    let mut chars = vec!['['];
    let digits = decimal_chars((index + 1) as u64);
    let n = digits.len();
    for i in 0..n
        invariant
            n == digits.len(),
            chars@ =~= seq!['['] + digits@.take(i as int),
    {
        chars.push(digits[i]);
    }
    assert(digits@.take(n as int) =~= digits@);
    chars.push(']');
    assert(chars@ =~= seq!['['] + decimal((index + 1) as nat) + seq![']']);
    string_from_chars(&chars)
}

/// The announcement of a download of all episodes.
pub fn download_banner(total_episodes: usize) -> (r: String)
    ensures
        r@ == "Downloading all "@ + decimal(total_episodes as nat) + " episodes"@,
{
    let mut r = "Downloading all ".to_owned();
    let number = string_from_chars(&decimal_chars(total_episodes as u64));
    r.append(number.as_str());
    r.append(" episodes");
    r
}

/// The number that a list label shows, typed back at the number prompt,
/// chooses that entry: the prompt reads it as the same number.
pub proof fn lemma_label_number_reads_back(index: nat)
    requires
        index + 1 <= usize::MAX,
    ensures
        parse_unsigned_spec(trim_spec(decimal(index + 1)), usize::MAX as nat) == Some(index + 1),
{
    let d = decimal(index + 1);
    lemma_decimal_digits(index + 1);
    assert(is_ascii_digit(d[0]));
    assert(is_ascii_digit(d.last()));
    assert(trim_start_spec(d) == d);
    assert(trim_end_spec(d) == d);
    lemma_parse_decimal(index + 1, usize::MAX as nat);
}

} // verus!
