//! Naming of downloaded files, and the decision taken on each answer while
//! following redirects.

use vstd::prelude::*;
use crate::error::ScrapeError;
use crate::text::{
    all_ascii_digits, decimal, decimal_chars, digit_char, digit_value, digits_value,
    is_ascii_digit, parse_unsigned_spec, string_from_chars, zero_pad, zero_pad_chars,
};

verus! {

/// `"EP-"`.
pub open spec fn episode_prefix() -> Seq<char> {
    seq!['E', 'P', '-']
}

/// `".mp4"`.
pub open spec fn episode_suffix() -> Seq<char> {
    seq!['.', 'm', 'p', '4']
}

/// The file name of episode `n`: `EP-`, the number padded with zeros to
/// `width` digits, `.mp4`.
pub open spec fn episode_file_name_spec(n: nat, width: nat) -> Seq<char> {
    episode_prefix() + zero_pad(decimal(n), width) + episode_suffix()
}

/// The file name of an episode, as `format!("EP-{:0width$}.mp4", n)` writes it.
pub fn episode_file_name(episode_number: u32, width: usize) -> (r: String)
    ensures
        r@ == episode_file_name_spec(episode_number as nat, width as nat),
{
    let digits = zero_pad_chars(&decimal_chars(episode_number as u64), width);
    let mut chars = vec!['E', 'P', '-'];
    let n = digits.len();
    for i in 0..n
        invariant
            n == digits.len(),
            chars@ =~= episode_prefix() + digits@.take(i as int),
    {
        chars.push(digits[i]);
    }
    assert(digits@.take(n as int) =~= digits@);
    chars.push('.');
    chars.push('m');
    chars.push('p');
    chars.push('4');
    assert(chars@ =~= episode_file_name_spec(episode_number as nat, width as nat));
    string_from_chars(&chars)
}

/// The name of the file that a download is written to before it is complete.
pub fn create_temp_file_path(full_file_path: &str) -> (r: String)
    ensures
        r@ == full_file_path@ + ".tmp"@,
{
    let mut r = full_file_path.to_owned();
    r.append(".tmp");
    r
}

/// What to do with an answer while following redirects.
pub enum RedirectStep {
    /// Ask again at this address.
    Follow(String),
    /// This address is the one to download.
    Finish(String),
}

/// The decision on an answer with `status` and `location` to the request
/// for `current`: a redirect with a location is followed; a client error
/// fails the request; any other answer ends the search at `current`.
pub fn redirect_step(current: String, status: u16, location: Option<String>) -> (r: Result<RedirectStep, ScrapeError>)
    ensures
        (300 <= status <= 399 && location is Some) ==> (r matches Ok(RedirectStep::Follow(u)) && u@
            == location->0@),
        (300 <= status <= 399 && location is None) ==> (r matches Ok(RedirectStep::Finish(u)) && u@
            == current@),
        (400 <= status <= 499) ==> r == Err::<RedirectStep, ScrapeError>(ScrapeError::RequestFailed),
        !(300 <= status <= 499) ==> (r matches Ok(RedirectStep::Finish(u)) && u@ == current@),
{
    if 300 <= status && status <= 399 {
        match location {
            Some(l) => Ok(RedirectStep::Follow(l)),
            None => Ok(RedirectStep::Finish(current)),
        }
    } else if 400 <= status && status <= 499 {
        Err(ScrapeError::RequestFailed)
    } else {
        Ok(RedirectStep::Finish(current))
    }
}

proof fn lemma_digit_char_value(d: nat)
    requires
        d < 10,
    ensures
        digit_value(digit_char(d)) == d,
{
}

/// The digits of `n` write `n`.
pub proof fn lemma_decimal_value(n: nat)
    ensures
        digits_value(decimal(n)) == n,
    decreases n,
{
    if n >= 10 {
        lemma_digit_char_value(n % 10);
        lemma_decimal_value(n / 10);
        let s = decimal(n / 10).push(digit_char(n % 10));
        assert(decimal(n) == s);
        assert(s.drop_last() =~= decimal(n / 10));
        assert(s.last() == digit_char(n % 10));
        assert(digits_value(s) == digits_value(decimal(n / 10)) * 10 + digit_value(digit_char(n % 10)));
        assert(n == (n / 10) * 10 + n % 10);
    } else {
        lemma_digit_char_value(n);
        let s = decimal(n);
        assert(s == seq![digit_char(n)]);
        assert(s.drop_last() =~= Seq::<char>::empty());
        assert(digits_value(s) == digits_value(s.drop_last()) * 10 + digit_value(s.last()));
    }
}

proof fn lemma_zeros_value(k: nat)
    ensures
        digits_value(Seq::new(k, |i: int| '0')) == 0,
    decreases k,
{
    if k > 0 {
        assert(Seq::new(k, |i: int| '0').drop_last() =~= Seq::new((k - 1) as nat, |i: int| '0'));
        lemma_zeros_value((k - 1) as nat);
    }
}

proof fn lemma_leading_zeros_value(k: nat, s: Seq<char>)
    ensures
        digits_value(Seq::new(k, |i: int| '0') + s) == digits_value(s),
    decreases s.len(),
{
    let z = Seq::new(k, |i: int| '0');
    if s.len() == 0 {
        assert(z + s =~= z);
        lemma_zeros_value(k);
    } else {
        assert((z + s).drop_last() =~= z + s.drop_last());
        lemma_leading_zeros_value(k, s.drop_last());
    }
}

/// Padding with zeros keeps the number.
pub proof fn lemma_zero_pad_value(s: Seq<char>, width: nat)
    ensures
        digits_value(zero_pad(s, width)) == digits_value(s),
{
    if s.len() < width {
        lemma_leading_zeros_value((width - s.len()) as nat, s);
    }
}

/// Distinct episodes get distinct file names, whatever the padding.
pub proof fn lemma_episode_file_names_distinct(a: nat, b: nat, width: nat)
    requires
        a != b,
    ensures
        episode_file_name_spec(a, width) != episode_file_name_spec(b, width),
{
    let pa = zero_pad(decimal(a), width);
    let pb = zero_pad(decimal(b), width);
    if episode_file_name_spec(a, width) == episode_file_name_spec(b, width) {
        let fa = episode_file_name_spec(a, width);
        let fb = episode_file_name_spec(b, width);
        assert(fa.subrange(3, fa.len() - 4) =~= pa);
        assert(fb.subrange(3, fb.len() - 4) =~= pb);
        lemma_zero_pad_value(decimal(a), width);
        lemma_zero_pad_value(decimal(b), width);
        lemma_decimal_value(a);
        lemma_decimal_value(b);
    }
}

/// The decimal digits of a number are ASCII digits, at least one.
pub proof fn lemma_decimal_digits(n: nat)
    ensures
        decimal(n).len() > 0,
        all_ascii_digits(decimal(n)),
    decreases n,
{
    if n >= 10 {
        lemma_decimal_digits(n / 10);
        let s = decimal(n / 10).push(digit_char(n % 10));
        assert forall|i: int| 0 <= i < s.len() implies is_ascii_digit(#[trigger] s[i]) by {
            if i < s.len() - 1 {
                assert(s[i] == decimal(n / 10)[i]);
            }
        }
    }
}

/// A number written in decimal reads back as itself wherever it fits.
pub proof fn lemma_parse_decimal(n: nat, max: nat)
    requires
        n <= max,
    ensures
        parse_unsigned_spec(decimal(n), max) == Some(n),
{
    lemma_decimal_digits(n);
    lemma_decimal_value(n);
    assert(is_ascii_digit(decimal(n)[0]));
}

} // verus!
