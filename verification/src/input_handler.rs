//! Turning what the user typed into a search term or a choice.

use vstd::prelude::*;
use crate::text::{
    chars_of, is_white_space, occurs_at, parse_unsigned_chars, parse_unsigned_spec, replace_chars,
    replace_spec, string_from_chars, trim_chars, trim_end_spec, trim_spec, trim_start_spec,
};

verus! {

/// `" "`, the character that a search term may not hold.
pub open spec fn space_seq() -> Seq<char> {
    seq![' ']
}

/// `"%20"`, what a space becomes in a search term.
pub open spec fn encoded_space_seq() -> Seq<char> {
    seq!['%', '2', '0']
}

/// The search term made of `input`: white space trimmed from both ends,
/// then every space replaced by `%20`.
pub open spec fn search_term(input: Seq<char>) -> Seq<char> {
    replace_spec(trim_spec(input), space_seq(), encoded_space_seq())
}

/// Trims whitespace from the input and replaces spaces with "%20".
pub fn trim(input: String) -> (r: String)
    ensures
        r@ == search_term(input@),
{
    let chars = chars_of(input.as_str());
    let trimmed = trim_chars(&chars);
    let space = vec![' '];
    let encoded = vec!['%', '2', '0'];
    assert(space@ =~= space_seq());
    assert(encoded@ =~= encoded_space_seq());
    let replaced = replace_chars(&trimmed, &space, &encoded);
    string_from_chars(&replaced)
}

/// The number that `input` holds once trimmed, as `usize::from_str` reads it:
/// `None` where the answer is no such number.
pub fn parse_number(input: &str) -> (r: Option<usize>)
    ensures
        match r {
            Some(n) => parse_unsigned_spec(trim_spec(input@), usize::MAX as nat) == Some(n as nat),
            None => parse_unsigned_spec(trim_spec(input@), usize::MAX as nat) is None,
        },
{
    let chars = chars_of(input);
    let trimmed = trim_chars(&chars);
    match parse_unsigned_chars(&trimmed, usize::MAX as u64) {
        Some(v) => Some(v as usize),
        None => None,
    }
}

/// The entry that a user chose by its number, counted from one.
pub fn pick_by_number(entries: &Vec<String>, chosen: usize) -> (r: String)
    requires
        1 <= chosen <= entries.len(),
    ensures
        r@ == entries@[chosen - 1]@,
{
    entries[chosen - 1].clone()
}

pub open spec fn has_no_char(s: Seq<char>, c: char) -> bool {
    forall|i: int| 0 <= i < s.len() ==> s[i] != c
}

proof fn lemma_occurs_single(s: Seq<char>, c: char)
    requires
        s.len() > 0,
    ensures
        occurs_at(s, seq![c], 0) <==> s[0] == c,
{
    if s[0] == c {
        assert(s.subrange(0, 1) =~= seq![c]);
    } else {
        assert(s.subrange(0, 1)[0] != seq![c][0]);
    }
}

proof fn lemma_replace_single_unfold(s: Seq<char>, c: char, rep: Seq<char>)
    requires
        s.len() > 0,
    ensures
        replace_spec(s, seq![c], rep) == if s[0] == c {
            rep + replace_spec(s.drop_first(), seq![c], rep)
        } else {
            seq![s[0]] + replace_spec(s.drop_first(), seq![c], rep)
        },
{
    lemma_occurs_single(s, c);
    assert(s.subrange(1, s.len() as int) =~= s.drop_first());
}

/// Replacing `c` leaves no `c` behind when the replacement holds none.
proof fn lemma_replace_removes_char(s: Seq<char>, c: char, rep: Seq<char>)
    requires
        has_no_char(rep, c),
    ensures
        has_no_char(replace_spec(s, seq![c], rep), c),
    decreases s.len(),
{
    if s.len() > 0 {
        lemma_replace_single_unfold(s, c, rep);
        lemma_replace_removes_char(s.drop_first(), c, rep);
        let tail = replace_spec(s.drop_first(), seq![c], rep);
        let head = if s[0] == c {
            rep
        } else {
            seq![s[0]]
        };
        assert forall|i: int| 0 <= i < (head + tail).len() implies (head + tail)[i] != c by {
            if i >= head.len() {
                assert((head + tail)[i] == tail[i - head.len()]);
            }
        }
    }
}

/// Replacing a character that does not occur changes nothing.
proof fn lemma_replace_absent_char(s: Seq<char>, c: char, rep: Seq<char>)
    requires
        has_no_char(s, c),
    ensures
        replace_spec(s, seq![c], rep) == s,
    decreases s.len(),
{
    if s.len() > 0 {
        lemma_replace_single_unfold(s, c, rep);
        lemma_replace_absent_char(s.drop_first(), c, rep);
        assert(seq![s[0]] + s.drop_first() =~= s);
    }
}

/// Replacing `c` keeps a first and a last character that are not `c`.
proof fn lemma_replace_keeps_ends(s: Seq<char>, c: char, rep: Seq<char>)
    requires
        s.len() > 0,
        s[0] != c,
        s.last() != c,
    ensures
        replace_spec(s, seq![c], rep).len() > 0,
        replace_spec(s, seq![c], rep)[0] == s[0],
        replace_spec(s, seq![c], rep).last() == s.last(),
    decreases s.len(),
{
    lemma_replace_single_unfold(s, c, rep);
    let t = s.drop_first();
    if t.len() == 0 {
        assert(replace_spec(t, seq![c], rep) =~= t);
    } else {
        let tail = replace_spec(t, seq![c], rep);
        if t[0] == c {
            lemma_replace_single_unfold(t, c, rep);
            let u = t.drop_first();
            assert(u.len() > 0);
            assert(u.last() == s.last());
            if u[0] == c {
                lemma_replace_tail_last(u, c, rep);
            } else {
                lemma_replace_keeps_ends(u, c, rep);
            }
        } else {
            lemma_replace_keeps_ends(t, c, rep);
        }
        assert((seq![s[0]] + tail).last() == tail.last());
    }
}

proof fn lemma_replace_tail_last(s: Seq<char>, c: char, rep: Seq<char>)
    requires
        s.len() > 0,
        s.last() != c,
    ensures
        replace_spec(s, seq![c], rep).len() > 0,
        replace_spec(s, seq![c], rep).last() == s.last(),
    decreases s.len(),
{
    lemma_replace_single_unfold(s, c, rep);
    let t = s.drop_first();
    if t.len() == 0 {
        assert(s[0] == s.last());
        assert(replace_spec(t, seq![c], rep) =~= t);
    } else {
        assert(t.last() == s.last());
        lemma_replace_tail_last(t, c, rep);
        let tail = replace_spec(t, seq![c], rep);
        let head = if s[0] == c {
            rep
        } else {
            seq![s[0]]
        };
        assert((head + tail).last() == tail.last());
    }
}

proof fn lemma_trim_fixed(s: Seq<char>)
    requires
        s.len() == 0 || (!is_white_space(s[0]) && !is_white_space(s.last())),
    ensures
        trim_spec(s) == s,
{
}

proof fn lemma_trim_ends(s: Seq<char>)
    ensures
        trim_spec(s).len() == 0 || (!is_white_space(trim_spec(s)[0]) && !is_white_space(
            trim_spec(s).last(),
        )),
    decreases s.len(),
{
    lemma_trim_start_ends(s);
    lemma_trim_end_ends(trim_start_spec(s));
}

proof fn lemma_trim_start_ends(s: Seq<char>)
    ensures
        trim_start_spec(s).len() == 0 || !is_white_space(trim_start_spec(s)[0]),
    decreases s.len(),
{
    if s.len() > 0 && is_white_space(s[0]) {
        lemma_trim_start_ends(s.drop_first());
    }
}

proof fn lemma_trim_end_ends(s: Seq<char>)
    requires
        s.len() == 0 || !is_white_space(s[0]),
    ensures
        trim_end_spec(s).len() == 0 || (!is_white_space(trim_end_spec(s)[0]) && !is_white_space(
            trim_end_spec(s).last(),
        )),
    decreases s.len(),
{
    if s.len() > 0 && is_white_space(s.last()) {
        lemma_trim_end_ends(s.drop_last());
    }
}

/// A search term holds no space: each one has become `%20`.
pub proof fn lemma_search_term_has_no_space(input: Seq<char>)
    ensures
        has_no_char(search_term(input), ' '),
{
    lemma_replace_removes_char(trim_spec(input), ' ', encoded_space_seq());
}

/// A search term has no white space at either end.
pub proof fn lemma_search_term_is_trimmed(input: Seq<char>)
    ensures
        trim_spec(search_term(input)) == search_term(input),
{
    let t = trim_spec(input);
    lemma_trim_ends(input);
    if t.len() > 0 {
        lemma_replace_keeps_ends(t, ' ', encoded_space_seq());
    } else {
        assert(search_term(input) =~= t);
    }
    lemma_trim_fixed(search_term(input));
}

/// Making a search term of a search term changes nothing.
pub proof fn lemma_search_term_idempotent(input: Seq<char>)
    ensures
        search_term(search_term(input)) == search_term(input),
{
    lemma_search_term_is_trimmed(input);
    lemma_search_term_has_no_space(input);
    lemma_replace_absent_char(search_term(input), ' ', encoded_space_seq());
}

} // verus!
