//! Decoding of the obfuscated provider identifiers that episode sources carry.

use vstd::prelude::*;
use std::collections::HashMap;
use vstd::utf8::{encode_utf8, is_ascii_chars, is_ascii_chars_encode_utf8};
use crate::text::{contains_spec, occurs_at, replace_chars, replace_spec, string_from_chars};

verus! {

/// The key under which the two characters `hi` `lo` of a code stand.
pub open spec fn pair_key(hi: u8, lo: u8) -> u16 {
    (hi as nat * 256 + lo as nat) as u16
}

/// The key under which the two characters `hi` `lo` of a code stand.
pub fn pair_key_exec(hi: u8, lo: u8) -> (k: u16)
    ensures
        k == pair_key(hi, lo),
{
    hi as u16 * 256 + lo as u16
}

/// Each two-character code of a provider identifier and the character that
/// it stands for.
pub open spec fn hex_table() -> Map<u16, char> {
    map![
        pair_key(0x37, 0x39) => 'A',  // "79"
        pair_key(0x37, 0x61) => 'B',  // "7a"
        pair_key(0x37, 0x62) => 'C',  // "7b"
        pair_key(0x37, 0x63) => 'D',  // "7c"
        pair_key(0x37, 0x64) => 'E',  // "7d"
        pair_key(0x37, 0x65) => 'F',  // "7e"
        pair_key(0x37, 0x66) => 'G',  // "7f"
        pair_key(0x37, 0x30) => 'H',  // "70"
        pair_key(0x37, 0x31) => 'I',  // "71"
        pair_key(0x37, 0x32) => 'J',  // "72"
        pair_key(0x37, 0x33) => 'K',  // "73"
        pair_key(0x37, 0x34) => 'L',  // "74"
        pair_key(0x37, 0x35) => 'M',  // "75"
        pair_key(0x37, 0x36) => 'N',  // "76"
        pair_key(0x37, 0x37) => 'O',  // "77"
        pair_key(0x36, 0x38) => 'P',  // "68"
        pair_key(0x36, 0x39) => 'Q',  // "69"
        pair_key(0x36, 0x61) => 'R',  // "6a"
        pair_key(0x36, 0x62) => 'S',  // "6b"
        pair_key(0x36, 0x63) => 'T',  // "6c"
        pair_key(0x36, 0x64) => 'U',  // "6d"
        pair_key(0x36, 0x65) => 'V',  // "6e"
        pair_key(0x36, 0x66) => 'W',  // "6f"
        pair_key(0x36, 0x30) => 'X',  // "60"
        pair_key(0x36, 0x31) => 'Y',  // "61"
        pair_key(0x36, 0x32) => 'Z',  // "62"
        pair_key(0x35, 0x39) => 'a',  // "59"
        pair_key(0x35, 0x61) => 'b',  // "5a"
        pair_key(0x35, 0x62) => 'c',  // "5b"
        pair_key(0x35, 0x63) => 'd',  // "5c"
        pair_key(0x35, 0x64) => 'e',  // "5d"
        pair_key(0x35, 0x65) => 'f',  // "5e"
        pair_key(0x35, 0x66) => 'g',  // "5f"
        pair_key(0x35, 0x30) => 'h',  // "50"
        pair_key(0x35, 0x31) => 'i',  // "51"
        pair_key(0x35, 0x32) => 'j',  // "52"
        pair_key(0x35, 0x33) => 'k',  // "53"
        pair_key(0x35, 0x34) => 'l',  // "54"
        pair_key(0x35, 0x35) => 'm',  // "55"
        pair_key(0x35, 0x36) => 'n',  // "56"
        pair_key(0x35, 0x37) => 'o',  // "57"
        pair_key(0x34, 0x38) => 'p',  // "48"
        pair_key(0x34, 0x39) => 'q',  // "49"
        pair_key(0x34, 0x61) => 'r',  // "4a"
        pair_key(0x34, 0x62) => 's',  // "4b"
        pair_key(0x34, 0x63) => 't',  // "4c"
        pair_key(0x34, 0x64) => 'u',  // "4d"
        pair_key(0x34, 0x65) => 'v',  // "4e"
        pair_key(0x34, 0x66) => 'w',  // "4f"
        pair_key(0x34, 0x30) => 'x',  // "40"
        pair_key(0x34, 0x31) => 'y',  // "41"
        pair_key(0x34, 0x32) => 'z',  // "42"
        pair_key(0x30, 0x38) => '0',  // "08"
        pair_key(0x30, 0x39) => '1',  // "09"
        pair_key(0x30, 0x61) => '2',  // "0a"
        pair_key(0x30, 0x62) => '3',  // "0b"
        pair_key(0x30, 0x63) => '4',  // "0c"
        pair_key(0x30, 0x64) => '5',  // "0d"
        pair_key(0x30, 0x65) => '6',  // "0e"
        pair_key(0x30, 0x66) => '7',  // "0f"
        pair_key(0x30, 0x30) => '8',  // "00"
        pair_key(0x30, 0x31) => '9',  // "01"
        pair_key(0x31, 0x35) => '-',  // "15"
        pair_key(0x31, 0x36) => '.',  // "16"
        pair_key(0x36, 0x37) => '_',  // "67"
        pair_key(0x34, 0x36) => '~',  // "46"
        pair_key(0x30, 0x32) => ':',  // "02"
        pair_key(0x31, 0x37) => '/',  // "17"
        pair_key(0x30, 0x37) => '?',  // "07"
        pair_key(0x31, 0x62) => '#',  // "1b"
        pair_key(0x36, 0x33) => '[',  // "63"
        pair_key(0x36, 0x35) => ']',  // "65"
        pair_key(0x37, 0x38) => '@',  // "78"
        pair_key(0x31, 0x39) => '!',  // "19"
        pair_key(0x31, 0x63) => '$',  // "1c"
        pair_key(0x31, 0x65) => '&',  // "1e"
        pair_key(0x31, 0x30) => '(',  // "10"
        pair_key(0x31, 0x31) => ')',  // "11"
        pair_key(0x31, 0x32) => '*',  // "12"
        pair_key(0x31, 0x33) => '+',  // "13"
        pair_key(0x31, 0x34) => ',',  // "14"
        pair_key(0x30, 0x33) => ';',  // "03"
        pair_key(0x30, 0x35) => '=',  // "05"
        pair_key(0x31, 0x64) => '%',  // "1d"
    ]
}

/// The table of codes: each two-character code, keyed as `pair_key` of its
/// two bytes, and the character that it stands for.
pub fn hex_mapping() -> (m: HashMap<u16, char>)
    ensures
        m@ == hex_table(),
{
    let mut map: HashMap<u16, char> = HashMap::new();
    map.insert(pair_key_exec(0x37, 0x39), 'A');  // "79"
    map.insert(pair_key_exec(0x37, 0x61), 'B');  // "7a"
    map.insert(pair_key_exec(0x37, 0x62), 'C');  // "7b"
    map.insert(pair_key_exec(0x37, 0x63), 'D');  // "7c"
    map.insert(pair_key_exec(0x37, 0x64), 'E');  // "7d"
    map.insert(pair_key_exec(0x37, 0x65), 'F');  // "7e"
    map.insert(pair_key_exec(0x37, 0x66), 'G');  // "7f"
    map.insert(pair_key_exec(0x37, 0x30), 'H');  // "70"
    map.insert(pair_key_exec(0x37, 0x31), 'I');  // "71"
    map.insert(pair_key_exec(0x37, 0x32), 'J');  // "72"
    map.insert(pair_key_exec(0x37, 0x33), 'K');  // "73"
    map.insert(pair_key_exec(0x37, 0x34), 'L');  // "74"
    map.insert(pair_key_exec(0x37, 0x35), 'M');  // "75"
    map.insert(pair_key_exec(0x37, 0x36), 'N');  // "76"
    map.insert(pair_key_exec(0x37, 0x37), 'O');  // "77"
    map.insert(pair_key_exec(0x36, 0x38), 'P');  // "68"
    map.insert(pair_key_exec(0x36, 0x39), 'Q');  // "69"
    map.insert(pair_key_exec(0x36, 0x61), 'R');  // "6a"
    map.insert(pair_key_exec(0x36, 0x62), 'S');  // "6b"
    map.insert(pair_key_exec(0x36, 0x63), 'T');  // "6c"
    map.insert(pair_key_exec(0x36, 0x64), 'U');  // "6d"
    map.insert(pair_key_exec(0x36, 0x65), 'V');  // "6e"
    map.insert(pair_key_exec(0x36, 0x66), 'W');  // "6f"
    map.insert(pair_key_exec(0x36, 0x30), 'X');  // "60"
    map.insert(pair_key_exec(0x36, 0x31), 'Y');  // "61"
    map.insert(pair_key_exec(0x36, 0x32), 'Z');  // "62"
    map.insert(pair_key_exec(0x35, 0x39), 'a');  // "59"
    map.insert(pair_key_exec(0x35, 0x61), 'b');  // "5a"
    map.insert(pair_key_exec(0x35, 0x62), 'c');  // "5b"
    map.insert(pair_key_exec(0x35, 0x63), 'd');  // "5c"
    map.insert(pair_key_exec(0x35, 0x64), 'e');  // "5d"
    map.insert(pair_key_exec(0x35, 0x65), 'f');  // "5e"
    map.insert(pair_key_exec(0x35, 0x66), 'g');  // "5f"
    map.insert(pair_key_exec(0x35, 0x30), 'h');  // "50"
    map.insert(pair_key_exec(0x35, 0x31), 'i');  // "51"
    map.insert(pair_key_exec(0x35, 0x32), 'j');  // "52"
    map.insert(pair_key_exec(0x35, 0x33), 'k');  // "53"
    map.insert(pair_key_exec(0x35, 0x34), 'l');  // "54"
    map.insert(pair_key_exec(0x35, 0x35), 'm');  // "55"
    map.insert(pair_key_exec(0x35, 0x36), 'n');  // "56"
    map.insert(pair_key_exec(0x35, 0x37), 'o');  // "57"
    map.insert(pair_key_exec(0x34, 0x38), 'p');  // "48"
    map.insert(pair_key_exec(0x34, 0x39), 'q');  // "49"
    map.insert(pair_key_exec(0x34, 0x61), 'r');  // "4a"
    map.insert(pair_key_exec(0x34, 0x62), 's');  // "4b"
    map.insert(pair_key_exec(0x34, 0x63), 't');  // "4c"
    map.insert(pair_key_exec(0x34, 0x64), 'u');  // "4d"
    map.insert(pair_key_exec(0x34, 0x65), 'v');  // "4e"
    map.insert(pair_key_exec(0x34, 0x66), 'w');  // "4f"
    map.insert(pair_key_exec(0x34, 0x30), 'x');  // "40"
    map.insert(pair_key_exec(0x34, 0x31), 'y');  // "41"
    map.insert(pair_key_exec(0x34, 0x32), 'z');  // "42"
    map.insert(pair_key_exec(0x30, 0x38), '0');  // "08"
    map.insert(pair_key_exec(0x30, 0x39), '1');  // "09"
    map.insert(pair_key_exec(0x30, 0x61), '2');  // "0a"
    map.insert(pair_key_exec(0x30, 0x62), '3');  // "0b"
    map.insert(pair_key_exec(0x30, 0x63), '4');  // "0c"
    map.insert(pair_key_exec(0x30, 0x64), '5');  // "0d"
    map.insert(pair_key_exec(0x30, 0x65), '6');  // "0e"
    map.insert(pair_key_exec(0x30, 0x66), '7');  // "0f"
    map.insert(pair_key_exec(0x30, 0x30), '8');  // "00"
    map.insert(pair_key_exec(0x30, 0x31), '9');  // "01"
    map.insert(pair_key_exec(0x31, 0x35), '-');  // "15"
    map.insert(pair_key_exec(0x31, 0x36), '.');  // "16"
    map.insert(pair_key_exec(0x36, 0x37), '_');  // "67"
    map.insert(pair_key_exec(0x34, 0x36), '~');  // "46"
    map.insert(pair_key_exec(0x30, 0x32), ':');  // "02"
    map.insert(pair_key_exec(0x31, 0x37), '/');  // "17"
    map.insert(pair_key_exec(0x30, 0x37), '?');  // "07"
    map.insert(pair_key_exec(0x31, 0x62), '#');  // "1b"
    map.insert(pair_key_exec(0x36, 0x33), '[');  // "63"
    map.insert(pair_key_exec(0x36, 0x35), ']');  // "65"
    map.insert(pair_key_exec(0x37, 0x38), '@');  // "78"
    map.insert(pair_key_exec(0x31, 0x39), '!');  // "19"
    map.insert(pair_key_exec(0x31, 0x63), '$');  // "1c"
    map.insert(pair_key_exec(0x31, 0x65), '&');  // "1e"
    map.insert(pair_key_exec(0x31, 0x30), '(');  // "10"
    map.insert(pair_key_exec(0x31, 0x31), ')');  // "11"
    map.insert(pair_key_exec(0x31, 0x32), '*');  // "12"
    map.insert(pair_key_exec(0x31, 0x33), '+');  // "13"
    map.insert(pair_key_exec(0x31, 0x34), ',');  // "14"
    map.insert(pair_key_exec(0x30, 0x33), ';');  // "03"
    map.insert(pair_key_exec(0x30, 0x35), '=');  // "05"
    map.insert(pair_key_exec(0x31, 0x64), '%');  // "1d"
    map
}

/// What the `i`-th code of `bytes` decodes to: its character, or nothing
/// where the code is not in the table.
pub open spec fn decode_cell(bytes: Seq<u8>, i: int) -> Seq<char> {
    let k = pair_key(bytes[2 * i], bytes[2 * i + 1]);
    if hex_table().contains_key(k) {
        seq![hex_table()[k]]
    } else {
        Seq::empty()
    }
}

/// The characters that the first `n` two-byte codes of `bytes` decode to.
pub open spec fn decode_codes(bytes: Seq<u8>, n: nat) -> Seq<char>
    decreases n,
{
    if n == 0 {
        Seq::empty()
    } else {
        decode_codes(bytes, (n - 1) as nat) + decode_cell(bytes, n - 1)
    }
}

/// `"/clock"`.
pub open spec fn clock_seq() -> Seq<char> {
    seq!['/', 'c', 'l', 'o', 'c', 'k']
}

/// `"/clock.json"`.
pub open spec fn clock_json_seq() -> Seq<char> {
    seq!['/', 'c', 'l', 'o', 'c', 'k', '.', 'j', 's', 'o', 'n']
}

/// The path that a provider identifier stands for: the UTF-8 bytes of
/// `encoded` read two at a time, each code in the table giving its
/// character and any other code nothing, a last odd byte ignored; then every
/// `/clock` made `/clock.json`.
pub open spec fn decode_provider_spec(encoded: Seq<char>) -> Seq<char> {
    let bytes = encode_utf8(encoded);
    replace_spec(decode_codes(bytes, bytes.len() / 2), clock_seq(), clock_json_seq())
}

/// Decodes an obfuscated provider identifier into the path that it stands for.
pub fn decode_provider_id(encoded: &str) -> (r: String)
    ensures
        r@ == decode_provider_spec(encoded@),
{
    let mapping = hex_mapping();
    let bytes = encoded.as_bytes();
    let n = bytes.len();
    let mut decoded: Vec<char> = Vec::new();
    let mut i: usize = 0;
    while i < n && n - i >= 2
        invariant
            n == bytes@.len(),
            mapping@ == hex_table(),
            i <= n,
            i % 2 == 0,
            decoded@ == decode_codes(bytes@, (i / 2) as nat),
        decreases n - i,
    {
        let key = pair_key_exec(bytes[i], bytes[i + 1]);
        let ghost before = decoded@;
        assert(decode_codes(bytes@, (i / 2 + 1) as nat) == before + decode_cell(bytes@, (i / 2) as int));
        match mapping.get(&key) {
            Some(c) => {
                decoded.push(*c);
            },
            None => {},
        }
        assert(decoded@ =~= decode_codes(bytes@, (i / 2 + 1) as nat));
        i = i + 2;
    }
    assert(i / 2 == n / 2);
    let clock = vec!['/', 'c', 'l', 'o', 'c', 'k'];
    let clock_json = vec!['/', 'c', 'l', 'o', 'c', 'k', '.', 'j', 's', 'o', 'n'];
    assert(clock@ =~= clock_seq());
    assert(clock_json@ =~= clock_json_seq());
    let replaced = replace_chars(&decoded, &clock, &clock_json);
    string_from_chars(&replaced)
}

proof fn lemma_decode_codes_prefix(a: Seq<u8>, b: Seq<u8>, n: nat)
    requires
        2 * n <= a.len(),
    ensures
        decode_codes(a + b, n) == decode_codes(a, n),
    decreases n,
{
    if n > 0 {
        lemma_decode_codes_prefix(a, b, (n - 1) as nat);
        assert((a + b)[2 * (n - 1)] == a[2 * (n - 1)]);
        assert((a + b)[2 * (n - 1) + 1] == a[2 * (n - 1) + 1]);
    }
}

proof fn lemma_decode_codes_shift(a: Seq<u8>, b: Seq<u8>, n: nat)
    requires
        a.len() % 2 == 0,
        2 * n <= b.len(),
    ensures
        decode_codes(a + b, (a.len() / 2 + n) as nat) == decode_codes(a, a.len() / 2)
            + decode_codes(b, n),
    decreases n,
{
    if n == 0 {
        lemma_decode_codes_prefix(a, b, a.len() / 2);
        assert(decode_codes(a, a.len() / 2) + decode_codes(b, 0) =~= decode_codes(a, a.len() / 2));
    } else {
        lemma_decode_codes_shift(a, b, (n - 1) as nat);
        let k = a.len() / 2 + n - 1;
        assert((a + b)[2 * k] == b[2 * (n - 1)]);
        assert((a + b)[2 * k + 1] == b[2 * (n - 1) + 1]);
        assert(decode_cell(a + b, k) == decode_cell(b, n - 1));
        assert(decode_codes(a, a.len() / 2) + decode_codes(b, n) =~= decode_codes(
            a,
            a.len() / 2,
        ) + decode_codes(b, (n - 1) as nat) + decode_cell(b, n - 1));
    }
}

/// Codes are read independently of one another: decoding two byte strings,
/// the first of even length, one after the other decodes each in turn.
pub proof fn lemma_decode_codes_concat(a: Seq<u8>, b: Seq<u8>)
    requires
        a.len() % 2 == 0,
    ensures
        decode_codes(a + b, (a + b).len() / 2) == decode_codes(a, a.len() / 2) + decode_codes(
            b,
            b.len() / 2,
        ),
{
    assert((a + b).len() / 2 == a.len() / 2 + b.len() / 2);
    lemma_decode_codes_shift(a, b, b.len() / 2);
}

/// Whether `bytes` is an encoding of `t`: for each character of `t`, in
/// order, two bytes that form its code in the table.
pub open spec fn is_encoding_of(bytes: Seq<u8>, t: Seq<char>) -> bool {
    &&& bytes.len() == 2 * t.len()
    &&& forall|i: int|
        0 <= i < t.len() ==> {
            let k = #[trigger] pair_key(bytes[2 * i], bytes[2 * i + 1]);
            hex_table().contains_key(k) && hex_table()[k] == t[i]
        }
}

proof fn lemma_replace_absent(s: Seq<char>, pat: Seq<char>, rep: Seq<char>)
    requires
        pat.len() > 0,
        !contains_spec(s, pat),
    ensures
        replace_spec(s, pat, rep) == s,
    decreases s.len(),
{
    if s.len() > 0 {
        assert(!occurs_at(s, pat, 0));
        let t = s.drop_first();
        assert forall|i: int| !occurs_at(t, pat, i) by {
            if occurs_at(t, pat, i) {
                assert(s.subrange(i + 1, i + 1 + pat.len()) =~= t.subrange(i, i + pat.len()));
                assert(occurs_at(s, pat, i + 1));
            }
        }
        lemma_replace_absent(t, pat, rep);
        assert(seq![s[0]] + t =~= s);
    }
}

proof fn lemma_decode_codes_of_encoding(bytes: Seq<u8>, t: Seq<char>, n: nat)
    requires
        is_encoding_of(bytes, t),
        n <= t.len(),
    ensures
        decode_codes(bytes, n) == t.take(n as int),
    decreases n,
{
    if n > 0 {
        lemma_decode_codes_of_encoding(bytes, t, (n - 1) as nat);
        let k = pair_key(bytes[2 * (n - 1)], bytes[2 * (n - 1) + 1]);
        assert(hex_table().contains_key(k) && hex_table()[k] == t[n - 1]);
        assert(t.take(n as int) =~= t.take(n - 1).push(t[n - 1]));
    }
}

/// Decoding gives back a path that was encoded code by code, wherever the
/// path holds no `/clock`.
pub proof fn lemma_decode_encoded(encoded: Seq<char>, t: Seq<char>)
    requires
        is_encoding_of(encode_utf8(encoded), t),
        !contains_spec(t, clock_seq()),
    ensures
        decode_provider_spec(encoded) == t,
{
    let bytes = encode_utf8(encoded);
    assert(bytes.len() / 2 == t.len());
    lemma_decode_codes_of_encoding(bytes, t, t.len());
    assert(t.take(t.len() as int) =~= t);
    lemma_replace_absent(t, clock_seq(), clock_json_seq());
}

/// The characters that the table decodes to.
pub open spec fn in_alphabet(c: char) -> bool {
    ||| c == 'A'
    ||| c == 'B'
    ||| c == 'C'
    ||| c == 'D'
    ||| c == 'E'
    ||| c == 'F'
    ||| c == 'G'
    ||| c == 'H'
    ||| c == 'I'
    ||| c == 'J'
    ||| c == 'K'
    ||| c == 'L'
    ||| c == 'M'
    ||| c == 'N'
    ||| c == 'O'
    ||| c == 'P'
    ||| c == 'Q'
    ||| c == 'R'
    ||| c == 'S'
    ||| c == 'T'
    ||| c == 'U'
    ||| c == 'V'
    ||| c == 'W'
    ||| c == 'X'
    ||| c == 'Y'
    ||| c == 'Z'
    ||| c == 'a'
    ||| c == 'b'
    ||| c == 'c'
    ||| c == 'd'
    ||| c == 'e'
    ||| c == 'f'
    ||| c == 'g'
    ||| c == 'h'
    ||| c == 'i'
    ||| c == 'j'
    ||| c == 'k'
    ||| c == 'l'
    ||| c == 'm'
    ||| c == 'n'
    ||| c == 'o'
    ||| c == 'p'
    ||| c == 'q'
    ||| c == 'r'
    ||| c == 's'
    ||| c == 't'
    ||| c == 'u'
    ||| c == 'v'
    ||| c == 'w'
    ||| c == 'x'
    ||| c == 'y'
    ||| c == 'z'
    ||| c == '0'
    ||| c == '1'
    ||| c == '2'
    ||| c == '3'
    ||| c == '4'
    ||| c == '5'
    ||| c == '6'
    ||| c == '7'
    ||| c == '8'
    ||| c == '9'
    ||| c == '-'
    ||| c == '.'
    ||| c == '_'
    ||| c == '~'
    ||| c == ':'
    ||| c == '/'
    ||| c == '?'
    ||| c == '#'
    ||| c == '['
    ||| c == ']'
    ||| c == '@'
    ||| c == '!'
    ||| c == '$'
    ||| c == '&'
    ||| c == '('
    ||| c == ')'
    ||| c == '*'
    ||| c == '+'
    ||| c == ','
    ||| c == ';'
    ||| c == '='
    ||| c == '%'
}

/// The high half of the byte `b` exclusive-or `0x38`.
pub open spec fn xor_hi(b: u8) -> u8 {
    (b ^ 0x38u8) >> 4u8
}

/// The low half of the byte `b` exclusive-or `0x38`.
pub open spec fn xor_lo(b: u8) -> u8 {
    (b ^ 0x38u8) & 0x0fu8
}

/// The lower-case hexadecimal digit of `d`, which is below 16.
pub open spec fn hex_char(d: u8) -> char {
    if d == 0 {
        '0'
    } else
    if d == 1 {
        '1'
    } else
    if d == 2 {
        '2'
    } else
    if d == 3 {
        '3'
    } else
    if d == 4 {
        '4'
    } else
    if d == 5 {
        '5'
    } else
    if d == 6 {
        '6'
    } else
    if d == 7 {
        '7'
    } else
    if d == 8 {
        '8'
    } else
    if d == 9 {
        '9'
    } else
    if d == 10 {
        'a'
    } else
    if d == 11 {
        'b'
    } else
    if d == 12 {
        'c'
    } else
    if d == 13 {
        'd'
    } else
    if d == 14 {
        'e'
    } else {
        'f'
    }
}

/// The byte of an ASCII character.
pub open spec fn ascii_byte(c: char) -> u8 {
    (c as u32) as u8
}

/// The key of the code of `c`: its byte exclusive-or `0x38`, written as two
/// lower-case hexadecimal digits.
pub open spec fn xor_code_key(c: char) -> u16 {
    let b = ascii_byte(c);
    pair_key(ascii_byte(hex_char(xor_hi(b))), ascii_byte(hex_char(xor_lo(b))))
}

proof fn lemma_xor_halves()
    ensures
        xor_hi(65u8) == 7u8 && xor_lo(65u8) == 9u8,
        xor_hi(66u8) == 7u8 && xor_lo(66u8) == 10u8,
        xor_hi(67u8) == 7u8 && xor_lo(67u8) == 11u8,
        xor_hi(68u8) == 7u8 && xor_lo(68u8) == 12u8,
        xor_hi(69u8) == 7u8 && xor_lo(69u8) == 13u8,
        xor_hi(70u8) == 7u8 && xor_lo(70u8) == 14u8,
        xor_hi(71u8) == 7u8 && xor_lo(71u8) == 15u8,
        xor_hi(72u8) == 7u8 && xor_lo(72u8) == 0u8,
        xor_hi(73u8) == 7u8 && xor_lo(73u8) == 1u8,
        xor_hi(74u8) == 7u8 && xor_lo(74u8) == 2u8,
        xor_hi(75u8) == 7u8 && xor_lo(75u8) == 3u8,
        xor_hi(76u8) == 7u8 && xor_lo(76u8) == 4u8,
        xor_hi(77u8) == 7u8 && xor_lo(77u8) == 5u8,
        xor_hi(78u8) == 7u8 && xor_lo(78u8) == 6u8,
        xor_hi(79u8) == 7u8 && xor_lo(79u8) == 7u8,
        xor_hi(80u8) == 6u8 && xor_lo(80u8) == 8u8,
        xor_hi(81u8) == 6u8 && xor_lo(81u8) == 9u8,
        xor_hi(82u8) == 6u8 && xor_lo(82u8) == 10u8,
        xor_hi(83u8) == 6u8 && xor_lo(83u8) == 11u8,
        xor_hi(84u8) == 6u8 && xor_lo(84u8) == 12u8,
        xor_hi(85u8) == 6u8 && xor_lo(85u8) == 13u8,
        xor_hi(86u8) == 6u8 && xor_lo(86u8) == 14u8,
        xor_hi(87u8) == 6u8 && xor_lo(87u8) == 15u8,
        xor_hi(88u8) == 6u8 && xor_lo(88u8) == 0u8,
        xor_hi(89u8) == 6u8 && xor_lo(89u8) == 1u8,
        xor_hi(90u8) == 6u8 && xor_lo(90u8) == 2u8,
        xor_hi(97u8) == 5u8 && xor_lo(97u8) == 9u8,
        xor_hi(98u8) == 5u8 && xor_lo(98u8) == 10u8,
        xor_hi(99u8) == 5u8 && xor_lo(99u8) == 11u8,
        xor_hi(100u8) == 5u8 && xor_lo(100u8) == 12u8,
        xor_hi(101u8) == 5u8 && xor_lo(101u8) == 13u8,
        xor_hi(102u8) == 5u8 && xor_lo(102u8) == 14u8,
        xor_hi(103u8) == 5u8 && xor_lo(103u8) == 15u8,
        xor_hi(104u8) == 5u8 && xor_lo(104u8) == 0u8,
        xor_hi(105u8) == 5u8 && xor_lo(105u8) == 1u8,
        xor_hi(106u8) == 5u8 && xor_lo(106u8) == 2u8,
        xor_hi(107u8) == 5u8 && xor_lo(107u8) == 3u8,
        xor_hi(108u8) == 5u8 && xor_lo(108u8) == 4u8,
        xor_hi(109u8) == 5u8 && xor_lo(109u8) == 5u8,
        xor_hi(110u8) == 5u8 && xor_lo(110u8) == 6u8,
        xor_hi(111u8) == 5u8 && xor_lo(111u8) == 7u8,
        xor_hi(112u8) == 4u8 && xor_lo(112u8) == 8u8,
        xor_hi(113u8) == 4u8 && xor_lo(113u8) == 9u8,
        xor_hi(114u8) == 4u8 && xor_lo(114u8) == 10u8,
        xor_hi(115u8) == 4u8 && xor_lo(115u8) == 11u8,
        xor_hi(116u8) == 4u8 && xor_lo(116u8) == 12u8,
        xor_hi(117u8) == 4u8 && xor_lo(117u8) == 13u8,
        xor_hi(118u8) == 4u8 && xor_lo(118u8) == 14u8,
        xor_hi(119u8) == 4u8 && xor_lo(119u8) == 15u8,
        xor_hi(120u8) == 4u8 && xor_lo(120u8) == 0u8,
        xor_hi(121u8) == 4u8 && xor_lo(121u8) == 1u8,
        xor_hi(122u8) == 4u8 && xor_lo(122u8) == 2u8,
        xor_hi(48u8) == 0u8 && xor_lo(48u8) == 8u8,
        xor_hi(49u8) == 0u8 && xor_lo(49u8) == 9u8,
        xor_hi(50u8) == 0u8 && xor_lo(50u8) == 10u8,
        xor_hi(51u8) == 0u8 && xor_lo(51u8) == 11u8,
        xor_hi(52u8) == 0u8 && xor_lo(52u8) == 12u8,
        xor_hi(53u8) == 0u8 && xor_lo(53u8) == 13u8,
        xor_hi(54u8) == 0u8 && xor_lo(54u8) == 14u8,
        xor_hi(55u8) == 0u8 && xor_lo(55u8) == 15u8,
        xor_hi(56u8) == 0u8 && xor_lo(56u8) == 0u8,
        xor_hi(57u8) == 0u8 && xor_lo(57u8) == 1u8,
        xor_hi(45u8) == 1u8 && xor_lo(45u8) == 5u8,
        xor_hi(46u8) == 1u8 && xor_lo(46u8) == 6u8,
        xor_hi(95u8) == 6u8 && xor_lo(95u8) == 7u8,
        xor_hi(126u8) == 4u8 && xor_lo(126u8) == 6u8,
        xor_hi(58u8) == 0u8 && xor_lo(58u8) == 2u8,
        xor_hi(47u8) == 1u8 && xor_lo(47u8) == 7u8,
        xor_hi(63u8) == 0u8 && xor_lo(63u8) == 7u8,
        xor_hi(35u8) == 1u8 && xor_lo(35u8) == 11u8,
        xor_hi(91u8) == 6u8 && xor_lo(91u8) == 3u8,
        xor_hi(93u8) == 6u8 && xor_lo(93u8) == 5u8,
        xor_hi(64u8) == 7u8 && xor_lo(64u8) == 8u8,
        xor_hi(33u8) == 1u8 && xor_lo(33u8) == 9u8,
        xor_hi(36u8) == 1u8 && xor_lo(36u8) == 12u8,
        xor_hi(38u8) == 1u8 && xor_lo(38u8) == 14u8,
        xor_hi(40u8) == 1u8 && xor_lo(40u8) == 0u8,
        xor_hi(41u8) == 1u8 && xor_lo(41u8) == 1u8,
        xor_hi(42u8) == 1u8 && xor_lo(42u8) == 2u8,
        xor_hi(43u8) == 1u8 && xor_lo(43u8) == 3u8,
        xor_hi(44u8) == 1u8 && xor_lo(44u8) == 4u8,
        xor_hi(59u8) == 0u8 && xor_lo(59u8) == 3u8,
        xor_hi(61u8) == 0u8 && xor_lo(61u8) == 5u8,
        xor_hi(37u8) == 1u8 && xor_lo(37u8) == 13u8,
{
    assert({
        &&& xor_hi(65u8) == 7u8 && xor_lo(65u8) == 9u8
        &&& xor_hi(66u8) == 7u8 && xor_lo(66u8) == 10u8
        &&& xor_hi(67u8) == 7u8 && xor_lo(67u8) == 11u8
        &&& xor_hi(68u8) == 7u8 && xor_lo(68u8) == 12u8
        &&& xor_hi(69u8) == 7u8 && xor_lo(69u8) == 13u8
        &&& xor_hi(70u8) == 7u8 && xor_lo(70u8) == 14u8
        &&& xor_hi(71u8) == 7u8 && xor_lo(71u8) == 15u8
        &&& xor_hi(72u8) == 7u8 && xor_lo(72u8) == 0u8
        &&& xor_hi(73u8) == 7u8 && xor_lo(73u8) == 1u8
        &&& xor_hi(74u8) == 7u8 && xor_lo(74u8) == 2u8
        &&& xor_hi(75u8) == 7u8 && xor_lo(75u8) == 3u8
        &&& xor_hi(76u8) == 7u8 && xor_lo(76u8) == 4u8
        &&& xor_hi(77u8) == 7u8 && xor_lo(77u8) == 5u8
        &&& xor_hi(78u8) == 7u8 && xor_lo(78u8) == 6u8
        &&& xor_hi(79u8) == 7u8 && xor_lo(79u8) == 7u8
        &&& xor_hi(80u8) == 6u8 && xor_lo(80u8) == 8u8
        &&& xor_hi(81u8) == 6u8 && xor_lo(81u8) == 9u8
        &&& xor_hi(82u8) == 6u8 && xor_lo(82u8) == 10u8
        &&& xor_hi(83u8) == 6u8 && xor_lo(83u8) == 11u8
        &&& xor_hi(84u8) == 6u8 && xor_lo(84u8) == 12u8
        &&& xor_hi(85u8) == 6u8 && xor_lo(85u8) == 13u8
        &&& xor_hi(86u8) == 6u8 && xor_lo(86u8) == 14u8
        &&& xor_hi(87u8) == 6u8 && xor_lo(87u8) == 15u8
        &&& xor_hi(88u8) == 6u8 && xor_lo(88u8) == 0u8
        &&& xor_hi(89u8) == 6u8 && xor_lo(89u8) == 1u8
        &&& xor_hi(90u8) == 6u8 && xor_lo(90u8) == 2u8
        &&& xor_hi(97u8) == 5u8 && xor_lo(97u8) == 9u8
        &&& xor_hi(98u8) == 5u8 && xor_lo(98u8) == 10u8
        &&& xor_hi(99u8) == 5u8 && xor_lo(99u8) == 11u8
        &&& xor_hi(100u8) == 5u8 && xor_lo(100u8) == 12u8
        &&& xor_hi(101u8) == 5u8 && xor_lo(101u8) == 13u8
        &&& xor_hi(102u8) == 5u8 && xor_lo(102u8) == 14u8
        &&& xor_hi(103u8) == 5u8 && xor_lo(103u8) == 15u8
        &&& xor_hi(104u8) == 5u8 && xor_lo(104u8) == 0u8
        &&& xor_hi(105u8) == 5u8 && xor_lo(105u8) == 1u8
        &&& xor_hi(106u8) == 5u8 && xor_lo(106u8) == 2u8
        &&& xor_hi(107u8) == 5u8 && xor_lo(107u8) == 3u8
        &&& xor_hi(108u8) == 5u8 && xor_lo(108u8) == 4u8
        &&& xor_hi(109u8) == 5u8 && xor_lo(109u8) == 5u8
        &&& xor_hi(110u8) == 5u8 && xor_lo(110u8) == 6u8
        &&& xor_hi(111u8) == 5u8 && xor_lo(111u8) == 7u8
        &&& xor_hi(112u8) == 4u8 && xor_lo(112u8) == 8u8
        &&& xor_hi(113u8) == 4u8 && xor_lo(113u8) == 9u8
        &&& xor_hi(114u8) == 4u8 && xor_lo(114u8) == 10u8
        &&& xor_hi(115u8) == 4u8 && xor_lo(115u8) == 11u8
        &&& xor_hi(116u8) == 4u8 && xor_lo(116u8) == 12u8
        &&& xor_hi(117u8) == 4u8 && xor_lo(117u8) == 13u8
        &&& xor_hi(118u8) == 4u8 && xor_lo(118u8) == 14u8
        &&& xor_hi(119u8) == 4u8 && xor_lo(119u8) == 15u8
        &&& xor_hi(120u8) == 4u8 && xor_lo(120u8) == 0u8
        &&& xor_hi(121u8) == 4u8 && xor_lo(121u8) == 1u8
        &&& xor_hi(122u8) == 4u8 && xor_lo(122u8) == 2u8
        &&& xor_hi(48u8) == 0u8 && xor_lo(48u8) == 8u8
        &&& xor_hi(49u8) == 0u8 && xor_lo(49u8) == 9u8
        &&& xor_hi(50u8) == 0u8 && xor_lo(50u8) == 10u8
        &&& xor_hi(51u8) == 0u8 && xor_lo(51u8) == 11u8
        &&& xor_hi(52u8) == 0u8 && xor_lo(52u8) == 12u8
        &&& xor_hi(53u8) == 0u8 && xor_lo(53u8) == 13u8
        &&& xor_hi(54u8) == 0u8 && xor_lo(54u8) == 14u8
        &&& xor_hi(55u8) == 0u8 && xor_lo(55u8) == 15u8
        &&& xor_hi(56u8) == 0u8 && xor_lo(56u8) == 0u8
        &&& xor_hi(57u8) == 0u8 && xor_lo(57u8) == 1u8
        &&& xor_hi(45u8) == 1u8 && xor_lo(45u8) == 5u8
        &&& xor_hi(46u8) == 1u8 && xor_lo(46u8) == 6u8
        &&& xor_hi(95u8) == 6u8 && xor_lo(95u8) == 7u8
        &&& xor_hi(126u8) == 4u8 && xor_lo(126u8) == 6u8
        &&& xor_hi(58u8) == 0u8 && xor_lo(58u8) == 2u8
        &&& xor_hi(47u8) == 1u8 && xor_lo(47u8) == 7u8
        &&& xor_hi(63u8) == 0u8 && xor_lo(63u8) == 7u8
        &&& xor_hi(35u8) == 1u8 && xor_lo(35u8) == 11u8
        &&& xor_hi(91u8) == 6u8 && xor_lo(91u8) == 3u8
        &&& xor_hi(93u8) == 6u8 && xor_lo(93u8) == 5u8
        &&& xor_hi(64u8) == 7u8 && xor_lo(64u8) == 8u8
        &&& xor_hi(33u8) == 1u8 && xor_lo(33u8) == 9u8
        &&& xor_hi(36u8) == 1u8 && xor_lo(36u8) == 12u8
        &&& xor_hi(38u8) == 1u8 && xor_lo(38u8) == 14u8
        &&& xor_hi(40u8) == 1u8 && xor_lo(40u8) == 0u8
        &&& xor_hi(41u8) == 1u8 && xor_lo(41u8) == 1u8
        &&& xor_hi(42u8) == 1u8 && xor_lo(42u8) == 2u8
        &&& xor_hi(43u8) == 1u8 && xor_lo(43u8) == 3u8
        &&& xor_hi(44u8) == 1u8 && xor_lo(44u8) == 4u8
        &&& xor_hi(59u8) == 0u8 && xor_lo(59u8) == 3u8
        &&& xor_hi(61u8) == 0u8 && xor_lo(61u8) == 5u8
        &&& xor_hi(37u8) == 1u8 && xor_lo(37u8) == 13u8
    }) by (bit_vector);
}

/// Each character of the alphabet is what its code decodes to.
pub proof fn lemma_alphabet_code(c: char)
    requires
        in_alphabet(c),
    ensures
        hex_table().contains_key(xor_code_key(c)),
        hex_table()[xor_code_key(c)] == c,
{
    lemma_xor_halves();
}

/// The encoding of `t` that the table reads: for each character, in order,
/// the two lower-case hexadecimal digits of its byte exclusive-or `0x38`.
pub open spec fn xor_encode(t: Seq<char>) -> Seq<char>
    decreases t.len(),
{
    if t.len() == 0 {
        Seq::empty()
    } else {
        let b = ascii_byte(t.last());
        xor_encode(t.drop_last()) + seq![hex_char(xor_hi(b)), hex_char(xor_lo(b))]
    }
}

proof fn lemma_xor_encode_shape(t: Seq<char>)
    ensures
        xor_encode(t).len() == 2 * t.len(),
        forall|i: int|
            0 <= i < t.len() ==> xor_encode(t)[2 * i] == hex_char(xor_hi(ascii_byte(#[trigger] t[i])))
                && xor_encode(t)[2 * i + 1] == hex_char(xor_lo(ascii_byte(t[i]))),
    decreases t.len(),
{
    if t.len() > 0 {
        let p = t.drop_last();
        lemma_xor_encode_shape(p);
        assert forall|i: int|
            0 <= i < t.len() implies xor_encode(t)[2 * i] == hex_char(xor_hi(ascii_byte(#[trigger] t[i])))
            && xor_encode(t)[2 * i + 1] == hex_char(xor_lo(ascii_byte(t[i]))) by {
            if i < p.len() {
                assert(t[i] == p[i]);
            }
        }
    }
}

proof fn lemma_hex_char_ascii(d: u8)
    ensures
        '\0' <= hex_char(d) <= '\u{7f}',
{
}

/// A path made of the table's characters, holding no `/clock`, is what its
/// encoding decodes to.
pub proof fn lemma_decode_xor_encoded(t: Seq<char>)
    requires
        forall|i: int| 0 <= i < t.len() ==> in_alphabet(#[trigger] t[i]),
        !contains_spec(t, clock_seq()),
    ensures
        decode_provider_spec(xor_encode(t)) == t,
{
    let enc = xor_encode(t);
    lemma_xor_encode_shape(t);
    assert(is_ascii_chars(enc)) by {
        assert forall|j: int| 0 <= j < enc.len() implies '\0' <= #[trigger] enc[j] <= '\u{7f}' by {
            let i = j / 2;
            assert(0 <= i < t.len());
            assert(t[i] == t[i]);
            lemma_hex_char_ascii(xor_hi(ascii_byte(t[i])));
            lemma_hex_char_ascii(xor_lo(ascii_byte(t[i])));
            if j % 2 == 0 {
                assert(j == 2 * i);
            } else {
                assert(j == 2 * i + 1);
            }
        }
    }
    is_ascii_chars_encode_utf8(enc);
    let bytes = encode_utf8(enc);
    assert forall|i: int| 0 <= i < t.len() implies {
        let k = #[trigger] pair_key(bytes[2 * i], bytes[2 * i + 1]);
        hex_table().contains_key(k) && hex_table()[k] == t[i]
    } by {
        assert(t[i] == t[i]);
        lemma_alphabet_code(t[i]);
        assert(bytes[2 * i] == enc[2 * i] as u8);
        assert(bytes[2 * i + 1] == enc[2 * i + 1] as u8);
        assert(pair_key(bytes[2 * i], bytes[2 * i + 1]) == xor_code_key(t[i]));
    }
    lemma_decode_encoded(enc, t);
}

} // verus!
