//! Filenames in the device CA store: the lowercase-hex base name derived
//! from the legacy subject hash, and the dot-suffixed candidate names the
//! collision probe walks through.

use vstd::prelude::*;
use vstd::string::StringExecFns;

verus! {

/// The character for a digit value below 16: `'0'`..`'9'`, then
/// lowercase `'a'`..`'f'`.
pub open spec fn digit_char(d: nat) -> char
    recommends
        d < 16,
{
    if d == 0 {
        '0'
    } else if d == 1 {
        '1'
    } else if d == 2 {
        '2'
    } else if d == 3 {
        '3'
    } else if d == 4 {
        '4'
    } else if d == 5 {
        '5'
    } else if d == 6 {
        '6'
    } else if d == 7 {
        '7'
    } else if d == 8 {
        '8'
    } else if d == 9 {
        '9'
    } else if d == 10 {
        'a'
    } else if d == 11 {
        'b'
    } else if d == 12 {
        'c'
    } else if d == 13 {
        'd'
    } else if d == 14 {
        'e'
    } else {
        'f'
    }
}

/// The lowercase hexadecimal rendering of `n`: minimal digits, no
/// leading zeros, a single `'0'` for zero.
pub open spec fn hex_rep(n: nat) -> Seq<char>
    decreases n,
{
    if n < 16 {
        seq![digit_char(n)]
    } else {
        hex_rep(n / 16) + seq![digit_char(n % 16)]
    }
}

/// The decimal rendering of `n`: minimal digits, no leading zeros, a
/// single `'0'` for zero.
pub open spec fn dec_rep(n: nat) -> Seq<char>
    decreases n,
{
    if n < 10 {
        seq![digit_char(n)]
    } else {
        dec_rep(n / 10) + seq![digit_char(n % 10)]
    }
}

/// The one-character string for a digit value below 16.
fn digit_str(d: u32) -> (r: &'static str)
    requires
        d < 16,
    ensures
        r@ == seq![digit_char(d as nat)],
{
    proof {
        reveal_strlit("0");
        reveal_strlit("1");
        reveal_strlit("2");
        reveal_strlit("3");
        reveal_strlit("4");
        reveal_strlit("5");
        reveal_strlit("6");
        reveal_strlit("7");
        reveal_strlit("8");
        reveal_strlit("9");
        reveal_strlit("a");
        reveal_strlit("b");
        reveal_strlit("c");
        reveal_strlit("d");
        reveal_strlit("e");
        reveal_strlit("f");
    }
    let r: &'static str = match d {
        0 => "0",
        1 => "1",
        2 => "2",
        3 => "3",
        4 => "4",
        5 => "5",
        6 => "6",
        7 => "7",
        8 => "8",
        9 => "9",
        10 => "a",
        11 => "b",
        12 => "c",
        13 => "d",
        14 => "e",
        _ => "f",
    };
    proof {
        assert(r@ =~= seq![digit_char(d as nat)]);
    }
    r
}

/// Renders `n` in lowercase hexadecimal, as the store's filenames
/// spell the subject hash.
pub fn hex_lower(n: u32) -> (r: String)
    ensures
        r@ == hex_rep(n as nat),
    decreases n,
{
    if n < 16 {
        String::from_str(digit_str(n))
    } else {
        let mut s = hex_lower(n / 16);
        s.append(digit_str(n % 16));
        s
    }
}

/// Renders `n` in decimal, as the probe iteration suffix is spelled.
pub fn dec_u8(n: u8) -> (r: String)
    ensures
        r@ == dec_rep(n as nat),
    decreases n,
{
    if n < 10 {
        String::from_str(digit_str(n as u32))
    } else {
        let mut s = dec_u8(n / 10);
        s.append(digit_str((n % 10) as u32));
        s
    }
}

/// The candidate filename for probe iteration `i`: the base name, a
/// dot, and the decimal rendering of `i`.
pub open spec fn candidate_spec(base: Seq<char>, i: nat) -> Seq<char> {
    base + seq!['.'] + dec_rep(i)
}

/// Builds the candidate filename for probe iteration `i` of `base`.
pub fn candidate_name(base: &str, i: u8) -> (r: String)
    ensures
        r@ == candidate_spec(base@, i as nat),
{
    let mut s = base.to_owned();
    proof {
        reveal_strlit(".");
        assert("."@ =~= seq!['.']);
    }
    s.append(".");
    let d = dec_u8(i);
    s.append(d.as_str());
    s
}

/// The base filename for a subject hash: the store directory path
/// followed by the lowercase hex rendering of the hash.
pub open spec fn base_name_spec(dir: Seq<char>, hash: u32) -> Seq<char> {
    dir + hex_rep(hash as nat)
}

/// Builds the base filename for `hash` under the store directory `dir`.
pub fn base_name(dir: &str, hash: u32) -> (r: String)
    ensures
        r@ == base_name_spec(dir@, hash),
{
    let mut s = dir.to_owned();
    let h = hex_lower(hash);
    s.append(h.as_str());
    s
}

} // verus!
