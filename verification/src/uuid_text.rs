//! Canonical hyphenated rendering of 128-bit process and supervisor
//! identifiers: thirty-two lowercase hexadecimal digits with dashes after
//! the eighth, twelfth, sixteenth and twentieth digit.

use vstd::prelude::*;
use vstd::arithmetic::div_mod::lemma_div_denominator;
use vstd::string::StringExecFns;

verus! {

/// The lowercase hexadecimal digit character for a value below sixteen.
pub open spec fn hex_char(d: int) -> char {
    if d == 0 { '0' }
    else if d == 1 { '1' }
    else if d == 2 { '2' }
    else if d == 3 { '3' }
    else if d == 4 { '4' }
    else if d == 5 { '5' }
    else if d == 6 { '6' }
    else if d == 7 { '7' }
    else if d == 8 { '8' }
    else if d == 9 { '9' }
    else if d == 10 { 'a' }
    else if d == 11 { 'b' }
    else if d == 12 { 'c' }
    else if d == 13 { 'd' }
    else if d == 14 { 'e' }
    else { 'f' }
}

pub open spec fn pow16(e: nat) -> int
    decreases e,
{
    if e == 0 {
        1
    } else {
        16 * pow16((e - 1) as nat)
    }
}

pub proof fn lemma_pow16_pos(e: nat)
    ensures
        pow16(e) >= 1,
    decreases e,
{
    if e > 0 {
        lemma_pow16_pos((e - 1) as nat);
    }
}

/// Hexadecimal digit `j` of `u`, counted from the most significant of the
/// thirty-two digits.
pub open spec fn nibble(u: u128, j: int) -> int {
    (u as int / pow16((31 - j) as nat)) % 16
}

/// Which hexadecimal digit stands at character position `p` of the
/// hyphenated form (positions 8, 13, 18 and 23 hold dashes).
pub open spec fn nibble_index_of_pos(p: int) -> int {
    if p <= 7 {
        p
    } else if p <= 12 {
        p - 1
    } else if p <= 17 {
        p - 2
    } else if p <= 22 {
        p - 3
    } else {
        p - 4
    }
}

/// The canonical hyphenated form of `u`.
pub open spec fn spec_hyphenated(u: u128) -> Seq<char> {
    Seq::new(
        36,
        |p: int|
            if p == 8 || p == 13 || p == 18 || p == 23 {
                '-'
            } else {
                hex_char(nibble(u, nibble_index_of_pos(p)))
            },
    )
}

fn push_hex_digit(s: &mut String, d: u8)
    requires
        d < 16,
    ensures
        final(s)@ == old(s)@.push(hex_char(d as int)),
{
    if d == 0 {
        proof { reveal_strlit("0"); }
        s.append("0");
    } else if d == 1 {
        proof { reveal_strlit("1"); }
        s.append("1");
    } else if d == 2 {
        proof { reveal_strlit("2"); }
        s.append("2");
    } else if d == 3 {
        proof { reveal_strlit("3"); }
        s.append("3");
    } else if d == 4 {
        proof { reveal_strlit("4"); }
        s.append("4");
    } else if d == 5 {
        proof { reveal_strlit("5"); }
        s.append("5");
    } else if d == 6 {
        proof { reveal_strlit("6"); }
        s.append("6");
    } else if d == 7 {
        proof { reveal_strlit("7"); }
        s.append("7");
    } else if d == 8 {
        proof { reveal_strlit("8"); }
        s.append("8");
    } else if d == 9 {
        proof { reveal_strlit("9"); }
        s.append("9");
    } else if d == 10 {
        proof { reveal_strlit("a"); }
        s.append("a");
    } else if d == 11 {
        proof { reveal_strlit("b"); }
        s.append("b");
    } else if d == 12 {
        proof { reveal_strlit("c"); }
        s.append("c");
    } else if d == 13 {
        proof { reveal_strlit("d"); }
        s.append("d");
    } else if d == 14 {
        proof { reveal_strlit("e"); }
        s.append("e");
    } else {
        proof { reveal_strlit("f"); }
        s.append("f");
    }
    proof {
        assert(final(s)@ =~= old(s)@.push(hex_char(d as int)));
    }
}

/// Renders `u` in canonical hyphenated form.
pub fn format_hyphenated(u: u128) -> (r: String)
    ensures
        r@ == spec_hyphenated(u),
{
    // Hexadecimal digits of `u`, least significant first.
    let mut ds: Vec<u8> = Vec::new();
    let mut cur: u128 = u;
    let mut k: usize = 0;
    while k < 32
        invariant
            0 <= k <= 32,
            ds@.len() == k,
            cur as int == u as int / pow16(k as nat),
            forall|j: int|
                0 <= j < k ==> (#[trigger] ds@[j]) as int == (u as int / pow16(j as nat)) % 16,
        decreases 32 - k,
    {
        proof {
            lemma_pow16_pos(k as nat);
            lemma_div_denominator(u as int, pow16(k as nat), 16);
            assert(pow16((k + 1) as nat) == 16 * pow16(k as nat));
        }
        let d = (cur % 16) as u8;
        ds.push(d);
        cur = cur / 16;
        k += 1;
    }
    let mut s = String::new();
    let mut p: usize = 0;
    while p < 36
        invariant
            0 <= p <= 36,
            ds@.len() == 32,
            forall|j: int|
                0 <= j < 32 ==> (#[trigger] ds@[j]) as int == (u as int / pow16(j as nat)) % 16,
            s@ == spec_hyphenated(u).subrange(0, p as int),
        decreases 36 - p,
    {
        if p == 8 || p == 13 || p == 18 || p == 23 {
            proof { reveal_strlit("-"); }
            s.append("-");
        } else {
            let j: usize = if p <= 7 {
                p
            } else if p <= 12 {
                p - 1
            } else if p <= 17 {
                p - 2
            } else if p <= 22 {
                p - 3
            } else {
                p - 4
            };
            let d = ds[31 - j];
            proof {
                assert(ds@[31 - j] as int == (u as int / pow16((31 - j) as nat)) % 16);
                assert(ds@[31 - j] as int == nibble(u, j as int));
                lemma_pow16_pos((31 - j) as nat);
            }
            push_hex_digit(&mut s, d);
        }
        proof {
            assert(s@ =~= spec_hyphenated(u).subrange(0, p + 1));
        }
        p += 1;
    }
    proof {
        assert(spec_hyphenated(u).subrange(0, 36) =~= spec_hyphenated(u));
    }
    s
}

} // verus!
