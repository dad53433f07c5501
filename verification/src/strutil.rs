//! Small verified helpers on strings: decimal rendering of counters,
//! membership in a list of strings, and HTML escaping of text fragments.

use vstd::prelude::*;

verus! {

/// The character for a single decimal digit.
pub open spec fn digit_char(d: nat) -> char {
    if d == 0 {
        '0'
    } else if d == 1 {
        '1'
    } else if d == 2 {
        '2'
    } else if d == 3 {
        '3'
    } else if d == 4 {
        '4'
    } else if d == 5 {
        '5'
    } else if d == 6 {
        '6'
    } else if d == 7 {
        '7'
    } else if d == 8 {
        '8'
    } else {
        '9'
    }
}

/// The usual decimal notation of `n`, most significant digit first.
pub open spec fn dec_seq(n: nat) -> Seq<char>
    decreases n,
{
    if n < 10 {
        seq![digit_char(n)]
    } else {
        dec_seq(n / 10).push(digit_char(n % 10))
    }
}

fn digit_str(d: u64) -> (r: &'static str)
    requires
        d < 10,
    ensures
        r@ == seq![digit_char(d as nat)],
{
    proof {
        reveal_strlit("0");
        reveal_strlit("1");
        reveal_strlit("2");
        reveal_strlit("3");
        reveal_strlit("4");
        reveal_strlit("5");
        reveal_strlit("6");
        reveal_strlit("7");
        reveal_strlit("8");
        reveal_strlit("9");
    }
    let r: &'static str = if d == 0 {
        "0"
    } else if d == 1 {
        "1"
    } else if d == 2 {
        "2"
    } else if d == 3 {
        "3"
    } else if d == 4 {
        "4"
    } else if d == 5 {
        "5"
    } else if d == 6 {
        "6"
    } else if d == 7 {
        "7"
    } else if d == 8 {
        "8"
    } else {
        "9"
    };
    proof {
        assert(r@ =~= seq![digit_char(d as nat)]);
    }
    r
}

/// Renders `n` in decimal.
pub fn u64_dec(n: u64) -> (r: String)
    ensures
        r@ == dec_seq(n as nat),
    decreases n,
{
    if n < 10 {
        let r = digit_str(n).to_owned();
        proof {
            assert(r@ =~= dec_seq(n as nat));
        }
        r
    } else {
        let mut r = u64_dec(n / 10);
        r.append(digit_str(n % 10));
        proof {
            assert(r@ =~= dec_seq(n as nat));
        }
        r
    }
}

/// Whether `p` is a prefix of `s`.
pub open spec fn has_prefix(s: Seq<char>, p: Seq<char>) -> bool {
    p.len() <= s.len() && forall|j: int| 0 <= j < p.len() ==> s[j] == p[j]
}

/// Whether `s` starts with `p`.
pub fn str_has_prefix(s: &str, p: &str) -> (r: bool)
    ensures
        r == has_prefix(s@, p@),
{
    let plen = p.unicode_len();
    let slen = s.unicode_len();
    if plen > slen {
        return false;
    }
    let mut i: usize = 0;
    while i < plen
        invariant
            plen == p@.len(),
            plen <= slen == s@.len(),
            i <= plen,
            forall|j: int| 0 <= j < i ==> s@[j] == p@[j],
        decreases plen - i,
    {
        if s.get_char(i) != p.get_char(i) {
            return false;
        }
        i += 1;
    }
    true
}

/// Whether `a` and `b` hold the same characters.
pub fn str_eq(a: &str, b: &str) -> (r: bool)
    ensures
        r == (a@ == b@),
{
    let alen = a.unicode_len();
    let blen = b.unicode_len();
    if alen != blen {
        proof {
            assert(a@ != b@) by {
                if a@ == b@ {
                    assert(a@.len() == b@.len());
                }
            }
        }
        return false;
    }
    let mut i: usize = 0;
    while i < alen
        invariant
            alen == a@.len() == b@.len(),
            i <= alen,
            forall|j: int| 0 <= j < i ==> a@[j] == b@[j],
        decreases alen - i,
    {
        if a.get_char(i) != b.get_char(i) {
            return false;
        }
        i += 1;
    }
    proof {
        assert(a@ =~= b@);
    }
    true
}

/// Whether `sub` occurs in `s`.
pub open spec fn has_substring(s: Seq<char>, sub: Seq<char>) -> bool {
    exists|i: int|
        0 <= i && i + sub.len() <= s.len() && #[trigger] s.subrange(i, i + sub.len()) == sub
}

/// The index of the first occurrence of `sub` in `s`, if any.
pub fn find_substring(s: &str, sub: &str) -> (r: Option<usize>)
    ensures
        match r {
            Some(i) => i + sub@.len() <= s@.len() && s@.subrange(i as int, i + sub@.len()) == sub@
                && forall|j: int|
                0 <= j < i ==> #[trigger] s@.subrange(j, j + sub@.len()) != sub@,
            None => !has_substring(s@, sub@),
        },
{
    let slen = s.unicode_len();
    let blen = sub.unicode_len();
    if blen > slen {
        return None;
    }
    if blen == 0 {
        proof {
            assert(s@.subrange(0, 0) =~= sub@);
        }
        return Some(0);
    }
    let mut i: usize = 0;
    while i <= slen - blen
        invariant
            slen == s@.len(),
            blen == sub@.len(),
            1 <= blen <= slen,
            i <= slen - blen + 1,
            forall|j: int| 0 <= j < i ==> #[trigger] s@.subrange(j, j + sub@.len()) != sub@,
        decreases slen - i,
    {
        let mut k: usize = 0;
        let mut matched = true;
        while k < blen
            invariant
                slen == s@.len(),
                blen == sub@.len(),
                i + blen <= slen,
                k <= blen,
                matched ==> forall|t: int| 0 <= t < k ==> s@[i + t] == sub@[t],
                !matched ==> s@.subrange(i as int, i + sub@.len()) != sub@,
            decreases blen - k,
        {
            if s.get_char(i + k) != sub.get_char(k) {
                proof {
                    assert(s@.subrange(i as int, i + sub@.len())[k as int] != sub@[k as int]);
                }
                matched = false;
                k = blen;
            } else {
                k += 1;
            }
        }
        if matched {
            proof {
                assert(s@.subrange(i as int, i + sub@.len()) =~= sub@);
            }
            return Some(i);
        }
        i += 1;
    }
    proof {
        assert forall|j: int| 0 <= j && j + sub@.len() <= s@.len() implies #[trigger] s@.subrange(
            j,
            j + sub@.len(),
        ) != sub@ by {
            assert(j < i);
        }
    }
    None
}

/// Whether the byte pattern `sub` occurs in `s`.
pub open spec fn has_byte_sub(s: Seq<u8>, sub: Seq<u8>) -> bool {
    exists|i: int|
        0 <= i && i + sub.len() <= s.len() && #[trigger] s.subrange(i, i + sub.len()) == sub
}

/// The index of the first occurrence of the byte pattern `sub` in `h`.
pub fn find_bytes(h: &Vec<u8>, sub: &Vec<u8>) -> (r: Option<usize>)
    ensures
        match r {
            Some(i) => i + sub@.len() <= h@.len() && h@.subrange(i as int, i + sub@.len()) == sub@
                && forall|j: int|
                0 <= j < i ==> #[trigger] h@.subrange(j, j + sub@.len()) != sub@,
            None => !has_byte_sub(h@, sub@),
        },
{
    let slen = h.len();
    let blen = sub.len();
    if blen > slen {
        return None;
    }
    if blen == 0 {
        proof {
            assert(h@.subrange(0, 0) =~= sub@);
        }
        return Some(0);
    }
    let mut i: usize = 0;
    while i <= slen - blen
        invariant
            slen == h@.len(),
            blen == sub@.len(),
            1 <= blen <= slen,
            i <= slen - blen + 1,
            forall|j: int| 0 <= j < i ==> #[trigger] h@.subrange(j, j + sub@.len()) != sub@,
        decreases slen - i,
    {
        let mut k: usize = 0;
        let mut matched = true;
        while k < blen
            invariant
                slen == h@.len(),
                blen == sub@.len(),
                i + blen <= slen,
                k <= blen,
                matched ==> forall|t: int| 0 <= t < k ==> h@[i + t] == sub@[t],
                !matched ==> h@.subrange(i as int, i + sub@.len()) != sub@,
            decreases blen - k,
        {
            if h[i + k] != sub[k] {
                proof {
                    assert(h@.subrange(i as int, i + sub@.len())[k as int] != sub@[k as int]);
                }
                matched = false;
                k = blen;
            } else {
                k += 1;
            }
        }
        if matched {
            proof {
                assert(h@.subrange(i as int, i + sub@.len()) =~= sub@);
            }
            return Some(i);
        }
        i += 1;
    }
    proof {
        assert forall|j: int| 0 <= j && j + sub@.len() <= h@.len() implies #[trigger] h@.subrange(
            j,
            j + sub@.len(),
        ) != sub@ by {
            assert(j < i);
        }
    }
    None
}

/// The index of the first occurrence of `c` in `s`, if any.
pub fn find_char(s: &str, c: char) -> (r: Option<usize>)
    ensures
        match r {
            Some(i) => i < s@.len() && s@[i as int] == c && forall|j: int|
                0 <= j < i ==> s@[j] != c,
            None => forall|j: int| 0 <= j < s@.len() ==> s@[j] != c,
        },
{
    let len = s.unicode_len();
    let mut i: usize = 0;
    while i < len
        invariant
            len == s@.len(),
            i <= len,
            forall|j: int| 0 <= j < i ==> s@[j] != c,
        decreases len - i,
    {
        if s.get_char(i) == c {
            return Some(i);
        }
        i += 1;
    }
    None
}

proof fn lemma_dec_seq_len(n: nat)
    ensures
        dec_seq(n).len() >= 1,
    decreases n,
{
    if n >= 10 {
        lemma_dec_seq_len(n / 10);
    }
}

/// Decimal notation tells the number apart: two numbers with the same
/// notation are the same number.
pub proof fn lemma_dec_seq_injective(a: nat, b: nat)
    requires
        dec_seq(a) == dec_seq(b),
    ensures
        a == b,
    decreases a + b,
{
    if a < 10 && b < 10 {
        assert(dec_seq(a)[0] == digit_char(a));
        assert(dec_seq(b)[0] == digit_char(b));
    } else if a < 10 {
        lemma_dec_seq_len(b / 10);
        assert(dec_seq(b).len() >= 2);
        assert(dec_seq(a).len() == 1);
    } else if b < 10 {
        lemma_dec_seq_len(a / 10);
        assert(dec_seq(a).len() >= 2);
        assert(dec_seq(b).len() == 1);
    } else {
        assert(dec_seq(a).last() == digit_char(a % 10));
        assert(dec_seq(b).last() == digit_char(b % 10));
        assert(a % 10 == b % 10);
        assert(dec_seq(a).drop_last() =~= dec_seq(a / 10));
        assert(dec_seq(b).drop_last() =~= dec_seq(b / 10));
        lemma_dec_seq_injective(a / 10, b / 10);
    }
}

/// Whether some string in `s` reads `x`.
pub open spec fn spec_contains_str(s: Seq<String>, x: Seq<char>) -> bool {
    exists|i: int| 0 <= i < s.len() && s[i]@ == x
}

/// Whether `v` holds a string equal to `x`.
pub fn contains_string(v: &Vec<String>, x: &String) -> (r: bool)
    ensures
        r == spec_contains_str(v@, x@),
{
    let mut i: usize = 0;
    while i < v.len()
        invariant
            i <= v@.len(),
            forall|j: int| 0 <= j < i ==> v@[j]@ != x@,
        decreases v@.len() - i,
    {
        if v[i].eq(x) {
            return true;
        }
        i += 1;
    }
    false
}

} // verus!
