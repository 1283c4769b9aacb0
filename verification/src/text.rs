//! Small string helpers shared by the renderer's decision code: substring
//! search, lower-casing and decimal rendering of counters.
use vstd::prelude::*;
use vstd::string::*;

verus! {

/// `needle` occurs in `hay` at some position.
#[verifier::opaque]
pub open spec fn has_substring(hay: Seq<char>, needle: Seq<char>) -> bool {
    exists|i: int| 0 <= i <= hay.len() - needle.len() && #[trigger] hay.subrange(i, i + needle.len()) == needle
}

/// Compares two strings character by character.
pub fn str_eq(a: &str, b: &str) -> (r: bool)
    ensures
        r == (a@ == b@),
{
    let n = a.unicode_len();
    let m = b.unicode_len();
    if n != m {
        return false;
    }
    let mut i: usize = 0;
    while i < n
        invariant
            n == a@.len(),
            m == b@.len(),
            n == m,
            i <= n,
            forall|k: int| 0 <= k < i ==> a@[k] == b@[k],
        decreases n - i,
    {
        if a.get_char(i) != b.get_char(i) {
            return false;
        }
        i = i + 1;
    }
    proof {
        assert(a@ =~= b@);
    }
    true
}

/// Whether `needle` occurs in `hay` (as `str::contains` with a `&str` pattern).
pub fn str_contains(hay: &str, needle: &str) -> (r: bool)
    ensures
        r == has_substring(hay@, needle@),
{
    reveal(has_substring);
    let n = hay.unicode_len();
    let m = needle.unicode_len();
    if m > n {
        proof {
            assert forall|i: int| 0 <= i <= hay@.len() - needle@.len() implies #[trigger] hay@.subrange(
                i,
                i + needle@.len(),
            ) != needle@ by {}
        }
        return false;
    }
    let mut i: usize = 0;
    while i <= n - m
        invariant
            n == hay@.len(),
            m == needle@.len(),
            m <= n,
            i <= n - m + 1,
            forall|k: int| 0 <= k < i ==> #[trigger] hay@.subrange(k, k + m) != needle@,
        decreases n - m + 1 - i,
    {
        let mut j: usize = 0;
        let mut same = true;
        while j < m
            invariant
                n == hay@.len(),
                m == needle@.len(),
                i + m <= n,
                j <= m,
                same == (forall|t: int| 0 <= t < j ==> hay@[i + t] == needle@[t]),
            decreases m - j,
        {
            if hay.get_char(i + j) != needle.get_char(j) {
                same = false;
            }
            j = j + 1;
        }
        if same {
            proof {
                assert(hay@.subrange(i as int, i + m) =~= needle@);
                assert(hay@.subrange(i as int, i as int + needle@.len()) == needle@);
                reveal(has_substring);
                assert(has_substring(hay@, needle@));
            }
            return true;
        }
        proof {
            let t = choose|t: int| 0 <= t < m && !(hay@[i + t] == needle@[t]);
            assert(hay@.subrange(i as int, i + m)[t] != needle@[t]);
        }
        i = i + 1;
    }
    proof {
        assert forall|k: int| 0 <= k <= hay@.len() - needle@.len() implies #[trigger] hay@.subrange(
            k,
            k + needle@.len(),
        ) != needle@ by {
            assert(k < i);
        }
    }
    false
}

/// The lower-case form of a string, as `str::to_lowercase` gives it.
pub uninterp spec fn lowercase(s: Seq<char>) -> Seq<char>;

/// `str::to_lowercase`: Unicode lower-casing; its result is named
/// `lowercase` and depends on the string alone.
#[verifier::external_body]
pub(crate) fn to_lowercase(s: &str) -> (r: String)
    ensures
        r@ == lowercase(s@),
{
    s.to_lowercase()
}

/// The character of digit `d` (0 to 15) in lower-case hexadecimal.
pub open spec fn digit_char(d: nat) -> char {
    if d < 10 {
        (d + 48) as char
    } else {
        (d + 87) as char
    }
}

/// `n` in decimal, as `{}` prints an unsigned integer.
pub open spec fn decimal(n: nat) -> Seq<char>
    decreases n,
{
    if n < 10 {
        seq![digit_char(n)]
    } else {
        decimal(n / 10).push(digit_char(n % 10))
    }
}

/// `n` in lower-case hexadecimal without leading zeros.
pub open spec fn hex(n: nat) -> Seq<char>
    decreases n,
{
    if n < 16 {
        seq![digit_char(n)]
    } else {
        hex(n / 16).push(digit_char(n % 16))
    }
}

/// `n` as `{:04x}` prints it: hexadecimal, zero-padded to four digits.
pub open spec fn hex4(n: nat) -> Seq<char> {
    Seq::new((if hex(n).len() < 4 { 4 - hex(n).len() } else { 0 }) as nat, |i: int| '0') + hex(n)
}

/// The one-character string of digit `d`.
fn digit_str(d: u64) -> (s: &'static str)
    requires
        d < 16,
    ensures
        s@ == seq![digit_char(d as nat)],
{
    proof {
        reveal_strlit("0");
        reveal_strlit("1");
        reveal_strlit("2");
        reveal_strlit("3");
        reveal_strlit("4");
        reveal_strlit("5");
        reveal_strlit("6");
        reveal_strlit("7");
        reveal_strlit("8");
        reveal_strlit("9");
        reveal_strlit("a");
        reveal_strlit("b");
        reveal_strlit("c");
        reveal_strlit("d");
        reveal_strlit("e");
        reveal_strlit("f");
    }
    let s = if d == 0 {
        "0"
    } else if d == 1 {
        "1"
    } else if d == 2 {
        "2"
    } else if d == 3 {
        "3"
    } else if d == 4 {
        "4"
    } else if d == 5 {
        "5"
    } else if d == 6 {
        "6"
    } else if d == 7 {
        "7"
    } else if d == 8 {
        "8"
    } else if d == 9 {
        "9"
    } else if d == 10 {
        "a"
    } else if d == 11 {
        "b"
    } else if d == 12 {
        "c"
    } else if d == 13 {
        "d"
    } else if d == 14 {
        "e"
    } else {
        "f"
    };
    proof {
        assert(s@ =~= seq![digit_char(d as nat)]);
    }
    s
}

/// Appends `n` in decimal.
pub fn push_decimal(out: &mut String, n: u64)
    ensures
        final(out)@ == old(out)@ + decimal(n as nat),
    decreases n,
{
    if n >= 10 {
        push_decimal(out, n / 10);
    }
    out.append(digit_str(n % 10));
    proof {
        assert(final(out)@ =~= old(out)@ + decimal(n as nat));
    }
}

fn push_hex(out: &mut String, n: u64)
    ensures
        final(out)@ == old(out)@ + hex(n as nat),
    decreases n,
{
    if n >= 16 {
        push_hex(out, n / 16);
    }
    out.append(digit_str(n % 16));
    proof {
        assert(final(out)@ =~= old(out)@ + hex(n as nat));
    }
}

proof fn lemma_hex_len(n: nat)
    ensures
        1 <= hex(n).len(),
        n < 16 ==> hex(n).len() == 1,
        n < 256 ==> hex(n).len() <= 2,
        n < 4096 ==> hex(n).len() <= 3,
        n < 65536 ==> hex(n).len() <= 4,
    decreases n,
{
    if n >= 16 {
        lemma_hex_len(n / 16);
    }
}

/// Appends `n` as `{:04x}` prints it.
pub fn push_hex4(out: &mut String, n: u32)
    ensures
        final(out)@ == old(out)@ + hex4(n as nat),
{
    proof {
        reveal_strlit("0");
    }
    let ghost start = out@;
    let pad: usize = if n < 16 {
        3
    } else if n < 256 {
        2
    } else if n < 4096 {
        1
    } else {
        0
    };
    proof {
        lemma_hex_len(n as nat);
        if n >= 16 {
            lemma_hex_len((n / 16) as nat);
            assert(hex(n as nat).len() == hex((n / 16) as nat).len() + 1);
        }
        if n >= 256 {
            lemma_hex_len((n / 256) as nat);
            assert((n as nat / 16) / 16 == n as nat / 256);
            assert(hex((n / 16) as nat).len() == hex((n / 256) as nat).len() + 1);
        }
        if n >= 4096 {
            assert((n as nat / 256) / 16 == n as nat / 4096);
            assert(hex((n / 256) as nat).len() == hex((n / 4096) as nat).len() + 1);
        }
        assert(pad == (if hex(n as nat).len() < 4 { 4 - hex(n as nat).len() } else { 0 }));
    }
    let mut i: usize = 0;
    while i < pad
        invariant
            i <= pad,
            out@ == start + Seq::new(i as nat, |k: int| '0'),
        decreases pad - i,
    {
        out.append("0");
        proof {
            reveal_strlit("0");
            assert(out@ =~= start + Seq::new((i + 1) as nat, |k: int| '0'));
        }
        i = i + 1;
    }
    push_hex(out, n as u64);
    proof {
        assert(out@ =~= start + hex4(n as nat));
    }
}

} // verus!
