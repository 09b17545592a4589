use vstd::prelude::*;
use vstd::utf8::{
    decode_utf8, is_char_boundary_iff_not_is_continuation_byte, pop_first_scalar, valid_utf8,
    valid_utf8_concat, valid_utf8_split,
};

verus! {

/// Appends one character to a string.
#[verifier::external_body]
pub(crate) fn push_char(s: &mut String, c: char)
    ensures
        final(s)@ == old(s)@.push(c),
{
    s.push(c);
}

/// Decodes a byte sequence as UTF-8: `None` when the bytes are not valid UTF-8,
/// else the string they encode (`String::from_utf8`).
#[verifier::external_body]
pub(crate) fn string_from_utf8(v: &[u8]) -> (r: Option<String>)
    ensures
        r is Some <==> valid_utf8(v@),
        r matches Some(s) ==> s@ == decode_utf8(v@),
{
    String::from_utf8(v.to_vec()).ok()
}

/// Bytes that are all below 0x80 are valid UTF-8.
pub proof fn lemma_ascii_valid_utf8(b: Seq<u8>)
    requires
        forall|i: int| 0 <= i < b.len() ==> b[i] < 0x80,
    ensures
        valid_utf8(b),
    decreases b.len(),
{
    if b.len() > 0 {
        let rest = b.subrange(1, b.len() as int);
        assert(pop_first_scalar(b) == rest);
        lemma_ascii_valid_utf8(rest);
    }
}

/// In valid UTF-8, the bytes strictly between two bytes below 0x80 are valid
/// UTF-8, and so are the bytes from the first to the second, both included.
pub proof fn lemma_enclosed_valid_utf8(s: Seq<u8>, i: int, j: int)
    requires
        valid_utf8(s),
        0 <= i < j < s.len(),
        s[i] < 0x80,
        s[j] < 0x80,
    ensures
        valid_utf8(s.subrange(i + 1, j)),
        valid_utf8(s.subrange(i, j + 1)),
{
    let n = s.len() as int;
    is_char_boundary_iff_not_is_continuation_byte(s, i);
    valid_utf8_split(s, i);
    let t = s.subrange(i, n);
    assert(pop_first_scalar(t) =~= s.subrange(i + 1, n));
    let u = s.subrange(i + 1, n);
    let k = j - (i + 1);
    assert(u[k] == s[j]);
    is_char_boundary_iff_not_is_continuation_byte(u, k);
    valid_utf8_split(u, k);
    assert(u.subrange(0, k) =~= s.subrange(i + 1, j));
    let a = seq![s[i]];
    let b = seq![s[j]];
    lemma_ascii_valid_utf8(a);
    lemma_ascii_valid_utf8(b);
    valid_utf8_concat(a, s.subrange(i + 1, j));
    valid_utf8_concat(a + s.subrange(i + 1, j), b);
    assert(a + s.subrange(i + 1, j) + b =~= s.subrange(i, j + 1));
}

/// The character of a decimal digit.
pub open spec fn digit_char(d: nat) -> char {
    (48 + d) as char
}

/// The decimal digits of a natural number, most significant first, without
/// leading zeros ("0" for zero).
pub open spec fn spec_decimal(n: nat) -> Seq<char>
    decreases n,
{
    if n < 10 {
        seq![digit_char(n)]
    } else {
        spec_decimal(n / 10).push(digit_char(n % 10))
    }
}

/// The decimal text of an integer, with a leading '-' when it is negative.
pub open spec fn spec_signed_decimal(i: int) -> Seq<char> {
    if i < 0 {
        seq!['-'] + spec_decimal((-i) as nat)
    } else {
        spec_decimal(i as nat)
    }
}

/// Appends the decimal digits of `n` to `s`.
pub fn push_decimal(s: &mut String, n: u64)
    ensures
        final(s)@ == old(s)@ + spec_decimal(n as nat),
    decreases n,
{
    if n >= 10 {
        push_decimal(s, n / 10);
    }
    let d: u8 = (n % 10) as u8;
    let c: char = (48u8 + d) as char;
    push_char(s, c);
    proof {
        assert(spec_decimal(n as nat) == if n < 10 {
            seq![digit_char(n as nat)]
        } else {
            spec_decimal((n / 10) as nat).push(digit_char((n % 10) as nat))
        });
    }
}

/// Appends the decimal text of `i` to `s`.
pub fn push_signed_decimal(s: &mut String, i: i64)
    ensures
        final(s)@ == old(s)@ + spec_signed_decimal(i as int),
{
    if i < 0 {
        push_char(s, '-');
        let m: u64 = ((0 - (i + 1)) as u64) + 1;
        push_decimal(s, m);
        assert(old(s)@.push('-') + spec_decimal(m as nat) =~= old(s)@ + (seq!['-'] + spec_decimal(m as nat)));
    } else {
        push_decimal(s, i as u64);
    }
}

/// The characters of `s` before its first '.', and, when it has one, those after it.
pub open spec fn split_at_dot(s: Seq<char>) -> (Seq<char>, Option<Seq<char>>)
    decreases s.len(),
{
    if s.len() == 0 {
        (seq![], None)
    } else if s[0] == '.' {
        (seq![], Some(s.subrange(1, s.len() as int)))
    } else {
        let rest = split_at_dot(s.subrange(1, s.len() as int));
        (seq![s[0]] + rest.0, rest.1)
    }
}

/// `s` without the zeros it starts with.
pub open spec fn drop_leading_zeros(s: Seq<char>) -> Seq<char>
    decreases s.len(),
{
    if s.len() > 0 && s[0] == '0' {
        drop_leading_zeros(s.subrange(1, s.len() as int))
    } else {
        s
    }
}

/// `s` without the zeros it ends with.
pub open spec fn drop_trailing_zeros(s: Seq<char>) -> Seq<char>
    decreases s.len(),
{
    if s.len() > 0 && s[s.len() - 1] == '0' {
        drop_trailing_zeros(s.subrange(0, s.len() - 1))
    } else {
        s
    }
}

/// How a number written as `s` (digits, with at most one '.') is printed: its
/// whole part without leading zeros ("0" when nothing else is left), then, when
/// its fraction has a digit other than a trailing zero, a '.' and the fraction
/// without its trailing zeros.
pub open spec fn number_text(s: Seq<char>) -> Seq<char> {
    let (whole, fraction) = split_at_dot(s);
    let w = if drop_leading_zeros(whole).len() == 0 {
        seq!['0']
    } else {
        drop_leading_zeros(whole)
    };
    match fraction {
        Some(f) => if drop_trailing_zeros(f).len() == 0 {
            w
        } else {
            w + seq!['.'] + drop_trailing_zeros(f)
        },
        None => w,
    }
}

proof fn lemma_split_at_dot(s: Seq<char>, d: int)
    requires
        0 <= d <= s.len(),
        forall|k: int| 0 <= k < d ==> s[k] != '.',
        d < s.len() ==> s[d] == '.',
    ensures
        split_at_dot(s) == (s.subrange(0, d), if d < s.len() {
            Some(s.subrange(d + 1, s.len() as int))
        } else {
            None
        }),
    decreases s.len(),
{
    if s.len() > 0 && s[0] != '.' {
        let t = s.subrange(1, s.len() as int);
        lemma_split_at_dot(t, d - 1);
        assert(seq![s[0]] + t.subrange(0, d - 1) =~= s.subrange(0, d));
        if d < s.len() {
            assert(t.subrange(d, t.len() as int) =~= s.subrange(d + 1, s.len() as int));
        }
    } else if s.len() > 0 {
        assert(s.subrange(0, 0) =~= seq![]);
    } else {
        assert(s.subrange(0, 0) =~= seq![]);
    }
}

proof fn lemma_drop_leading_zeros(s: Seq<char>, a: int)
    requires
        0 <= a <= s.len(),
        forall|k: int| 0 <= k < a ==> s[k] == '0',
        a < s.len() ==> s[a] != '0',
    ensures
        drop_leading_zeros(s) == s.subrange(a, s.len() as int),
    decreases s.len(),
{
    if a > 0 {
        let t = s.subrange(1, s.len() as int);
        lemma_drop_leading_zeros(t, a - 1);
        assert(t.subrange(a - 1, t.len() as int) =~= s.subrange(a, s.len() as int));
    } else {
        assert(s.subrange(0, s.len() as int) =~= s);
    }
}

proof fn lemma_drop_trailing_zeros(s: Seq<char>, b: int)
    requires
        0 <= b <= s.len(),
        forall|k: int| b <= k < s.len() ==> s[k] == '0',
        b > 0 ==> s[b - 1] != '0',
    ensures
        drop_trailing_zeros(s) == s.subrange(0, b),
    decreases s.len(),
{
    if b < s.len() {
        let t = s.subrange(0, s.len() - 1);
        lemma_drop_trailing_zeros(t, b);
        assert(t.subrange(0, b) =~= s.subrange(0, b));
    } else {
        assert(s.subrange(0, s.len() as int) =~= s);
    }
}

/// A number is printed with its digits in place: the whole part loses only
/// the zeros it starts with (all but one when it is all zeros), and the
/// fraction loses only the zeros it ends with, the point going with it when
/// nothing is left; every other digit keeps its position around the point.
pub proof fn lemma_number_text_keeps_digits(w: Seq<char>, f: Seq<char>, a: int, b: int)
    requires
        forall|i: int| 0 <= i < w.len() ==> '0' <= #[trigger] w[i] <= '9',
        forall|i: int| 0 <= i < f.len() ==> '0' <= #[trigger] f[i] <= '9',
        0 <= a <= w.len(),
        forall|i: int| 0 <= i < a ==> w[i] == '0',
        a < w.len() ==> w[a] != '0',
        0 <= b <= f.len(),
        forall|i: int| b <= i < f.len() ==> f[i] == '0',
        b > 0 ==> f[b - 1] != '0',
    ensures
        number_text(w) == if a == w.len() {
            seq!['0']
        } else {
            w.subrange(a, w.len() as int)
        },
        number_text(w + seq!['.'] + f) == (if a == w.len() {
            seq!['0']
        } else {
            w.subrange(a, w.len() as int)
        }) + (if b == 0 {
            seq![]
        } else {
            seq!['.'] + f.subrange(0, b)
        }),
{
    let s = w + seq!['.'] + f;
    let n = w.len() as int;
    lemma_split_at_dot(w, n);
    assert(w.subrange(0, n) =~= w);
    lemma_split_at_dot(s, n);
    assert(s.subrange(0, n) =~= w);
    assert(s.subrange(n + 1, s.len() as int) =~= f);
    lemma_drop_leading_zeros(w, a);
    lemma_drop_trailing_zeros(f, b);
    if b == 0 {
        assert(f.subrange(0, 0) =~= seq![]);
    }
}

/// The printed form of the number written as `s` (see [`number_text`]).
pub fn number_to_string(s: &str) -> (r: String)
    ensures
        r@ == number_text(s@),
{
    let n = s.unicode_len();
    let mut d: usize = 0;
    while d < n && s.get_char(d) != '.'
        invariant
            n == s@.len(),
            d <= n,
            forall|k: int| 0 <= k < d ==> s@[k] != '.',
        decreases n - d,
    {
        d = d + 1;
    }
    let mut a: usize = 0;
    while a < d && s.get_char(a) == '0'
        invariant
            n == s@.len(),
            a <= d <= n,
            forall|k: int| 0 <= k < a ==> s@[k] == '0',
        decreases d - a,
    {
        a = a + 1;
    }
    let mut b: usize = n;
    if d < n {
        while b > d + 1 && s.get_char(b - 1) == '0'
            invariant
                n == s@.len(),
                d < n,
                d + 1 <= b <= n,
                forall|k: int| b <= k < n ==> s@[k] == '0',
            decreases b,
        {
            b = b - 1;
        }
    }
    proof {
        lemma_split_at_dot(s@, d as int);
        lemma_drop_leading_zeros(s@.subrange(0, d as int), a as int);
        assert(s@.subrange(0, d as int).subrange(a as int, d as int) =~= s@.subrange(a as int, d as int));
        if d < n {
            let f = s@.subrange(d + 1, n as int);
            assert forall|k: int| b - (d + 1) <= k < f.len() implies f[k] == '0' by {
                assert(f[k] == s@[k + d + 1]);
            }
            lemma_drop_trailing_zeros(f, b - (d + 1));
            assert(f.subrange(0, b - (d + 1)) =~= s@.subrange(d + 1, b as int));
        }
    }
    let mut r = if a < d {
        String::from_str(s.substring_char(a, d))
    } else {
        let z = String::from_str("0");
        proof {
            reveal_strlit("0");
        }
        z
    };
    if d < n && b > d + 1 {
        r.append(".");
        r.append(s.substring_char(d + 1, b));
        proof {
            reveal_strlit(".");
        }
    }
    r
}

} // verus!
