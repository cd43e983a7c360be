//! Verified string utilities: equality, lexicographic order.

use vstd::prelude::*;

verus! {

/// Character-by-character string equality.
pub fn str_eq(a: &str, b: &str) -> (r: bool)
    ensures
        r == (a@ == b@),
{
    let na = a.unicode_len();
    let nb = b.unicode_len();
    if na != nb {
        return false;
    }
    let mut i: usize = 0;
    while i < na
        invariant
            i <= na,
            na == a@.len(),
            na == b@.len(),
            forall|k: int| 0 <= k < i ==> a@[k] == b@[k],
        decreases na - i,
    {
        if a.get_char(i) != b.get_char(i) {
            return false;
        }
        i = i + 1;
    }
    proof {
        assert(a@ =~= b@);
    }
    true
}

/// String equality between an owned and a borrowed string.
pub fn string_eq_str(a: &String, b: &str) -> (r: bool)
    ensures
        r == (a@ == b@),
{
    str_eq(a.as_str(), b)
}

/// The character for one decimal digit.
pub open spec fn digit_char(d: int) -> char {
    if d == 0 {
        '0'
    } else if d == 1 {
        '1'
    } else if d == 2 {
        '2'
    } else if d == 3 {
        '3'
    } else if d == 4 {
        '4'
    } else if d == 5 {
        '5'
    } else if d == 6 {
        '6'
    } else if d == 7 {
        '7'
    } else if d == 8 {
        '8'
    } else {
        '9'
    }
}

/// The decimal digits of a non-negative number, most significant first.
pub open spec fn dec_digits(n: int) -> Seq<char>
    decreases n,
{
    if n < 10 {
        seq![digit_char(n)]
    } else {
        dec_digits(n / 10).push(digit_char(n % 10))
    }
}

/// The decimal rendering of an integer, with a leading minus sign when it
/// is negative.
pub open spec fn dec_str(n: int) -> Seq<char> {
    if n < 0 {
        seq!['-'] + dec_digits(-n)
    } else {
        dec_digits(n)
    }
}

/// One digit as a string slice.
fn digit_str(d: u64) -> (r: &'static str)
    requires
        d < 10,
    ensures
        r@ == seq![digit_char(d as int)],
{
    let r: &'static str = match d {
        0 => "0",
        1 => "1",
        2 => "2",
        3 => "3",
        4 => "4",
        5 => "5",
        6 => "6",
        7 => "7",
        8 => "8",
        _ => "9",
    };
    proof {
        reveal_strlit("0");
        reveal_strlit("1");
        reveal_strlit("2");
        reveal_strlit("3");
        reveal_strlit("4");
        reveal_strlit("5");
        reveal_strlit("6");
        reveal_strlit("7");
        reveal_strlit("8");
        reveal_strlit("9");
        assert(r@ =~= seq![digit_char(d as int)]);
    }
    r
}

/// The decimal rendering of a non-negative number.
pub fn u64_to_dec(n: u64) -> (r: String)
    ensures
        r@ == dec_digits(n as int),
    decreases n,
{
    if n < 10 {
        digit_str(n).to_owned()
    } else {
        let mut s = u64_to_dec(n / 10);
        s.append(digit_str(n % 10));
        proof {
            assert(s@ =~= dec_digits(n as int / 10).push(digit_char(n as int % 10)));
        }
        s
    }
}

/// The decimal rendering of an integer.
pub fn i32_to_dec(n: i32) -> (r: String)
    ensures
        r@ == dec_str(n as int),
{
    if n >= 0 {
        u64_to_dec(n as u64)
    } else {
        let wide: i64 = n as i64;
        let abs: u64 = (-wide) as u64;
        let mut s = "-".to_owned();
        s.append(u64_to_dec(abs).as_str());
        proof {
            reveal_strlit("-");
            assert(s@ =~= seq!['-'] + dec_digits(-(n as int)));
        }
        s
    }
}

/// The separator occurs at position `i` of `s`.
pub open spec fn match_at(s: Seq<char>, sep: Seq<char>, i: int) -> bool {
    0 <= i && i + sep.len() <= s.len() && s.subrange(i, i + sep.len()) == sep
}

/// `s` splits into exactly two components around a single occurrence of the
/// separator: the leftmost occurrence, with no further occurrence at or
/// beyond its end.
pub open spec fn splits_in_two_at(s: Seq<char>, sep: Seq<char>, i: int) -> bool {
    &&& match_at(s, sep, i)
    &&& forall|j: int| 0 <= j < i ==> !match_at(s, sep, j)
    &&& forall|j: int| i + sep.len() <= j ==> !match_at(s, sep, j)
}

/// What splitting `s` on the separator yields when there are exactly two
/// components, `None` otherwise.
pub open spec fn split_once_exact(s: Seq<char>, sep: Seq<char>) -> Option<(Seq<char>, Seq<char>)> {
    if exists|i: int| splits_in_two_at(s, sep, i) {
        let i = choose|i: int| splits_in_two_at(s, sep, i);
        Option::Some((s.subrange(0, i), s.subrange(i + sep.len(), s.len() as int)))
    } else {
        Option::None
    }
}

/// The two-component split position is unique.
pub proof fn lemma_splits_in_two_unique(s: Seq<char>, sep: Seq<char>, i1: int, i2: int)
    requires
        splits_in_two_at(s, sep, i1),
        splits_in_two_at(s, sep, i2),
    ensures
        i1 == i2,
{
    if i1 < i2 {
        assert(!match_at(s, sep, i1));
    } else if i2 < i1 {
        assert(!match_at(s, sep, i2));
    }
}

/// Whether the separator occurs at character position `i`.
fn match_at_exec(s: &str, sep: &str, i: usize, n: usize, m: usize) -> (r: bool)
    requires
        n == s@.len(),
        m == sep@.len(),
        i + m <= n,
    ensures
        r == match_at(s@, sep@, i as int),
{
    let mut k: usize = 0;
    while k < m
        invariant
            k <= m,
            n == s@.len(),
            m == sep@.len(),
            i + m <= n,
            forall|t: int| 0 <= t < k ==> s@[i + t] == sep@[t],
        decreases m - k,
    {
        if s.get_char(i + k) != sep.get_char(k) {
            proof {
                assert(s@.subrange(i as int, i + m) != sep@) by {
                    assert(s@.subrange(i as int, i + m)[k as int] == s@[i + k]);
                }
            }
            return false;
        }
        k = k + 1;
    }
    proof {
        assert(s@.subrange(i as int, i + m) =~= sep@);
    }
    true
}

/// Split `s` into exactly two components around the single occurrence of the
/// separator, as the leftmost-first scan of a standard split would; `None`
/// when the number of components is not exactly two.
pub fn split_two(s: &str, sep: &str) -> (r: Option<(String, String)>)
    requires
        sep@.len() > 0,
    ensures
        match r {
            Option::Some(parts) => exists|i: int|
                #![trigger splits_in_two_at(s@, sep@, i)]
                {
                    &&& splits_in_two_at(s@, sep@, i)
                    &&& parts.0@ == s@.subrange(0, i)
                    &&& parts.1@ == s@.subrange(i + sep@.len(), s@.len() as int)
                },
            Option::None => forall|i: int| !splits_in_two_at(s@, sep@, i),
        },
{
    let n = s.unicode_len();
    let m = sep.unicode_len();
    let mut i: usize = 0;
    if m > n {
        proof {
            assert forall|j: int| !splits_in_two_at(s@, sep@, j) by {
                if match_at(s@, sep@, j) {
                    assert(false);
                }
            }
        }
        return Option::None;
    }
    while i <= n - m
        invariant
            n == s@.len(),
            m == sep@.len(),
            m > 0,
            m <= n,
            i <= n,
            forall|j: int| 0 <= j < i ==> !match_at(s@, sep@, j),
        decreases n - i,
    {
        if match_at_exec(s, sep, i, n, m) {
            // Found the leftmost occurrence; any further occurrence at or
            // beyond its end means more than two components.
            let mut j: usize = i + m;
            while j <= n - m
                invariant
                    n == s@.len(),
                    m == sep@.len(),
                    m > 0,
                    m <= n,
                    i + m <= n,
                    i + m <= j,
                    j <= n,
                    match_at(s@, sep@, i as int),
                    forall|t: int| 0 <= t < i ==> !match_at(s@, sep@, t),
                    forall|t: int| i + m <= t < j ==> !match_at(s@, sep@, t),
                decreases n - j,
            {
                if match_at_exec(s, sep, j, n, m) {
                    proof {
                        assert forall|t: int| !splits_in_two_at(s@, sep@, t) by {
                            if splits_in_two_at(s@, sep@, t) {
                                if t < i {
                                    assert(!match_at(s@, sep@, t));
                                } else if t > i {
                                    assert(!match_at(s@, sep@, i as int));
                                } else {
                                    assert(!match_at(s@, sep@, j as int));
                                }
                            }
                        }
                    }
                    return Option::None;
                }
                j = j + 1;
            }
            proof {
                assert forall|t: int| i + m <= t implies !match_at(s@, sep@, t) by {
                    if match_at(s@, sep@, t) {
                        assert(t + m <= n);
                        assert(i + m <= t < n - m + 1);
                    }
                }
                assert(splits_in_two_at(s@, sep@, i as int));
            }
            let left = s.substring_char(0, i);
            let right = s.substring_char(i + m, n);
            return Option::Some((left.to_owned(), right.to_owned()));
        }
        i = i + 1;
    }
    proof {
        assert forall|j: int| !splits_in_two_at(s@, sep@, j) by {
            if match_at(s@, sep@, j) {
                assert(0 <= j && j + m <= n);
                assert(j < i);
            }
        }
    }
    Option::None
}

/// Whether a vector of strings holds one with this view.
pub fn vec_contains_str(v: &Vec<String>, s: &str) -> (r: bool)
    ensures
        r == exists|k: int| 0 <= k < v@.len() && #[trigger] v@[k]@ == s@,
{
    let n = v.len();
    let mut i: usize = 0;
    while i < n
        invariant
            i <= n,
            n == v@.len(),
            forall|k: int| 0 <= k < i ==> #[trigger] v@[k]@ != s@,
        decreases n - i,
    {
        if string_eq_str(&v[i], s) {
            return true;
        }
        i = i + 1;
    }
    false
}

/// Lexicographic order on character sequences, by code point.
pub open spec fn seq_char_le(a: Seq<char>, b: Seq<char>) -> bool
    decreases a.len(),
{
    if a.len() == 0 {
        true
    } else if b.len() == 0 {
        false
    } else if (a[0] as int) < (b[0] as int) {
        true
    } else if (a[0] as int) > (b[0] as int) {
        false
    } else {
        seq_char_le(a.skip(1), b.skip(1))
    }
}

/// `seq_char_le` is total.
pub proof fn lemma_seq_char_le_total(a: Seq<char>, b: Seq<char>)
    ensures
        seq_char_le(a, b) || seq_char_le(b, a),
    decreases a.len(),
{
    if a.len() > 0 && b.len() > 0 && (a[0] as int) == (b[0] as int) {
        lemma_seq_char_le_total(a.skip(1), b.skip(1));
    }
}

/// `seq_char_le` is transitive.
pub proof fn lemma_seq_char_le_trans(a: Seq<char>, b: Seq<char>, c: Seq<char>)
    requires
        seq_char_le(a, b),
        seq_char_le(b, c),
    ensures
        seq_char_le(a, c),
    decreases a.len(),
{
    if a.len() > 0 && b.len() > 0 && c.len() > 0 {
        if (a[0] as int) == (b[0] as int) && (b[0] as int) == (c[0] as int) {
            lemma_seq_char_le_trans(a.skip(1), b.skip(1), c.skip(1));
        }
    }
}

/// Mutual `seq_char_le` means equality.
pub proof fn lemma_seq_char_le_antisym(a: Seq<char>, b: Seq<char>)
    requires
        seq_char_le(a, b),
        seq_char_le(b, a),
    ensures
        a == b,
    decreases a.len(),
{
    if a.len() > 0 && b.len() > 0 && (a[0] as int) == (b[0] as int) {
        lemma_seq_char_le_antisym(a.skip(1), b.skip(1));
        assert forall|k: int| 0 <= k < a.len() implies a[k] == b[k] by {
            if k > 0 {
                assert(a[k] == a.skip(1)[k - 1]);
                assert(b[k] == b.skip(1)[k - 1]);
            }
        }
        assert(a =~= b);
    } else if a.len() == 0 && b.len() == 0 {
        assert(a =~= b);
    }
}

/// Executable lexicographic comparison.
pub fn str_le(a: &str, b: &str) -> (r: bool)
    ensures
        r == seq_char_le(a@, b@),
{
    let na = a.unicode_len();
    let nb = b.unicode_len();
    let mut i: usize = 0;
    proof {
        assert(a@.skip(0) =~= a@);
        assert(b@.skip(0) =~= b@);
    }
    loop
        invariant
            i <= na,
            i <= nb,
            na == a@.len(),
            nb == b@.len(),
            seq_char_le(a@, b@) == seq_char_le(a@.skip(i as int), b@.skip(i as int)),
        decreases na - i,
    {
        proof {
            lemma_le_prefix(a@, b@, i as int);
        }
        if i >= na {
            return true;
        }
        if i >= nb {
            return false;
        }
        let ca = a.get_char(i);
        let cb = b.get_char(i);
        if (ca as u32) < (cb as u32) {
            return true;
        }
        if (ca as u32) > (cb as u32) {
            return false;
        }
        proof {
            lemma_le_step(a@.skip(i as int), b@.skip(i as int));
            assert(a@.skip(i as int).skip(1) =~= a@.skip(i + 1));
            assert(b@.skip(i as int).skip(1) =~= b@.skip(i + 1));
        }
        i = i + 1;
    }
}

/// Unfolds one comparison step: equal heads reduce to the tails.
proof fn lemma_le_step(a: Seq<char>, b: Seq<char>)
    requires
        a.len() > 0,
        b.len() > 0,
        (a[0] as int) == (b[0] as int),
    ensures
        seq_char_le(a, b) == seq_char_le(a.skip(1), b.skip(1)),
{
}

/// Ground the loop invariant when one side is exhausted.
proof fn lemma_le_prefix(a: Seq<char>, b: Seq<char>, i: int)
    requires
        0 <= i <= a.len(),
        0 <= i <= b.len(),
    ensures
        i == a.len() ==> seq_char_le(a.skip(i), b.skip(i)),
        i == b.len() && i < a.len() ==> !seq_char_le(a.skip(i), b.skip(i)),
{
    if i == a.len() {
        assert(a.skip(i).len() == 0);
    } else if i == b.len() {
        assert(b.skip(i).len() == 0);
        assert(a.skip(i).len() > 0);
    }
}

} // verus!
