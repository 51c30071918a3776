//! Character-level text helpers that the request builders and reply scanners use:
//! searching, splitting at a separator, trimming, decimal numbers.
use vstd::prelude::*;
use vstd::string::*;

verus! {

/// Index of the first occurrence of `c` in `s`, or -1 when there is none.
pub open spec fn index_of(s: Seq<char>, c: char) -> int
    decreases s.len(),
{
    if s.len() == 0 {
        -1
    } else if s[0] == c {
        0
    } else {
        let r = index_of(s.drop_first(), c);
        if r < 0 {
            -1
        } else {
            r + 1
        }
    }
}

/// `index_of` is the first occurrence, and -1 means there is none.
pub proof fn lemma_index_of(s: Seq<char>, c: char)
    ensures
        -1 <= index_of(s, c) < s.len(),
        index_of(s, c) >= 0 ==> s[index_of(s, c)] == c,
        forall|j: int|
            0 <= j < (if index_of(s, c) >= 0 { index_of(s, c) } else { s.len() as int })
                ==> s[j] != c,
    decreases s.len(),
{
    if s.len() > 0 && s[0] != c {
        lemma_index_of(s.drop_first(), c);
        assert forall|j: int|
            0 <= j < (if index_of(s, c) >= 0 { index_of(s, c) } else { s.len() as int })
            implies s[j] != c by {
            if j > 0 {
                assert(s[j] == s.drop_first()[j - 1]);
            }
        }
    }
}

/// Searches `s` for `c` from the position `from` on.
pub fn find_char(s: &str, from: usize, c: char) -> (r: Option<usize>)
    requires
        from <= s@.len(),
    ensures
        match r {
            Some(k) => from <= k < s@.len() && index_of(s@.skip(from as int), c) == k - from,
            None => index_of(s@.skip(from as int), c) == -1,
        },
{
    let n = s.unicode_len();
    let mut i = from;
    let ghost t = s@.skip(from as int);
    proof {
        lemma_index_of(t, c);
    }
    while i < n
        invariant
            n == s@.len(),
            t == s@.skip(from as int),
            from <= i <= n,
            forall|j: int| from <= j < i ==> s@[j] != c,
        decreases n - i,
    {
        if s.get_char(i) == c {
            proof {
                lemma_index_of(t, c);
                let k = index_of(t, c);
                assert(t[i - from] == c);
                if k < 0 || k > i - from {
                    assert(t[i - from] != c);
                }
                if 0 <= k < i - from {
                    assert(t[k] == s@[from + k]);
                }
            }
            return Some(i);
        }
        i = i + 1;
    }
    proof {
        lemma_index_of(t, c);
        let k = index_of(t, c);
        if k >= 0 {
            assert(t[k] == s@[from + k]);
        }
    }
    None
}


/// The part of `s` before the first `c`: all of `s` when it holds none.
pub open spec fn before(s: Seq<char>, c: char) -> Seq<char> {
    if index_of(s, c) < 0 {
        s
    } else {
        s.take(index_of(s, c))
    }
}

/// The part of `s` after the first `c`: empty when it holds none.
pub open spec fn after(s: Seq<char>, c: char) -> Seq<char> {
    if index_of(s, c) < 0 {
        Seq::empty()
    } else {
        s.skip(index_of(s, c) + 1)
    }
}

/// The part before the first `c` holds no `c`.
pub proof fn lemma_before_lacks(s: Seq<char>, c: char)
    ensures
        !before(s, c).contains(c),
        before(s, c).len() <= s.len(),
        forall|i: int| 0 <= i < before(s, c).len() ==> before(s, c)[i] == s[i],
{
    lemma_index_of(s, c);
    if before(s, c).contains(c) {
        let i = choose|i: int| 0 <= i < before(s, c).len() && before(s, c)[i] == c;
        assert(s[i] == c);
    }
}

/// Whether splitting `s` at every `c` gives a piece numbered `k` (counting from 0),
/// that is, whether `s` holds at least `k` separators.
pub open spec fn has_piece(s: Seq<char>, c: char, k: nat) -> bool
    decreases k,
{
    if k == 0 {
        true
    } else {
        index_of(s, c) >= 0 && has_piece(after(s, c), c, (k - 1) as nat)
    }
}

/// Piece number `k` (counting from 0) of `s` split at every `c`.
pub open spec fn piece(s: Seq<char>, c: char, k: nat) -> Seq<char>
    decreases k,
{
    if k == 0 {
        before(s, c)
    } else {
        piece(after(s, c), c, (k - 1) as nat)
    }
}

/// Piece number `k` of `s` split at every `c`, if there is one.
pub fn split_piece<'a>(s: &'a str, c: char, k: usize) -> (r: Option<&'a str>)
    ensures
        r is Some <==> has_piece(s@, c, k as nat),
        r matches Some(p) ==> p@ == piece(s@, c, k as nat),
    decreases k,
{
    let n = s.unicode_len();
    let found = find_char(s, 0, c);
    assert(s@.skip(0) =~= s@);
    if k == 0 {
        match found {
            Some(i) => {
                let p = s.substring_char(0, i);
                assert(p@ =~= before(s@, c));
                Some(p)
            },
            None => Some(s),
        }
    } else {
        match found {
            Some(i) => {
                let rest = s.substring_char(i + 1, n);
                assert(rest@ =~= after(s@, c));
                split_piece(rest, c, k - 1)
            },
            None => None,
        }
    }
}

/// Whether `pat` occurs in `s` starting at position `i`.
pub open spec fn occurs_at(s: Seq<char>, pat: Seq<char>, i: int) -> bool {
    0 <= i && i + pat.len() <= s.len() && s.subrange(i, i + pat.len()) == pat
}

/// Whether `pat` occurs anywhere in `s`.
pub open spec fn contains(s: Seq<char>, pat: Seq<char>) -> bool {
    exists|i: int| occurs_at(s, pat, i)
}

/// Whether `pat` occurs in `s` at position `i`.
fn matches_at(s: &str, pat: &str, i: usize) -> (r: bool)
    requires
        i + pat@.len() <= s@.len(),
    ensures
        r == occurs_at(s@, pat@, i as int),
{
    let n = s.unicode_len();
    let m = pat.unicode_len();
    let mut j: usize = 0;
    while j < m
        invariant
            n == s@.len(),
            m == pat@.len(),
            i + m <= s@.len(),
            j <= m,
            forall|q: int| 0 <= q < j ==> s@[i + q] == pat@[q],
        decreases m - j,
    {
        if s.get_char(i + j) != pat.get_char(j) {
            assert(s@.subrange(i as int, i + m)[j as int] != pat@[j as int]);
            return false;
        }
        j = j + 1;
    }
    assert(s@.subrange(i as int, i + m) =~= pat@);
    true
}

/// Whether `pat` occurs anywhere in `s`, as `str::contains` with a string pattern.
pub fn contains_str(s: &str, pat: &str) -> (r: bool)
    ensures
        r == contains(s@, pat@),
{
    let n = s.unicode_len();
    let m = pat.unicode_len();
    if m > n {
        assert forall|i: int| !occurs_at(s@, pat@, i) by {}
        return false;
    }
    if m == 0 {
        assert(s@.subrange(0, 0) =~= pat@);
        assert(occurs_at(s@, pat@, 0));
        return true;
    }
    let mut i: usize = 0;
    while i <= n - m
        invariant
            n == s@.len(),
            m == pat@.len(),
            1 <= m <= n,
            i <= n - m + 1,
            forall|q: int| 0 <= q < i ==> !occurs_at(s@, pat@, q),
        decreases n - m + 1 - i,
    {
        if matches_at(s, pat, i) {
            return true;
        }
        i = i + 1;
    }
    assert forall|q: int| !occurs_at(s@, pat@, q) by {
        if 0 <= q < i {
        }
    }
    false
}

/// Whether `c` is white space in the sense of Unicode's White_Space property,
/// which `char::is_whitespace`, `str::trim` and `str::trim_start` go by.
pub open spec fn is_white(c: char) -> bool {
    let u = c as u32;
    (0x09 <= u <= 0x0D) || u == 0x20 || u == 0x85 || u == 0xA0 || u == 0x1680 || (0x2000 <= u
        <= 0x200A) || u == 0x2028 || u == 0x2029 || u == 0x202F || u == 0x205F || u == 0x3000
}

/// Whether `c` is white space.
pub fn is_white_char(c: char) -> (r: bool)
    ensures
        r == is_white(c),
{
    let u = c as u32;
    (0x09 <= u && u <= 0x0D) || u == 0x20 || u == 0x85 || u == 0xA0 || u == 0x1680 || (0x2000
        <= u && u <= 0x200A) || u == 0x2028 || u == 0x2029 || u == 0x202F || u == 0x205F || u
        == 0x3000
}

/// `s` without its leading white space.
pub open spec fn trim_start(s: Seq<char>) -> Seq<char>
    decreases s.len(),
{
    if s.len() > 0 && is_white(s[0]) {
        trim_start(s.drop_first())
    } else {
        s
    }
}

/// `s` without its trailing white space.
pub open spec fn trim_end(s: Seq<char>) -> Seq<char>
    decreases s.len(),
{
    if s.len() > 0 && is_white(s.last()) {
        trim_end(s.drop_last())
    } else {
        s
    }
}

/// `s` without white space at either end.
pub open spec fn trim(s: Seq<char>) -> Seq<char> {
    trim_end(trim_start(s))
}

/// `s` without its leading white space, as `str::trim_start`.
pub fn trim_start_str<'a>(s: &'a str) -> (r: &'a str)
    ensures
        r@ == trim_start(s@),
    decreases s@.len(),
{
    let n = s.unicode_len();
    if n > 0 && is_white_char(s.get_char(0)) {
        let rest = s.substring_char(1, n);
        assert(rest@ =~= s@.drop_first());
        trim_start_str(rest)
    } else {
        s
    }
}

/// `s` without its trailing white space, as `str::trim_end`.
pub fn trim_end_str<'a>(s: &'a str) -> (r: &'a str)
    ensures
        r@ == trim_end(s@),
    decreases s@.len(),
{
    let n = s.unicode_len();
    if n > 0 && is_white_char(s.get_char(n - 1)) {
        let rest = s.substring_char(0, n - 1);
        assert(rest@ =~= s@.drop_last());
        trim_end_str(rest)
    } else {
        s
    }
}

/// `s` without white space at either end, as `str::trim`.
pub fn trim_str<'a>(s: &'a str) -> (r: &'a str)
    ensures
        r@ == trim(s@),
{
    trim_end_str(trim_start_str(s))
}

/// Whether `c` is one of the ASCII digits `0` to `9`.
pub open spec fn is_digit(c: char) -> bool {
    48 <= (c as u32) <= 57
}

/// The value of the digit `c`.
pub open spec fn digit_value(c: char) -> nat {
    ((c as u32) - 48) as nat
}

/// The value of the decimal numeral `s`, most significant digit first.
pub open spec fn digits_value(s: Seq<char>) -> nat
    decreases s.len(),
{
    if s.len() == 0 {
        0
    } else {
        digits_value(s.drop_last()) * 10 + digit_value(s.last())
    }
}

/// The digits of an unsigned numeral: `s` without one leading `+`.
pub open spec fn unsigned_digits(s: Seq<char>) -> Seq<char> {
    if s.len() > 0 && s[0] == '+' {
        s.drop_first()
    } else {
        s
    }
}

/// The value of `s` read as an unsigned decimal number in the way `u64::from_str` and
/// `usize::from_str` read it (an optional `+`, then one or more ASCII digits), before any
/// bound on the result: `None` where the text is no such number.
pub open spec fn parse_unsigned(s: Seq<char>) -> Option<nat> {
    let d = unsigned_digits(s);
    if d.len() > 0 && forall|i: int| 0 <= i < d.len() ==> is_digit(#[trigger] d[i]) {
        Some(digits_value(d))
    } else {
        None
    }
}

/// `s` read as a `u64` in the way `u64::from_str` reads it: `None` where that fails,
/// because `s` is no unsigned numeral or its value exceeds `u64::MAX`.
pub fn parse_u64(s: &str) -> (r: Option<u64>)
    ensures
        r is Some <==> (parse_unsigned(s@) matches Some(v) && v <= u64::MAX),
        r matches Some(v) ==> parse_unsigned(s@) == Some(v as nat),
{
    let n = s.unicode_len();
    let mut i: usize = 0;
    if n > 0 && s.get_char(0) == '+' {
        i = 1;
    }
    let ghost d = unsigned_digits(s@);
    assert(d =~= s@.skip(i as int));
    if i == n {
        return None;
    }
    let start = i;
    let mut acc: u64 = 0;
    let mut overflow = false;
    while i < n
        invariant
            n == s@.len(),
            d == s@.skip(start as int),
            d == unsigned_digits(s@),
            start <= i <= n,
            forall|q: int| 0 <= q < i - start ==> is_digit(#[trigger] d[q]),
            !overflow ==> acc == digits_value(d.take(i - start)),
            overflow ==> digits_value(d.take(i - start)) > u64::MAX,
        decreases n - i,
    {
        let c = s.get_char(i);
        if !((c as u32) >= 48 && (c as u32) <= 57) {
            assert(d[i - start] == s@[i as int]);
            assert(!is_digit(d[i - start]));
            assert(!(forall|q: int| 0 <= q < d.len() ==> is_digit(#[trigger] d[q])));
            return None;
        }
        let dv = ((c as u32) - 48) as u64;
        proof {
            assert(d.take(i - start + 1).drop_last() =~= d.take(i - start));
            assert(d.take(i - start + 1).last() == d[i - start]);
        }
        if !overflow {
            match acc.checked_mul(10) {
                Some(a10) => match a10.checked_add(dv) {
                    Some(a) => {
                        acc = a;
                    },
                    None => {
                        overflow = true;
                    },
                },
                None => {
                    overflow = true;
                },
            }
        }
        i = i + 1;
    }
    assert(d.take(n - start) =~= d);
    if overflow {
        None
    } else {
        Some(acc)
    }
}

/// `s` read as a `usize` in the way `usize::from_str` reads it: `None` where that fails.
pub fn parse_usize(s: &str) -> (r: Option<usize>)
    ensures
        r is Some <==> (parse_unsigned(s@) matches Some(v) && v <= usize::MAX),
        r matches Some(v) ==> parse_unsigned(s@) == Some(v as nat),
{
    match parse_u64(s) {
        Some(v) => {
            if v <= usize::MAX as u64 {
                Some(v as usize)
            } else {
                None
            }
        },
        None => None,
    }
}

/// The digit that stands for `d`.
pub open spec fn digit_char(d: nat) -> char {
    (d + 48) as char
}

/// `n` written in decimal, without leading zeros.
pub open spec fn decimal(n: nat) -> Seq<char>
    decreases n,
{
    if n < 10 {
        seq![digit_char(n)]
    } else {
        decimal(n / 10) + seq![digit_char(n % 10)]
    }
}

/// `n` written in decimal, with a `-` in front when it is negative, as `{}` formats an integer.
pub open spec fn signed_decimal(n: int) -> Seq<char> {
    if n < 0 {
        seq!['-'] + decimal((-n) as nat)
    } else {
        decimal(n as nat)
    }
}

/// The one-character text of the digit `d`.
fn digit_str(d: u64) -> (r: &'static str)
    requires
        d < 10,
    ensures
        r@ == seq![digit_char(d as nat)],
{
    proof {
        reveal_strlit("0");
        reveal_strlit("1");
        reveal_strlit("2");
        reveal_strlit("3");
        reveal_strlit("4");
        reveal_strlit("5");
        reveal_strlit("6");
        reveal_strlit("7");
        reveal_strlit("8");
        reveal_strlit("9");
    }
    let r = if d == 0 {
        "0"
    } else if d == 1 {
        "1"
    } else if d == 2 {
        "2"
    } else if d == 3 {
        "3"
    } else if d == 4 {
        "4"
    } else if d == 5 {
        "5"
    } else if d == 6 {
        "6"
    } else if d == 7 {
        "7"
    } else if d == 8 {
        "8"
    } else {
        "9"
    };
    assert(r@ =~= seq![digit_char(d as nat)]);
    r
}

/// Appends `n` in decimal to `out`.
pub fn push_decimal(out: &mut String, n: u64)
    ensures
        final(out)@ == old(out)@ + decimal(n as nat),
    decreases n,
{
    if n >= 10 {
        push_decimal(out, n / 10);
    }
    out.append(digit_str(n % 10));
    assert(out@ =~= old(out)@ + decimal(n as nat));
}

/// Appends `n` in decimal, signed, to `out`, as `{}` formats an `i32`.
pub fn push_i32(out: &mut String, n: i32)
    ensures
        final(out)@ == old(out)@ + signed_decimal(n as int),
{
    if n < 0 {
        proof {
            reveal_strlit("-");
        }
        out.append("-");
        let m = (0i64 - (n as i64)) as u64;
        push_decimal(out, m);
        assert(out@ =~= old(out)@ + signed_decimal(n as int));
    } else {
        push_decimal(out, n as u64);
    }
}

/// The decimal text of `n` reads back as `n`: it is made of digits only, starts with a
/// nonzero digit unless `n` is 0, and its value is `n`.
pub proof fn lemma_decimal_reads_back(n: nat)
    ensures
        decimal(n).len() > 0,
        forall|i: int| 0 <= i < decimal(n).len() ==> is_digit(#[trigger] decimal(n)[i]),
        n > 0 ==> decimal(n)[0] != '0',
        n == 0 ==> decimal(n) == seq!['0'],
        digits_value(decimal(n)) == n,
        parse_unsigned(decimal(n)) == Some(n),
    decreases n,
{
    let d = decimal(n);
    if n < 10 {
        assert(digit_char(n) as u32 == n + 48);
        assert(d.drop_last() =~= Seq::<char>::empty());
        assert(d.last() == digit_char(n));
        assert(digit_value(d.last()) == n);
        assert(digits_value(d) == digits_value(d.drop_last()) * 10 + digit_value(d.last()));
    } else {
        lemma_decimal_reads_back(n / 10);
        let r = n % 10;
        assert(digit_char(r) as u32 == r + 48);
        assert(d.drop_last() =~= decimal(n / 10));
        assert(d.last() == digit_char(r));
        assert(digit_value(d.last()) == r);
        assert(digits_value(d) == digits_value(d.drop_last()) * 10 + digit_value(d.last()));
        assert((n / 10) * 10 + n % 10 == n) by (nonlinear_arith);
        assert(d[0] == decimal(n / 10)[0]);
        assert forall|i: int| 0 <= i < d.len() implies is_digit(#[trigger] d[i]) by {
            if i < d.len() - 1 {
                assert(d[i] == decimal(n / 10)[i]);
            }
        }
    }
    assert(unsigned_digits(d) == d);
}

/// The text that `{}` gives for an integer reads back as that integer: a nonnegative
/// number is its decimal numeral, a negative one is `-` and the numeral of its magnitude.
pub proof fn lemma_signed_decimal_reads_back(n: int)
    ensures
        n >= 0 ==> parse_unsigned(signed_decimal(n)) == Some(n as nat),
        n >= 0 ==> signed_decimal(n) == decimal(n as nat),
        n < 0 ==> signed_decimal(n)[0] == '-' && parse_unsigned(signed_decimal(n).drop_first())
            == Some((-n) as nat),
{
    if n >= 0 {
        lemma_decimal_reads_back(n as nat);
    } else {
        lemma_decimal_reads_back((-n) as nat);
        assert(signed_decimal(n).drop_first() =~= decimal((-n) as nat));
    }
}

/// Text appended after a `c` does not move the first `c`.
pub proof fn lemma_index_of_append(s: Seq<char>, t: Seq<char>, c: char)
    requires
        index_of(s, c) >= 0,
    ensures
        index_of(s + t, c) == index_of(s, c),
        after(s + t, c) == after(s, c) + t,
{
    let i = index_of(s, c);
    lemma_index_of(s, c);
    lemma_index_of(s + t, c);
    let k = index_of(s + t, c);
    assert((s + t)[i] == c);
    if k < 0 || k > i {
        assert((s + t)[i] != c);
    }
    if 0 <= k < i {
        assert((s + t)[k] == s[k]);
    }
    assert(after(s + t, c) =~= after(s, c) + t);
}

/// In `s`, `c`, `t` with no `c` in `s`, the first `c` is the one after `s`.
pub proof fn lemma_index_of_first_sep(s: Seq<char>, t: Seq<char>, c: char)
    requires
        index_of(s, c) < 0,
    ensures
        index_of(s + seq![c] + t, c) == s.len(),
        before(s + seq![c] + t, c) == s,
{
    let u = s + seq![c] + t;
    lemma_index_of(s, c);
    lemma_index_of(u, c);
    let k = index_of(u, c);
    assert(u[s.len() as int] == c);
    if k < 0 || k > s.len() {
        assert(u[s.len() as int] != c);
    }
    if 0 <= k < s.len() {
        assert(u[k] == s[k]);
    }
    assert(before(u, c) =~= s);
}

/// Trimming the start drops exactly the leading run of white space: what is left is a
/// suffix of `s` that is empty or starts with a character that is not white space, and
/// everything dropped is white space.
pub proof fn lemma_trim_start_drops_leading_white(s: Seq<char>)
    ensures
        trim_start(s).len() <= s.len(),
        trim_start(s) == s.skip(s.len() - trim_start(s).len()),
        trim_start(s).len() > 0 ==> !is_white(trim_start(s)[0]),
        forall|i: int| 0 <= i < s.len() - trim_start(s).len() ==> is_white(#[trigger] s[i]),
    decreases s.len(),
{
    if s.len() > 0 && is_white(s[0]) {
        let r = s.drop_first();
        lemma_trim_start_drops_leading_white(r);
        assert(r.skip(r.len() - trim_start(r).len()) =~= s.skip(s.len() - trim_start(s).len()));
        assert forall|i: int| 0 <= i < s.len() - trim_start(s).len() implies is_white(
            #[trigger] s[i],
        ) by {
            if i > 0 {
                assert(s[i] == r[i - 1]);
            }
        }
    } else {
        assert(s.skip(0) =~= s);
    }
}

/// Trimming the end drops exactly the trailing run of white space: what is left is a
/// prefix of `s` that is empty or ends with a character that is not white space, and
/// everything dropped is white space.
pub proof fn lemma_trim_end_drops_trailing_white(s: Seq<char>)
    ensures
        trim_end(s).len() <= s.len(),
        trim_end(s) == s.take(trim_end(s).len() as int),
        trim_end(s).len() > 0 ==> !is_white(trim_end(s).last()),
        forall|i: int| trim_end(s).len() <= i < s.len() ==> is_white(#[trigger] s[i]),
    decreases s.len(),
{
    if s.len() > 0 && is_white(s.last()) {
        let r = s.drop_last();
        lemma_trim_end_drops_trailing_white(r);
        assert(r.take(trim_end(r).len() as int) =~= s.take(trim_end(s).len() as int));
        assert forall|i: int| trim_end(s).len() <= i < s.len() implies is_white(#[trigger] s[i]) by {
            if i < s.len() - 1 {
                assert(s[i] == r[i]);
            }
        }
    } else {
        assert(s.take(s.len() as int) =~= s);
    }
}

} // verus!
