//! Verified helpers over strings: trimming, window matching, substring
//! search, equality and lexicographic comparison by code point.

use vstd::prelude::*;
use vstd::string::StrSliceExecFns;

verus! {

/// ASCII whitespace: the characters stripped from the ends of parsed fields.
pub open spec fn is_space(c: char) -> bool {
    c == ' ' || c == '\t' || c == '\r' || c == '\n'
}

/// `s` with leading whitespace removed.
pub open spec fn trim_front(s: Seq<char>) -> Seq<char>
    decreases s.len(),
{
    if s.len() > 0 && is_space(s[0]) {
        trim_front(s.skip(1))
    } else {
        s
    }
}

/// `s` with trailing whitespace removed.
pub open spec fn trim_back(s: Seq<char>) -> Seq<char>
    decreases s.len(),
{
    if s.len() > 0 && is_space(s.last()) {
        trim_back(s.drop_last())
    } else {
        s
    }
}

/// `s` with whitespace removed from both ends.
pub open spec fn trimmed(s: Seq<char>) -> Seq<char> {
    trim_back(trim_front(s))
}

proof fn lemma_trim_front_at(s: Seq<char>, a: int)
    requires
        0 <= a <= s.len(),
        forall|k: int| 0 <= k < a ==> is_space(s[k]),
        a == s.len() || !is_space(s[a]),
    ensures
        trim_front(s) == s.skip(a),
    decreases a,
{
    if a == 0 {
        assert(s.skip(0) =~= s);
    } else {
        lemma_trim_front_at(s.skip(1), a - 1);
        assert(s.skip(1).skip(a - 1) =~= s.skip(a));
    }
}

proof fn lemma_trim_back_at(s: Seq<char>, b: int)
    requires
        0 <= b <= s.len(),
        forall|k: int| b <= k < s.len() ==> is_space(s[k]),
        b == 0 || !is_space(s[b - 1]),
    ensures
        trim_back(s) == s.take(b),
    decreases s.len(),
{
    if b == s.len() {
        assert(s.take(b) =~= s);
    } else {
        lemma_trim_back_at(s.drop_last(), b);
        assert(s.drop_last().take(b) =~= s.take(b));
    }
}

/// Decides [`is_space`] on one character.
pub fn space_char(c: char) -> (r: bool)
    ensures
        r == is_space(c),
{
    c == ' ' || c == '\t' || c == '\r' || c == '\n'
}

/// Strips ASCII whitespace from both ends of `s`.
pub fn trim_str(s: &str) -> (r: &str)
    ensures
        r@ == trimmed(s@),
{
    let n = s.unicode_len();
    let mut a: usize = 0;
    while a < n && space_char(s.get_char(a))
        invariant
            a <= n,
            n == s@.len(),
            forall|k: int| 0 <= k < a ==> is_space(s@[k]),
        decreases n - a,
    {
        a = a + 1;
    }
    let mut b: usize = n;
    while b > a && space_char(s.get_char(b - 1))
        invariant
            a <= b <= n,
            n == s@.len(),
            forall|k: int| b <= k < n ==> is_space(s@[k]),
        decreases b,
    {
        b = b - 1;
    }
    proof {
        lemma_trim_front_at(s@, a as int);
        let t = s@.skip(a as int);
        lemma_trim_back_at(t, b - a);
        assert(t.take(b - a) =~= s@.subrange(a as int, b as int));
    }
    s.substring_char(a, b)
}

/// True if `m` occurs in `s` starting exactly at index `k`.
pub open spec fn match_at(s: Seq<char>, m: Seq<char>, k: int) -> bool {
    0 <= k && k + m.len() <= s.len() && s.subrange(k, k + m.len()) == m
}

/// True if `m` occurs somewhere in `s`.
pub open spec fn contains_seq(s: Seq<char>, m: Seq<char>) -> bool {
    exists|k: int| match_at(s, m, k)
}

/// Compares `m` against the window of `s` that starts at index `k`.
pub fn matches_at(s: &str, k: usize, m: &str) -> (r: bool)
    requires
        k <= s@.len(),
    ensures
        r == match_at(s@, m@, k as int),
{
    let n = s.unicode_len();
    let ml = m.unicode_len();
    if ml > n - k {
        return false;
    }
    let mut i: usize = 0;
    while i < ml
        invariant
            i <= ml,
            ml == m@.len(),
            n == s@.len(),
            k + ml <= n,
            forall|j: int| 0 <= j < i ==> s@[k + j] == m@[j],
        decreases ml - i,
    {
        if s.get_char(k + i) != m.get_char(i) {
            proof {
                assert(s@.subrange(k as int, k + ml)[i as int] == s@[k + i]);
            }
            return false;
        }
        i = i + 1;
    }
    proof {
        assert(s@.subrange(k as int, k + ml) =~= m@);
    }
    true
}

/// Decides whether the views of `a` and `b` are the same character sequence.
pub fn str_eq(a: &str, b: &str) -> (r: bool)
    ensures
        r == (a@ == b@),
{
    let r = a.unicode_len() == b.unicode_len() && matches_at(a, 0, b);
    proof {
        if a@.len() == b@.len() && match_at(a@, b@, 0) {
            assert(a@.subrange(0, b@.len() as int) =~= a@);
        }
        if a@ == b@ {
            assert(a@.subrange(0, b@.len() as int) =~= b@);
        }
    }
    r
}

/// Decides whether `p@` is a prefix of `t@`.
pub fn starts_with(t: &str, p: &str) -> (r: bool)
    ensures
        r == match_at(t@, p@, 0),
{
    matches_at(t, 0, p)
}

/// Decides whether `m@` occurs anywhere in `s@`.
pub fn contains_str(s: &str, m: &str) -> (r: bool)
    requires
        m@.len() >= 1,
    ensures
        r == contains_seq(s@, m@),
{
    let n = s.unicode_len();
    let ml = m.unicode_len();
    if ml > n {
        proof {
            assert forall|k: int| !match_at(s@, m@, k) by {}
        }
        return false;
    }
    let last = n - ml;
    let mut k: usize = 0;
    while k <= last
        invariant
            k <= last + 1,
            last == n - ml,
            1 <= ml <= n,
            n == s@.len(),
            ml == m@.len(),
            forall|j: int| 0 <= j < k ==> !match_at(s@, m@, j),
        decreases last + 1 - k,
    {
        if matches_at(s, k, m) {
            proof {
                assert(match_at(s@, m@, k as int));
            }
            return true;
        }
        k = k + 1;
    }
    proof {
        assert forall|j: int| !match_at(s@, m@, j) by {
            if 0 <= j <= last {
                assert(!match_at(s@, m@, j));
            }
        }
    }
    false
}

/// Lexicographic order on character sequences, comparing code points.
pub open spec fn lex_le(a: Seq<char>, b: Seq<char>) -> bool
    decreases a.len(),
{
    if a.len() == 0 {
        true
    } else if b.len() == 0 {
        false
    } else if a[0] == b[0] {
        lex_le(a.skip(1), b.skip(1))
    } else {
        (a[0] as int) < (b[0] as int)
    }
}

/// The lexicographic order relates every pair of sequences one way or the other.
pub proof fn lemma_lex_total(a: Seq<char>, b: Seq<char>)
    ensures
        lex_le(a, b) || lex_le(b, a),
    decreases a.len(),
{
    if a.len() > 0 && b.len() > 0 {
        if a[0] == b[0] {
            lemma_lex_total(a.skip(1), b.skip(1));
        } else {
            assert((a[0] as int) != (b[0] as int));
        }
    }
}

/// The lexicographic order is transitive.
pub proof fn lemma_lex_trans(a: Seq<char>, b: Seq<char>, c: Seq<char>)
    requires
        lex_le(a, b),
        lex_le(b, c),
    ensures
        lex_le(a, c),
    decreases a.len(),
{
    if a.len() > 0 && b.len() > 0 && c.len() > 0 && a[0] == b[0] && b[0] == c[0] {
        lemma_lex_trans(a.skip(1), b.skip(1), c.skip(1));
    }
}

proof fn lemma_lex_skip(a: Seq<char>, b: Seq<char>, i: int)
    requires
        0 <= i <= a.len(),
        i <= b.len(),
        forall|k: int| 0 <= k < i ==> a[k] == b[k],
    ensures
        lex_le(a, b) == lex_le(a.skip(i), b.skip(i)),
    decreases i,
{
    if i == 0 {
        assert(a.skip(0) =~= a);
        assert(b.skip(0) =~= b);
    } else {
        lemma_lex_skip(a.skip(1), b.skip(1), i - 1);
        assert(a.skip(1).skip(i - 1) =~= a.skip(i));
        assert(b.skip(1).skip(i - 1) =~= b.skip(i));
    }
}

/// Decides the lexicographic order on the views of `a` and `b`.
pub fn lex_le_str(a: &str, b: &str) -> (r: bool)
    ensures
        r == lex_le(a@, b@),
{
    let na = a.unicode_len();
    let nb = b.unicode_len();
    let mut i: usize = 0;
    while i < na && i < nb
        invariant
            i <= na,
            i <= nb,
            na == a@.len(),
            nb == b@.len(),
            forall|k: int| 0 <= k < i ==> a@[k] == b@[k],
        decreases na - i,
    {
        let ca = a.get_char(i);
        let cb = b.get_char(i);
        if ca != cb {
            proof {
                lemma_lex_skip(a@, b@, i as int);
            }
            return ca < cb;
        }
        i = i + 1;
    }
    proof {
        lemma_lex_skip(a@, b@, i as int);
    }
    na <= nb
}

/// The views of a sequence of strings.
pub open spec fn str_views(v: Seq<String>) -> Seq<Seq<char>> {
    v.map_values(|x: String| x@)
}

/// Splits `s` at each leftmost, non-overlapping occurrence of the non-empty
/// marker `m`, as `str::split` does; markers are not part of any piece.
pub open spec fn split_seq(s: Seq<char>, m: Seq<char>) -> Seq<Seq<char>>
    decreases s.len(),
{
    if m.len() == 0 || s.len() < m.len() {
        seq![s]
    } else if s.take(m.len() as int) == m {
        seq![Seq::<char>::empty()] + split_seq(s.skip(m.len() as int), m)
    } else {
        let rest = split_seq(s.skip(1), m);
        seq![seq![s[0]] + rest[0]] + rest.skip(1)
    }
}

proof fn lemma_match_at_shift(s: Seq<char>, m: Seq<char>, d: int, k: int)
    requires
        0 <= d <= s.len(),
        0 <= k,
    ensures
        match_at(s.skip(d), m, k) == match_at(s, m, d + k),
{
    if k + m.len() <= s.len() - d {
        assert(s.skip(d).subrange(k, k + m.len()) =~= s.subrange(d + k, d + k + m.len()));
    }
}

proof fn lemma_split_seq_no_match(s: Seq<char>, m: Seq<char>)
    requires
        m.len() >= 1,
        forall|k: int| !match_at(s, m, k),
    ensures
        split_seq(s, m) == seq![s],
    decreases s.len(),
{
    if s.len() >= m.len() {
        assert(s.take(m.len() as int) == s.subrange(0, m.len() as int));
        assert(!match_at(s, m, 0));
        assert forall|k: int| !match_at(s.skip(1), m, k) by {
            if k >= 0 {
                lemma_match_at_shift(s, m, 1, k);
            }
        }
        lemma_split_seq_no_match(s.skip(1), m);
        let rest = split_seq(s.skip(1), m);
        assert(seq![s[0]] + s.skip(1) =~= s);
        assert(split_seq(s, m) =~= seq![s]);
    }
}

proof fn lemma_split_seq_first_match(s: Seq<char>, m: Seq<char>, j: int)
    requires
        m.len() >= 1,
        match_at(s, m, j),
        forall|k: int| 0 <= k < j ==> !match_at(s, m, k),
    ensures
        split_seq(s, m) == seq![s.take(j)] + split_seq(s.skip(j + m.len()), m),
    decreases j,
{
    if j == 0 {
        assert(s.take(m.len() as int) == s.subrange(0, m.len() as int));
        assert(s.take(0) =~= Seq::<char>::empty());
        assert(split_seq(s, m) =~= seq![s.take(0)] + split_seq(s.skip(m.len() as int), m));
    } else {
        assert(s.take(m.len() as int) == s.subrange(0, m.len() as int));
        assert(!match_at(s, m, 0));
        assert(match_at(s.skip(1), m, j - 1)) by {
            lemma_match_at_shift(s, m, 1, j - 1);
        }
        assert forall|k: int| 0 <= k < j - 1 implies !match_at(s.skip(1), m, k) by {
            lemma_match_at_shift(s, m, 1, k);
        }
        lemma_split_seq_first_match(s.skip(1), m, j - 1);
        let tail = split_seq(s.skip(1).skip(j - 1 + m.len()), m);
        assert(s.skip(1).skip(j - 1 + m.len()) =~= s.skip(j + m.len()));
        let rest = split_seq(s.skip(1), m);
        assert(rest == seq![s.skip(1).take(j - 1)] + split_seq(s.skip(j + m.len()), m));
        assert(rest[0] == s.skip(1).take(j - 1));
        assert(seq![s[0]] + s.skip(1).take(j - 1) =~= s.take(j));
        assert(rest.skip(1) =~= split_seq(s.skip(j + m.len()), m));
        assert(split_seq(s, m) =~= seq![s.take(j)] + split_seq(s.skip(j + m.len()), m));
    }
}

/// Splits `s` at each leftmost occurrence of the non-empty marker `m`.
pub fn split_str(s: &str, m: &str) -> (r: Vec<String>)
    requires
        m@.len() >= 1,
    ensures
        str_views(r@) == split_seq(s@, m@),
{
    let n = s.unicode_len();
    let ml = m.unicode_len();
    let mut r: Vec<String> = Vec::new();
    let mut seg: usize = 0;
    let mut i: usize = 0;
    proof {
        assert(s@.skip(0) =~= s@);
        assert(str_views(r@) + split_seq(s@, m@) =~= split_seq(s@, m@));
    }
    while ml <= n - i
        invariant
            seg <= i,
            i <= n,
            n == s@.len(),
            ml == m@.len(),
            ml >= 1,
            forall|k: int| seg <= k < i ==> !match_at(s@, m@, k),
            split_seq(s@, m@) == str_views(r@) + split_seq(s@.skip(seg as int), m@),
        decreases n - i,
    {
        if matches_at(s, i, m) {
            let piece = s.substring_char(seg, i).to_owned();
            proof {
                let t = s@.skip(seg as int);
                assert forall|k: int| 0 <= k < i - seg implies !match_at(t, m@, k) by {
                    lemma_match_at_shift(s@, m@, seg as int, k);
                }
                assert(match_at(t, m@, i - seg)) by {
                    lemma_match_at_shift(s@, m@, seg as int, i - seg);
                }
                lemma_split_seq_first_match(t, m@, i - seg);
                assert(t.take(i - seg) =~= s@.subrange(seg as int, i as int));
                assert(t.skip(i - seg + m@.len()) =~= s@.skip(i + m@.len()));
                assert(str_views(r@.push(piece)) =~= str_views(r@) + seq![piece@]);
                assert((str_views(r@) + seq![piece@]) + split_seq(s@.skip(i + m@.len()), m@)
                    =~= str_views(r@) + (seq![piece@] + split_seq(s@.skip(i + m@.len()), m@)));
            }
            r.push(piece);
            i = i + ml;
            seg = i;
        } else {
            i = i + 1;
        }
    }
    let piece = s.substring_char(seg, n).to_owned();
    proof {
        let t = s@.skip(seg as int);
        assert forall|k: int| !match_at(t, m@, k) by {
            if 0 <= k && k + m@.len() <= t.len() {
                lemma_match_at_shift(s@, m@, seg as int, k);
                assert(seg + k < i || !match_at(s@, m@, seg + k));
            }
        }
        lemma_split_seq_no_match(t, m@);
        assert(t =~= s@.subrange(seg as int, n as int));
        assert(str_views(r@.push(piece)) =~= str_views(r@) + seq![piece@]);
        assert(str_views(r@) + seq![t] =~= split_seq(s@, m@));
    }
    r.push(piece);
    r
}

/// The ten decimal digit characters.
pub open spec fn is_digit(c: char) -> bool {
    c == '0' || c == '1' || c == '2' || c == '3' || c == '4' || c == '5' || c == '6' || c == '7'
        || c == '8' || c == '9'
}

/// The digit character for `d`; meaningful for `0 <= d <= 9`.
pub open spec fn dec_digit(d: int) -> char {
    if d == 0 {
        '0'
    } else if d == 1 {
        '1'
    } else if d == 2 {
        '2'
    } else if d == 3 {
        '3'
    } else if d == 4 {
        '4'
    } else if d == 5 {
        '5'
    } else if d == 6 {
        '6'
    } else if d == 7 {
        '7'
    } else if d == 8 {
        '8'
    } else {
        '9'
    }
}

/// The numeric value of a digit character; meaningful for digits only.
pub open spec fn digit_val(c: char) -> int {
    if c == '0' {
        0
    } else if c == '1' {
        1
    } else if c == '2' {
        2
    } else if c == '3' {
        3
    } else if c == '4' {
        4
    } else if c == '5' {
        5
    } else if c == '6' {
        6
    } else if c == '7' {
        7
    } else if c == '8' {
        8
    } else {
        9
    }
}

/// The decimal rendering of `n`, most significant digit first; meaningful
/// for `n >= 0`.
pub open spec fn dec_rep(n: int) -> Seq<char>
    decreases n,
{
    if n < 10 {
        seq![dec_digit(n)]
    } else {
        dec_rep(n / 10) + seq![dec_digit(n % 10)]
    }
}

/// A decimal rendering consists of digit characters alone.
pub proof fn lemma_dec_rep_digits(n: int)
    ensures
        forall|i: int| 0 <= i < dec_rep(n).len() ==> is_digit(#[trigger] dec_rep(n)[i]),
    decreases n,
{
    if n >= 10 {
        lemma_dec_rep_digits(n / 10);
    }
    assert forall|i: int| 0 <= i < dec_rep(n).len() implies is_digit(#[trigger] dec_rep(n)[i]) by {
        if n < 10 {
            assert(dec_rep(n)[i] == dec_digit(n));
        } else if i < dec_rep(n / 10).len() {
            assert(dec_rep(n)[i] == dec_rep(n / 10)[i]);
        } else {
            assert(dec_rep(n)[i] == dec_digit(n % 10));
        }
    }
}

fn digit_str(d: u64) -> (r: &'static str)
    requires
        d < 10,
    ensures
        r@ == seq![dec_digit(d as int)],
{
    let r: &'static str = if d == 0 {
        "0"
    } else if d == 1 {
        "1"
    } else if d == 2 {
        "2"
    } else if d == 3 {
        "3"
    } else if d == 4 {
        "4"
    } else if d == 5 {
        "5"
    } else if d == 6 {
        "6"
    } else if d == 7 {
        "7"
    } else if d == 8 {
        "8"
    } else {
        "9"
    };
    proof {
        reveal_strlit("0");
        reveal_strlit("1");
        reveal_strlit("2");
        reveal_strlit("3");
        reveal_strlit("4");
        reveal_strlit("5");
        reveal_strlit("6");
        reveal_strlit("7");
        reveal_strlit("8");
        reveal_strlit("9");
        assert(r@ =~= seq![dec_digit(d as int)]);
    }
    r
}

/// Renders `n` in decimal.
pub fn u64_to_string(n: u64) -> (r: String)
    ensures
        r@ == dec_rep(n as int),
    decreases n,
{
    if n < 10 {
        digit_str(n).to_owned()
    } else {
        let mut r = u64_to_string(n / 10);
        r.append(digit_str(n % 10));
        r
    }
}

/// The numeric value of a digit string, most significant digit first.
pub open spec fn digits_val(s: Seq<char>) -> int
    decreases s.len(),
{
    if s.len() == 0 {
        0
    } else {
        digits_val(s.drop_last()) * 10 + digit_val(s.last())
    }
}

/// True if every character of `s` is a decimal digit.
pub open spec fn all_digits(s: Seq<char>) -> bool {
    forall|i: int| 0 <= i < s.len() ==> is_digit(#[trigger] s[i])
}

/// The digit part of a number string: an optional leading '+' is skipped.
pub open spec fn number_digits(s: Seq<char>) -> Seq<char> {
    if s.len() > 0 && s[0] == '+' {
        s.skip(1)
    } else {
        s
    }
}

/// True exactly when `str::parse::<u16>` accepts `s`: an optional leading
/// '+', then one or more decimal digits, with a value of at most 65535.
pub open spec fn is_u16_string(s: Seq<char>) -> bool {
    let d = number_digits(s);
    d.len() > 0 && all_digits(d) && digits_val(d) <= 65535
}

proof fn lemma_digits_val_nonneg(s: Seq<char>)
    ensures
        digits_val(s) >= 0,
    decreases s.len(),
{
    if s.len() > 0 {
        lemma_digits_val_nonneg(s.drop_last());
    }
}

proof fn lemma_digits_val_grows(s: Seq<char>, j: int)
    requires
        0 <= j <= s.len(),
    ensures
        digits_val(s.take(j)) <= digits_val(s),
    decreases s.len() - j,
{
    if j == s.len() {
        assert(s.take(j) =~= s);
    } else {
        lemma_digits_val_grows(s, j + 1);
        let t = s.take(j + 1);
        assert(t.drop_last() =~= s.take(j));
        lemma_digits_val_nonneg(s.take(j));
        assert(digits_val(s.take(j)) <= digits_val(t));
    }
}

fn digit_of(c: char) -> (r: Option<u32>)
    ensures
        match r {
            Some(v) => is_digit(c) && v == digit_val(c),
            None => !is_digit(c),
        },
{
    match c {
        '0' => Some(0),
        '1' => Some(1),
        '2' => Some(2),
        '3' => Some(3),
        '4' => Some(4),
        '5' => Some(5),
        '6' => Some(6),
        '7' => Some(7),
        '8' => Some(8),
        '9' => Some(9),
        _ => None,
    }
}

/// Parses `s` as `str::parse::<u16>` would: `Some` exactly on strings of an
/// optional '+' and then digits whose value fits, `None` on all others.
pub fn parse_u16(s: &str) -> (r: Option<u16>)
    ensures
        match r {
            Some(v) => is_u16_string(s@) && v as int == digits_val(number_digits(s@)),
            None => !is_u16_string(s@),
        },
{
    let n = s.unicode_len();
    let start: usize = if n > 0 && s.get_char(0) == '+' {
        1
    } else {
        0
    };
    let ghost d = number_digits(s@);
    proof {
        assert(d =~= s@.skip(start as int));
    }
    if start == n {
        return None;
    }
    let mut val: u32 = 0;
    let mut i: usize = start;
    while i < n
        invariant
            start <= i <= n,
            n == s@.len(),
            start <= 1,
            d == s@.skip(start as int),
            d == number_digits(s@),
            all_digits(d.take(i - start)),
            val <= 65535,
            val as int == digits_val(d.take(i - start)),
        decreases n - i,
    {
        let c = s.get_char(i);
        proof {
            assert(d[i - start] == s@[i as int]);
        }
        match digit_of(c) {
            None => {
                proof {
                    assert(!is_digit(d[i - start]));
                }
                return None;
            },
            Some(dv) => {
                let next: u32 = val * 10 + dv;
                proof {
                    assert(d.take(i - start + 1).drop_last() =~= d.take(i - start));
                    assert(digits_val(d.take(i - start + 1)) == val * 10 + digit_val(c));
                }
                if next > 65535 {
                    proof {
                        lemma_digits_val_grows(d, i - start + 1);
                        lemma_digits_val_nonneg(d);
                    }
                    return None;
                }
                val = next;
            },
        }
        i = i + 1;
    }
    proof {
        assert(d.take(n - start) =~= d);
    }
    Some(val as u16)
}

} // verus!
