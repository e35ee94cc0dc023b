//! Character-level helpers shared by the parsing and name-building code:
//! decimal digit sequences, character counting and searching, and exact
//! string comparison.

use vstd::prelude::*;

verus! {

/// A decimal digit character.
pub open spec fn is_digit(c: char) -> bool {
    '0' <= c && c <= '9'
}

/// Numeric value of a digit character.
pub open spec fn digit_val(c: char) -> int {
    c as int - '0' as int
}

/// Every character of `s` is a decimal digit.
pub open spec fn all_digits(s: Seq<char>) -> bool {
    forall|i: int| 0 <= i < s.len() ==> is_digit(#[trigger] s[i])
}

/// The number denoted by a digit sequence, most significant digit first.
pub open spec fn digits_val(s: Seq<char>) -> int
    decreases s.len(),
{
    if s.len() == 0 {
        0
    } else {
        digits_val(s.drop_last()) * 10 + digit_val(s.last())
    }
}

/// The digit character for a value in 0..=9.
pub open spec fn digit_char(d: int) -> char {
    if d == 0 {
        '0'
    } else if d == 1 {
        '1'
    } else if d == 2 {
        '2'
    } else if d == 3 {
        '3'
    } else if d == 4 {
        '4'
    } else if d == 5 {
        '5'
    } else if d == 6 {
        '6'
    } else if d == 7 {
        '7'
    } else if d == 8 {
        '8'
    } else {
        '9'
    }
}

/// Decimal representation of a natural number, without sign or padding.
pub open spec fn spec_u64_string(n: nat) -> Seq<char>
    decreases n,
{
    if n < 10 {
        seq![digit_char(n as int)]
    } else {
        spec_u64_string(n / 10).push(digit_char((n % 10) as int))
    }
}

/// Decimal representation of a signed number: a minus sign for negatives,
/// then the digits of the magnitude.
pub open spec fn spec_i64_string(n: int) -> Seq<char> {
    if n >= 0 {
        spec_u64_string(n as nat)
    } else {
        seq!['-'] + spec_u64_string((-n) as nat)
    }
}

/// How many times `c` occurs in `s`.
pub open spec fn count_char(s: Seq<char>, c: char) -> int
    decreases s.len(),
{
    if s.len() == 0 {
        0
    } else {
        count_char(s.drop_last(), c) + if s.last() == c {
            1int
        } else {
            0int
        }
    }
}

/// Index of the first occurrence of `c` in `s`, or -1 if there is none.
pub open spec fn first_ix(s: Seq<char>, c: char) -> int
    decreases s.len(),
{
    if s.len() == 0 {
        -1
    } else if s[0] == c {
        0
    } else {
        let r = first_ix(s.drop_first(), c);
        if r < 0 {
            -1
        } else {
            r + 1
        }
    }
}

/// Counting distributes over concatenation.
pub proof fn lemma_count_char_add(a: Seq<char>, b: Seq<char>, c: char)
    ensures
        count_char(a + b, c) == count_char(a, c) + count_char(b, c),
    decreases b.len(),
{
    if b.len() == 0 {
        assert(a + b =~= a);
    } else {
        assert((a + b).drop_last() =~= a + b.drop_last());
        assert((a + b).last() == b.last());
        lemma_count_char_add(a, b.drop_last(), c);
    }
}

/// A sequence without any occurrence of `c` counts zero.
pub proof fn lemma_count_char_zero(s: Seq<char>, c: char)
    requires
        forall|i: int| 0 <= i < s.len() ==> #[trigger] s[i] != c,
    ensures
        count_char(s, c) == 0,
    decreases s.len(),
{
    if s.len() > 0 {
        lemma_count_char_zero(s.drop_last(), c);
    }
}

/// Extending a sequence by one character adjusts the count by whether that
/// character matches.
pub proof fn lemma_count_char_push(s: Seq<char>, x: char, c: char)
    ensures
        count_char(s.push(x), c) == count_char(s, c) + if x == c {
            1int
        } else {
            0int
        },
{
    assert(s.push(x).drop_last() =~= s);
    assert(s.push(x).last() == x);
}

/// The first occurrence in a sequence extended by one character.
pub proof fn lemma_first_ix_push(s: Seq<char>, x: char, c: char)
    ensures
        first_ix(s.push(x), c) == if first_ix(s, c) >= 0 {
            first_ix(s, c)
        } else if x == c {
            s.len() as int
        } else {
            -1
        },
    decreases s.len(),
{
    reveal_with_fuel(first_ix, 2);
    if s.len() == 0 {
        assert(s.push(x)[0] == x);
        assert(s.push(x).len() == 1);
        assert(s.push(x).drop_first() =~= Seq::<char>::empty());
    } else {
        assert(s.push(x).len() == s.len() + 1);
        assert(s.push(x)[0] == s[0]);
        assert(s.push(x).drop_first() =~= s.drop_first().push(x));
        lemma_first_ix_push(s.drop_first(), x, c);
        if s[0] != c {
            let r = first_ix(s.drop_first().push(x), c);
            assert(first_ix(s.push(x), c) == if r < 0 {
                -1int
            } else {
                r + 1
            });
            let r2 = first_ix(s.drop_first(), c);
            assert(first_ix(s, c) == if r2 < 0 {
                -1int
            } else {
                r2 + 1
            });
        }
    }
}

/// `first_ix` names an occurrence, and nothing earlier matches.
pub proof fn lemma_first_ix_props(s: Seq<char>, c: char)
    ensures
        first_ix(s, c) >= 0 ==> first_ix(s, c) < s.len() && s[first_ix(s, c)] == c,
        forall|i: int| 0 <= i < first_ix(s, c) ==> #[trigger] s[i] != c,
        first_ix(s, c) == -1 ==> forall|i: int| 0 <= i < s.len() ==> #[trigger] s[i] != c,
        first_ix(s, c) >= -1,
    decreases s.len(),
{
    if s.len() > 0 && s[0] != c {
        lemma_first_ix_props(s.drop_first(), c);
        assert forall|i: int| 0 <= i < first_ix(s, c) implies #[trigger] s[i] != c by {
            if i > 0 {
                assert(s.drop_first()[i - 1] == s[i]);
            }
        }
        if first_ix(s, c) == -1 {
            assert forall|i: int| 0 <= i < s.len() implies #[trigger] s[i] != c by {
                if i > 0 {
                    assert(s.drop_first()[i - 1] == s[i]);
                }
            }
        }
    }
}

/// A digit string denotes a nonnegative number, and appending digits never
/// shrinks the value.
pub proof fn lemma_digits_val_nonneg(s: Seq<char>)
    requires
        all_digits(s),
    ensures
        digits_val(s) >= 0,
    decreases s.len(),
{
    if s.len() > 0 {
        assert(all_digits(s.drop_last())) by {
            assert(forall|i: int| 0 <= i < s.len() - 1 ==> s.drop_last()[i] == #[trigger] s[i]);
        }
        lemma_digits_val_nonneg(s.drop_last());
    }
}

/// The value of a prefix of a digit string never exceeds the whole value.
pub proof fn lemma_digits_val_prefix_le(s: Seq<char>, n: int)
    requires
        all_digits(s),
        0 <= n <= s.len(),
    ensures
        digits_val(s.take(n)) <= digits_val(s),
    decreases s.len() - n,
{
    if n < s.len() {
        lemma_digits_val_prefix_le(s, n + 1);
        assert(s.take(n + 1).drop_last() =~= s.take(n));
        assert(all_digits(s.take(n)));
        lemma_digits_val_nonneg(s.take(n));
        assert(digits_val(s.take(n + 1)) == digits_val(s.take(n)) * 10 + digit_val(s[n]));
        assert(digits_val(s.take(n)) * 10 >= digits_val(s.take(n))) by {
            lemma_digits_val_nonneg(s.take(n));
        }
    } else {
        assert(s.take(n) =~= s);
    }
}

/// Every character of a formatted natural number is a digit.
pub proof fn lemma_u64_string_digits(n: nat)
    ensures
        spec_u64_string(n).len() >= 1,
        all_digits(spec_u64_string(n)),
    decreases n,
{
    if n >= 10 {
        lemma_u64_string_digits(n / 10);
        let s = spec_u64_string(n / 10);
        let w = spec_u64_string(n);
        assert(w == s.push(digit_char((n % 10) as int)));
        assert forall|i: int| 0 <= i < w.len() implies is_digit(#[trigger] w[i]) by {
            if i < s.len() {
                assert(w[i] == s[i]);
            }
        }
    }
}

/// The digit characters of `ds`, read from the last element to the first.
pub open spec fn rev_digit_chars(ds: Seq<u64>) -> Seq<char> {
    Seq::new(ds.len(), |i: int| digit_char(ds[ds.len() - 1 - i] as int))
}

/// Appends the character of one decimal digit.
fn push_digit(s: &mut String, d: u64)
    requires
        d < 10,
    ensures
        final(s)@ == old(s)@ + seq![digit_char(d as int)],
{
    if d == 0 {
        proof {
            reveal_strlit("0");
        }
        s.append("0");
        proof {
            assert(final(s)@ =~= old(s)@ + seq![digit_char(d as int)]);
        }
    } else if d == 1 {
        proof {
            reveal_strlit("1");
        }
        s.append("1");
        proof {
            assert(final(s)@ =~= old(s)@ + seq![digit_char(d as int)]);
        }
    } else if d == 2 {
        proof {
            reveal_strlit("2");
        }
        s.append("2");
        proof {
            assert(final(s)@ =~= old(s)@ + seq![digit_char(d as int)]);
        }
    } else if d == 3 {
        proof {
            reveal_strlit("3");
        }
        s.append("3");
        proof {
            assert(final(s)@ =~= old(s)@ + seq![digit_char(d as int)]);
        }
    } else if d == 4 {
        proof {
            reveal_strlit("4");
        }
        s.append("4");
        proof {
            assert(final(s)@ =~= old(s)@ + seq![digit_char(d as int)]);
        }
    } else if d == 5 {
        proof {
            reveal_strlit("5");
        }
        s.append("5");
        proof {
            assert(final(s)@ =~= old(s)@ + seq![digit_char(d as int)]);
        }
    } else if d == 6 {
        proof {
            reveal_strlit("6");
        }
        s.append("6");
        proof {
            assert(final(s)@ =~= old(s)@ + seq![digit_char(d as int)]);
        }
    } else if d == 7 {
        proof {
            reveal_strlit("7");
        }
        s.append("7");
        proof {
            assert(final(s)@ =~= old(s)@ + seq![digit_char(d as int)]);
        }
    } else if d == 8 {
        proof {
            reveal_strlit("8");
        }
        s.append("8");
        proof {
            assert(final(s)@ =~= old(s)@ + seq![digit_char(d as int)]);
        }
    } else {
        proof {
            reveal_strlit("9");
        }
        s.append("9");
        proof {
            assert(final(s)@ =~= old(s)@ + seq![digit_char(d as int)]);
        }
    }
}

/// Formats a number in decimal, without sign or padding.
pub fn u64_to_string(n: u64) -> (r: String)
    ensures
        r@ == spec_u64_string(n as nat),
{
    if n == 0 {
        let r = String::from_str("0");
        proof {
            reveal_strlit("0");
            assert(r@ =~= spec_u64_string(0));
        }
        return r;
    }
    let mut digits: Vec<u64> = Vec::new();
    let mut m: u64 = n;
    while m > 0
        invariant
            n > 0,
            forall|k: int| 0 <= k < digits@.len() ==> #[trigger] digits@[k] < 10,
            spec_u64_string(n as nat) == (if m > 0 {
                spec_u64_string(m as nat)
            } else {
                Seq::<char>::empty()
            }) + rev_digit_chars(digits@),
        decreases m,
    {
        let d: u64 = m % 10;
        let ghost before = digits@;
        digits.push(d);
        proof {
            assert(rev_digit_chars(digits@) =~= seq![digit_char(d as int)] + rev_digit_chars(
                before,
            ));
            if m >= 10 {
                assert(spec_u64_string(m as nat) == spec_u64_string((m / 10) as nat).push(
                    digit_char((m % 10) as int),
                ));
                assert(spec_u64_string((m / 10) as nat).push(digit_char(d as int))
                    + rev_digit_chars(before) =~= spec_u64_string((m / 10) as nat) + (seq![
                    digit_char(d as int),
                ] + rev_digit_chars(before)));
            } else {
                assert(spec_u64_string(m as nat) =~= seq![digit_char(d as int)]);
                assert(spec_u64_string(m as nat) + rev_digit_chars(before) =~= Seq::<
                    char,
                >::empty() + (seq![digit_char(d as int)] + rev_digit_chars(before)));
            }
        }
        m = m / 10;
    }
    let mut r = String::new();
    let mut i: usize = digits.len();
    proof {
        assert(Seq::<char>::empty() + rev_digit_chars(digits@) =~= rev_digit_chars(digits@));
    }
    while i > 0
        invariant
            i <= digits@.len(),
            forall|k: int| 0 <= k < digits@.len() ==> #[trigger] digits@[k] < 10,
            spec_u64_string(n as nat) == rev_digit_chars(digits@),
            r@ == rev_digit_chars(digits@).take(digits@.len() - i),
        decreases i,
    {
        i = i - 1;
        let d = digits[i];
        push_digit(&mut r, d);
        proof {
            let rev = rev_digit_chars(digits@);
            let len = digits@.len() as int;
            assert(rev[len - 1 - i] == digit_char(digits@[i as int] as int));
            assert(rev.take(len - i) =~= rev.take(len - i - 1).push(rev[len - 1 - i]));
            assert(rev.take(len - i - 1).push(rev[len - 1 - i]) =~= rev.take(len - i - 1) + seq![
                digit_char(digits@[i as int] as int),
            ]);
        }
    }
    proof {
        assert(rev_digit_chars(digits@).take(digits@.len() as int) =~= rev_digit_chars(digits@));
    }
    r
}

/// Formats a signed number in decimal: a minus sign for negatives, then the
/// digits of the magnitude.
pub fn i64_to_string(v: i64) -> (r: String)
    ensures
        r@ == spec_i64_string(v as int),
{
    if v >= 0 {
        u64_to_string(v as u64)
    } else {
        let mag: u64 = if v == i64::MIN {
            9223372036854775808u64
        } else {
            (-v) as u64
        };
        let mut r = String::from_str("-");
        let ds = u64_to_string(mag);
        r.append(ds.as_str());
        proof {
            reveal_strlit("-");
            assert(r@ =~= seq!['-'] + spec_u64_string((-(v as int)) as nat));
        }
        r
    }
}

/// Exact comparison of two strings.
pub fn str_eq(a: &str, b: &str) -> (r: bool)
    ensures
        r == (a@ == b@),
{
    let la = a.unicode_len();
    let lb = b.unicode_len();
    if la != lb {
        return false;
    }
    let mut i: usize = 0;
    while i < la
        invariant
            i <= la,
            la == a@.len(),
            la == b@.len(),
            forall|j: int| 0 <= j < i ==> a@[j] == b@[j],
        decreases la - i,
    {
        if a.get_char(i) != b.get_char(i) {
            return false;
        }
        i = i + 1;
    }
    proof {
        assert(a@ =~= b@);
    }
    true
}

/// Whether `p` is a prefix of `s`.
pub fn has_prefix(s: &str, p: &str) -> (r: bool)
    ensures
        r == p@.is_prefix_of(s@),
{
    let lp = p.unicode_len();
    let ls = s.unicode_len();
    if lp > ls {
        return false;
    }
    let mut i: usize = 0;
    while i < lp
        invariant
            i <= lp,
            lp == p@.len(),
            ls == s@.len(),
            lp <= ls,
            forall|j: int| 0 <= j < i ==> p@[j] == s@[j],
        decreases lp - i,
    {
        if p.get_char(i) != s.get_char(i) {
            proof {
                assert(s@.subrange(0, lp as int)[i as int] == s@[i as int]);
            }
            return false;
        }
        i = i + 1;
    }
    proof {
        assert(p@ =~= s@.subrange(0, lp as int));
    }
    true
}

/// Whether two consecutive dots occur anywhere in `s`.
pub open spec fn spec_has_double_dot(s: Seq<char>) -> bool {
    exists|i: int| 0 <= i && i + 1 < s.len() && s[i] == '.' && #[trigger] s[i + 1] == '.'
}

/// Scans for two consecutive dots.
pub fn has_double_dot(s: &str) -> (r: bool)
    ensures
        r == spec_has_double_dot(s@),
{
    let n = s.unicode_len();
    if n < 2 {
        return false;
    }
    let mut i: usize = 0;
    while i + 1 < n
        invariant
            n == s@.len(),
            n >= 2,
            i <= n - 1,
            forall|j: int| 0 <= j && j < i ==> !(s@[j] == '.' && #[trigger] s@[j + 1] == '.'),
        decreases n - i,
    {
        if s.get_char(i) == '.' && s.get_char(i + 1) == '.' {
            return true;
        }
        i = i + 1;
    }
    false
}

/// Whether `p` is a suffix of `s`.
pub fn has_suffix(s: &str, p: &str) -> (r: bool)
    ensures
        r == p@.is_suffix_of(s@),
{
    let lp = p.unicode_len();
    let ls = s.unicode_len();
    if lp > ls {
        return false;
    }
    let base = ls - lp;
    let mut i: usize = 0;
    while i < lp
        invariant
            i <= lp,
            lp == p@.len(),
            ls == s@.len(),
            base == ls - lp,
            forall|j: int| 0 <= j < i ==> p@[j] == s@[base + j],
        decreases lp - i,
    {
        if p.get_char(i) != s.get_char(base + i) {
            proof {
                assert(s@.subrange(base as int, ls as int)[i as int] == s@[base + i]);
            }
            return false;
        }
        i = i + 1;
    }
    proof {
        assert(p@ =~= s@.subrange(base as int, ls as int));
    }
    true
}

/// Whether every character of `s` between `from` and `to` is a digit.
pub fn all_digits_range(s: &str, from: usize, to: usize) -> (r: bool)
    requires
        from <= to <= s@.len(),
    ensures
        r == all_digits(s@.subrange(from as int, to as int)),
{
    let ghost seg = s@.subrange(from as int, to as int);
    let mut i: usize = from;
    while i < to
        invariant
            from <= i <= to <= s@.len(),
            seg == s@.subrange(from as int, to as int),
            forall|j: int| 0 <= j < i - from ==> is_digit(#[trigger] seg[j]),
        decreases to - i,
    {
        let c = s.get_char(i);
        proof {
            assert(seg[i - from] == s@[i as int]);
        }
        if c < '0' || c > '9' {
            return false;
        }
        i = i + 1;
    }
    true
}

/// Parses the decimal digits of `s` between `from` and `to`. Returns the
/// value exactly when the segment is nonempty, all digits, and the value
/// fits in a `u64`.
pub fn parse_u64_digits(s: &str, from: usize, to: usize) -> (r: Option<u64>)
    requires
        from <= to <= s@.len(),
    ensures
        match r {
            Some(v) => {
                let seg = s@.subrange(from as int, to as int);
                &&& to > from
                &&& all_digits(seg)
                &&& v == digits_val(seg)
            },
            None => {
                let seg = s@.subrange(from as int, to as int);
                to == from || !all_digits(seg) || digits_val(seg) > u64::MAX
            },
        },
{
    if to == from {
        return None;
    }
    let ghost seg = s@.subrange(from as int, to as int);
    let mut acc: u64 = 0;
    let mut i: usize = from;
    while i < to
        invariant
            from <= i <= to <= s@.len(),
            seg == s@.subrange(from as int, to as int),
            all_digits(seg.take(i - from)),
            acc == digits_val(seg.take(i - from)),
        decreases to - i,
    {
        let c = s.get_char(i);
        proof {
            assert(seg[i - from] == s@[i as int]);
            assert(seg.take(i - from + 1).drop_last() =~= seg.take(i - from));
            assert(seg.take(i - from + 1).last() == seg[i - from]);
        }
        if c < '0' || c > '9' {
            proof {
                assert(!is_digit(seg[i - from]));
            }
            return None;
        }
        let d: u64 = (c as u32 - '0' as u32) as u64;
        proof {
            assert(d == digit_val(seg[i - from]));
        }
        let step = acc.checked_mul(10);
        match step {
            Some(t) => {
                match t.checked_add(d) {
                    Some(next) => {
                        acc = next;
                    },
                    None => {
                        proof {
                            lemma_parse_overflow(seg, i - from);
                        }
                        return None;
                    },
                }
            },
            None => {
                proof {
                    lemma_parse_overflow(seg, i - from);
                }
                return None;
            },
        }
        i = i + 1;
    }
    proof {
        assert(seg.take(to - from) =~= seg);
    }
    Some(acc)
}

/// When one more digit overflows a `u64` accumulator, the whole digit
/// segment (if it is all digits) denotes a value beyond `u64::MAX`.
proof fn lemma_parse_overflow(seg: Seq<char>, j: int)
    requires
        0 <= j < seg.len(),
        all_digits(seg.take(j)),
        is_digit(seg[j]),
        digits_val(seg.take(j)) * 10 + digit_val(seg[j]) > u64::MAX,
    ensures
        !all_digits(seg) || digits_val(seg) > u64::MAX,
{
    if all_digits(seg) {
        assert(seg.take(j + 1).drop_last() =~= seg.take(j));
        assert(seg.take(j + 1).last() == seg[j]);
        assert(digits_val(seg.take(j + 1)) == digits_val(seg.take(j)) * 10 + digit_val(seg[j]));
        lemma_digits_val_prefix_le(seg, j + 1);
    }
}

/// Counts occurrences of `c` in `s` between `from` and `to`, and finds
/// the first.
pub fn scan_char_range(s: &str, from: usize, to: usize, c: char) -> (r: (usize, Option<usize>))
    requires
        from <= to <= s@.len(),
    ensures
        r.0 == count_char(s@.subrange(from as int, to as int), c),
        match r.1 {
            Some(ix) => from <= ix < to && first_ix(s@.subrange(from as int, to as int), c) == ix
                - from,
            None => first_ix(s@.subrange(from as int, to as int), c) == -1,
        },
{
    let ghost t = s@.subrange(from as int, to as int);
    let mut cnt: usize = 0;
    let mut found: Option<usize> = None;
    let mut i: usize = from;
    proof {
        assert(t.take(0) =~= Seq::<char>::empty());
    }
    while i < to
        invariant
            from <= i <= to <= s@.len(),
            t == s@.subrange(from as int, to as int),
            cnt <= i - from,
            cnt == count_char(t.take(i - from), c),
            match found {
                Some(ix) => from <= ix < i && first_ix(t.take(i - from), c) == ix - from,
                None => first_ix(t.take(i - from), c) == -1,
            },
        decreases to - i,
    {
        let x = s.get_char(i);
        proof {
            assert(t[i - from] == s@[i as int]);
            assert(t.take(i - from + 1) =~= t.take(i - from).push(t[i - from]));
            lemma_count_char_push(t.take(i - from), t[i - from], c);
            lemma_first_ix_push(t.take(i - from), t[i - from], c);
        }
        if x == c {
            cnt = cnt + 1;
            if found.is_none() {
                found = Some(i);
            }
        }
        i = i + 1;
    }
    proof {
        assert(t.take(to - from) =~= t);
    }
    (cnt, found)
}

/// Counts occurrences of `c` in `s` at or after `from`, and finds the first.
pub fn scan_char(s: &str, from: usize, c: char) -> (r: (usize, Option<usize>))
    requires
        from <= s@.len(),
    ensures
        r.0 == count_char(s@.skip(from as int), c),
        match r.1 {
            Some(ix) => from <= ix < s@.len() && first_ix(s@.skip(from as int), c) == ix - from,
            None => first_ix(s@.skip(from as int), c) == -1,
        },
{
    let ghost t = s@.skip(from as int);
    let n = s.unicode_len();
    let mut cnt: usize = 0;
    let mut found: Option<usize> = None;
    let mut i: usize = from;
    proof {
        assert(t.take(0) =~= Seq::<char>::empty());
    }
    while i < n
        invariant
            from <= i <= n,
            n == s@.len(),
            t == s@.skip(from as int),
            cnt <= i - from,
            cnt == count_char(t.take(i - from), c),
            match found {
                Some(ix) => from <= ix < i && first_ix(t.take(i - from), c) == ix - from,
                None => first_ix(t.take(i - from), c) == -1,
            },
        decreases n - i,
    {
        let x = s.get_char(i);
        proof {
            assert(t[i - from] == s@[i as int]);
            assert(t.take(i - from + 1) =~= t.take(i - from).push(t[i - from]));
            lemma_count_char_push(t.take(i - from), t[i - from], c);
            lemma_first_ix_push(t.take(i - from), t[i - from], c);
        }
        if x == c {
            cnt = cnt + 1;
            if found.is_none() {
                found = Some(i);
            }
        }
        i = i + 1;
    }
    proof {
        assert(t.take(n - from) =~= t);
    }
    (cnt, found)
}

/// A whitespace character as the text being parsed may carry around
/// a token: space, tab, or a line break.
pub open spec fn spec_is_ws(c: char) -> bool {
    c == ' ' || c == '\t' || c == '\n' || c == '\r'
}

/// The text with leading and trailing whitespace removed.
pub open spec fn spec_trim(s: Seq<char>) -> Seq<char>
    decreases s.len(),
{
    if s.len() > 0 && spec_is_ws(s.first()) {
        spec_trim(s.drop_first())
    } else if s.len() > 0 && spec_is_ws(s.last()) {
        spec_trim(s.drop_last())
    } else {
        s
    }
}

pub fn is_ws_char(c: char) -> (r: bool)
    ensures
        r == spec_is_ws(c),
{
    c == ' ' || c == '\t' || c == '\n' || c == '\r'
}



/// Finds the bounds of the whitespace-trimmed segment of `s` between
/// `from` and `to`.
pub fn trim_bounds(s: &str, from: usize, to: usize) -> (r: (usize, usize))
    requires
        from <= to <= s@.len(),
    ensures
        from <= r.0 <= r.1 <= to,
        spec_trim(s@.subrange(from as int, to as int)) == s@.subrange(r.0 as int, r.1 as int),
{
    let mut lo: usize = from;
    let mut hi: usize = to;
    while lo < hi && is_ws_char(s.get_char(lo))
        invariant
            from <= lo <= hi <= to <= s@.len(),
            spec_trim(s@.subrange(from as int, to as int)) == spec_trim(
                s@.subrange(lo as int, hi as int),
            ),
        decreases hi - lo,
    {
        proof {
            let t = s@.subrange(lo as int, hi as int);
            assert(t.first() == s@[lo as int]);
            assert(t.drop_first() =~= s@.subrange(lo as int + 1, hi as int));
        }
        lo = lo + 1;
    }
    while lo < hi && is_ws_char(s.get_char(hi - 1))
        invariant
            from <= lo <= hi <= to <= s@.len(),
            spec_trim(s@.subrange(from as int, to as int)) == spec_trim(
                s@.subrange(lo as int, hi as int),
            ),
            lo == hi || !spec_is_ws(s@[lo as int]),
        decreases hi - lo,
    {
        proof {
            let t = s@.subrange(lo as int, hi as int);
            assert(t.first() == s@[lo as int]);
            assert(t.last() == s@[hi - 1]);
            assert(t.drop_last() =~= s@.subrange(lo as int, hi as int - 1));
        }
        hi = hi - 1;
    }
    proof {
        let t = s@.subrange(lo as int, hi as int);
        if lo < hi {
            assert(t.first() == s@[lo as int]);
            assert(t.last() == s@[hi - 1]);
        }
        assert(spec_trim(t) == t);
    }
    (lo, hi)
}

} // verus!
