//! Character-level text toolkit shared by the rest of the library.
//!
//! Strings are reasoned about through their view, a `Seq<char>`. Byte
//! lengths are the UTF-8 lengths of those characters (`byte_len`), which
//! is what `str::len` reports.

use vstd::prelude::*;

verus! {

// ---------------------------------------------------------------------
// UTF-8 widths
// ---------------------------------------------------------------------

/// The number of bytes `c` takes in UTF-8.
pub open spec fn char_width(c: char) -> nat {
    if (c as u32) < 0x80 {
        1
    } else if (c as u32) < 0x800 {
        2
    } else if (c as u32) < 0x10000 {
        3
    } else {
        4
    }
}

/// The UTF-8 length of a character sequence, in bytes.
pub open spec fn byte_len(s: Seq<char>) -> nat
    decreases s.len(),
{
    if s.len() == 0 {
        0
    } else {
        byte_len(s.drop_last()) + char_width(s.last())
    }
}

pub proof fn lemma_byte_len_push(s: Seq<char>, c: char)
    ensures
        byte_len(s.push(c)) == byte_len(s) + char_width(c),
{
    assert(s.push(c).drop_last() =~= s);
}

pub proof fn lemma_byte_len_take_step(s: Seq<char>, i: int)
    requires
        0 <= i < s.len(),
    ensures
        byte_len(s.take(i + 1)) == byte_len(s.take(i)) + char_width(s[i]),
{
    assert(s.take(i + 1) =~= s.take(i).push(s[i]));
    lemma_byte_len_push(s.take(i), s[i]);
}

pub proof fn lemma_byte_len_concat(a: Seq<char>, b: Seq<char>)
    ensures
        byte_len(a + b) == byte_len(a) + byte_len(b),
    decreases b.len(),
{
    if b.len() == 0 {
        assert(a + b =~= a);
    } else {
        assert((a + b).drop_last() =~= a + b.drop_last());
        lemma_byte_len_concat(a, b.drop_last());
    }
}

pub proof fn lemma_byte_len_prefix_mono(s: Seq<char>, i: int, j: int)
    requires
        0 <= i <= j <= s.len(),
    ensures
        byte_len(s.take(i)) <= byte_len(s.take(j)),
    decreases j - i,
{
    if i < j {
        lemma_byte_len_take_step(s, j - 1);
        lemma_byte_len_prefix_mono(s, i, j - 1);
    }
}

/// `byte_len` is the length of vstd's UTF-8 encoding of the sequence.
pub proof fn lemma_byte_len_is_encoded_len(s: Seq<char>)
    ensures
        byte_len(s) == vstd::utf8::encode_utf8(s).len(),
    decreases s.len(),
{
    if s.len() > 0 {
        let c = s.last();
        let u = c as u32;
        assert(vstd::utf8::is_scalar(u)) by {
            vstd::utf8::char_is_scalar(c);
        }
        lemma_encode_concat(s.drop_last(), seq![c]);
        assert(s.drop_last() + seq![c] =~= s);
        lemma_byte_len_is_encoded_len(s.drop_last());
        assert(seq![c].drop_first() =~= Seq::<char>::empty());
        assert(vstd::utf8::encode_utf8(Seq::<char>::empty()) =~= Seq::<u8>::empty());
        assert(vstd::utf8::encode_utf8(seq![c]) =~= vstd::utf8::encode_scalar(u) + Seq::<u8>::empty());
    }
}

proof fn lemma_encode_concat(a: Seq<char>, b: Seq<char>)
    ensures
        vstd::utf8::encode_utf8(a + b) =~= vstd::utf8::encode_utf8(a) + vstd::utf8::encode_utf8(b),
    decreases a.len(),
{
    if a.len() == 0 {
        assert(a + b =~= b);
    } else {
        assert((a + b).drop_first() =~= a.drop_first() + b);
        lemma_encode_concat(a.drop_first(), b);
    }
}

/// The UTF-8 width of one character.
pub fn char_width_of(c: char) -> (w: usize)
    ensures
        w == char_width(c),
{
    let u = c as u32;
    if u < 0x80 {
        1
    } else if u < 0x800 {
        2
    } else if u < 0x10000 {
        3
    } else {
        4
    }
}

// ---------------------------------------------------------------------
// Conversions between `str`, `String` and `Vec<char>`
// ---------------------------------------------------------------------

/// The characters of `s`, in order.
pub fn chars_of(s: &str) -> (v: Vec<char>)
    ensures
        v@ == s@,
{
    let mut v: Vec<char> = Vec::new();
    for c in it: s.chars()
        invariant
            v@ == it.seq().take(it.index()),
    {
        v.push(c);
    }
    v
}

/// Appends one character; `String::push`.
#[verifier::external_body]
fn push_char(s: &mut String, c: char)
    ensures
        final(s)@ == old(s)@.push(c),
{
    s.push(c);
}

/// Appends a character slice to `out`.
pub fn push_chars(out: &mut String, v: &[char])
    ensures
        final(out)@ == old(out)@ + v@,
{
    let mut i: usize = 0;
    while i < v.len()
        invariant
            i <= v.len(),
            out@ == old(out)@ + v@.take(i as int),
        decreases v.len() - i,
    {
        push_char(out, v[i]);
        assert(v@.take(i as int + 1) =~= v@.take(i as int).push(v@[i as int]));
        i += 1;
    }
    assert(v@.take(v.len() as int) =~= v@);
}

/// Appends one character to `out`.
pub fn push_one(out: &mut String, c: char)
    ensures
        final(out)@ == old(out)@.push(c),
{
    push_char(out, c);
}

/// Appends a string slice to `out`.
pub fn push_str(out: &mut String, t: &str)
    ensures
        final(out)@ == old(out)@ + t@,
{
    out.append(t);
}

/// A fresh `String` holding exactly `v`.
pub fn string_of(v: &[char]) -> (s: String)
    ensures
        s@ == v@,
{
    let mut s = String::new();
    push_chars(&mut s, v);
    s
}

/// A fresh `String` holding exactly `t`.
pub fn owned(t: &str) -> (s: String)
    ensures
        s@ == t@,
{
    String::from_str(t)
}

/// Character-wise equality of two slices.
pub fn chars_eq(a: &[char], b: &[char]) -> (r: bool)
    ensures
        r == (a@ == b@),
{
    if a.len() != b.len() {
        return false;
    }
    let mut i: usize = 0;
    while i < a.len()
        invariant
            a.len() == b.len(),
            i <= a.len(),
            forall|j: int| 0 <= j < i ==> a@[j] == b@[j],
        decreases a.len() - i,
    {
        if a[i] != b[i] {
            return false;
        }
        i += 1;
    }
    assert(a@ =~= b@);
    true
}

/// Equality of two string slices, by their characters.
pub fn str_eq(a: &str, b: &str) -> (r: bool)
    ensures
        r == (a@ == b@),
{
    let va = chars_of(a);
    let vb = chars_of(b);
    chars_eq(va.as_slice(), vb.as_slice())
}

// ---------------------------------------------------------------------
// Prefixes, suffixes and searching
// ---------------------------------------------------------------------

/// `p` is a prefix of `s`.
pub open spec fn starts_with(s: Seq<char>, p: Seq<char>) -> bool {
    p.len() <= s.len() && s.take(p.len() as int) == p
}

/// `p` is a suffix of `s`.
pub open spec fn ends_with(s: Seq<char>, p: Seq<char>) -> bool {
    p.len() <= s.len() && s.skip(s.len() - p.len()) == p
}

/// Whether `v[start..]` begins with `p`.
pub fn has_prefix_at(v: &[char], start: usize, p: &[char]) -> (r: bool)
    requires
        start <= v.len(),
    ensures
        r == starts_with(v@.skip(start as int), p@),
{
    if p.len() > v.len() - start {
        return false;
    }
    let mut i: usize = 0;
    while i < p.len()
        invariant
            start + p.len() <= v.len(),
            i <= p.len(),
            forall|j: int| 0 <= j < i ==> v@[start + j] == p@[j],
        decreases p.len() - i,
    {
        if v[start + i] != p[i] {
            assert(v@.skip(start as int).take(p.len() as int)[i as int] != p@[i as int]);
            return false;
        }
        i += 1;
    }
    assert(v@.skip(start as int).take(p.len() as int) =~= p@);
    true
}

/// The index of the first occurrence of `c` in `s`.
pub open spec fn find_char(s: Seq<char>, c: char) -> Option<int>
    decreases s.len(),
{
    if s.len() == 0 {
        None
    } else if s[0] == c {
        Some(0)
    } else {
        match find_char(s.drop_first(), c) {
            Some(i) => Some(i + 1),
            None => None,
        }
    }
}

pub proof fn lemma_find_char(s: Seq<char>, c: char)
    ensures
        find_char(s, c) matches Some(i) ==> {
            &&& 0 <= i < s.len()
            &&& s[i] == c
            &&& forall|j: int| 0 <= j < i ==> s[j] != c
        },
        find_char(s, c) is None ==> forall|j: int| 0 <= j < s.len() ==> s[j] != c,
    decreases s.len(),
{
    if s.len() > 0 {
        lemma_find_char(s.drop_first(), c);
        if s[0] != c {
            assert forall|j: int| 1 <= j < s.len() implies s[j] == s.drop_first()[j - 1] by {}
        }
    }
}

/// `find_char` is pinned down by the first position holding `c`.
pub proof fn lemma_find_char_at(s: Seq<char>, c: char, i: int)
    requires
        0 <= i < s.len(),
        s[i] == c,
        forall|j: int| 0 <= j < i ==> s[j] != c,
    ensures
        find_char(s, c) == Some(i),
{
    lemma_find_char(s, c);
    if let Some(k) = find_char(s, c) {
        if k < i {
            assert(s[k] != c);
        } else if k > i {
            assert(s[i] != c);
        }
    }
}

pub proof fn lemma_find_char_none(s: Seq<char>, c: char)
    requires
        forall|j: int| 0 <= j < s.len() ==> s[j] != c,
    ensures
        find_char(s, c) is None,
{
    lemma_find_char(s, c);
}

/// The first index at or after `start` holding `c`, as an absolute index.
pub fn index_of_char_from(v: &[char], c: char, start: usize) -> (r: Option<usize>)
    requires
        start <= v.len(),
    ensures
        r matches Some(i) ==> start <= i < v.len() && find_char(v@.skip(start as int), c) == Some(
            i - start,
        ),
        r is None ==> find_char(v@.skip(start as int), c) is None,
{
    let mut i = start;
    while i < v.len()
        invariant
            start <= i <= v.len(),
            forall|j: int| start <= j < i ==> v@[j] != c,
        decreases v.len() - i,
    {
        if v[i] == c {
            proof {
                lemma_find_char_at(v@.skip(start as int), c, i - start);
            }
            return Some(i);
        }
        i += 1;
    }
    proof {
        lemma_find_char_none(v@.skip(start as int), c);
    }
    None
}

// ---------------------------------------------------------------------
// Decimal numbers
// ---------------------------------------------------------------------

/// The ASCII digit for `d < 10`.
pub open spec fn digit_char(d: nat) -> char {
    if d == 0 {
        '0'
    } else if d == 1 {
        '1'
    } else if d == 2 {
        '2'
    } else if d == 3 {
        '3'
    } else if d == 4 {
        '4'
    } else if d == 5 {
        '5'
    } else if d == 6 {
        '6'
    } else if d == 7 {
        '7'
    } else if d == 8 {
        '8'
    } else {
        '9'
    }
}

/// Whether `c` is an ASCII digit.
pub open spec fn is_digit(c: char) -> bool {
    '0' as u32 <= c as u32 <= '9' as u32
}

/// The value of an ASCII digit.
pub open spec fn digit_value(c: char) -> nat {
    (c as u32 - '0' as u32) as nat
}

/// Every character of `s` is an ASCII digit.
pub open spec fn all_digits(s: Seq<char>) -> bool {
    forall|i: int| 0 <= i < s.len() ==> is_digit(#[trigger] s[i])
}

/// The base-10 value of a digit string.
pub open spec fn digits_value(s: Seq<char>) -> nat
    decreases s.len(),
{
    if s.len() == 0 {
        0
    } else {
        digits_value(s.drop_last()) * 10 + digit_value(s.last())
    }
}

/// The decimal rendering of `n`, as `u64`'s `Display` writes it.
pub open spec fn decimal(n: nat) -> Seq<char>
    decreases n,
{
    if n < 10 {
        seq![digit_char(n)]
    } else {
        decimal(n / 10).push(digit_char(n % 10))
    }
}

/// `s` without one leading `+`, if it has one.
pub open spec fn unsigned_digits(s: Seq<char>) -> Seq<char> {
    if s.len() > 0 && s[0] == '+' {
        s.drop_first()
    } else {
        s
    }
}

/// What `str::parse::<u64>` accepts: an optional `+`, then one or more
/// ASCII digits whose value fits in a `u64`.
pub open spec fn parse_u64(s: Seq<char>) -> Option<u64> {
    let d = unsigned_digits(s);
    if d.len() > 0 && all_digits(d) && digits_value(d) <= u64::MAX {
        Some(digits_value(d) as u64)
    } else {
        None
    }
}

proof fn lemma_digit_char(d: nat)
    requires
        d < 10,
    ensures
        is_digit(digit_char(d)),
        digit_value(digit_char(d)) == d,
{
}

pub proof fn lemma_decimal(n: nat)
    ensures
        decimal(n).len() >= 1,
        all_digits(decimal(n)),
        digits_value(decimal(n)) == n,
        n < 10 ==> decimal(n).len() == 1,
        n >= 10 ==> decimal(n).len() >= 2,
    decreases n,
{
    if n < 10 {
        lemma_digit_char(n);
        assert(decimal(n).drop_last() =~= Seq::<char>::empty());
        assert(digits_value(decimal(n)) == digits_value(Seq::<char>::empty()) * 10 + digit_value(
            digit_char(n),
        ));
    } else {
        lemma_decimal(n / 10);
        lemma_digit_char(n % 10);
        assert(decimal(n).drop_last() =~= decimal(n / 10));
        assert(decimal(n).last() == digit_char(n % 10));
        assert((n / 10) * 10 + n % 10 == n) by (nonlinear_arith);
        assert(digits_value(decimal(n)) == digits_value(decimal(n / 10)) * 10 + digit_value(
            digit_char(n % 10),
        ));
        assert forall|i: int| 0 <= i < decimal(n).len() implies is_digit(#[trigger] decimal(n)[i]) by {
            if i < decimal(n / 10).len() {
                assert(decimal(n)[i] == decimal(n / 10)[i]);
            }
        }
    }
}

/// A string of ASCII characters takes one byte per character.
pub proof fn lemma_ascii_byte_len(s: Seq<char>)
    requires
        forall|i: int| 0 <= i < s.len() ==> (#[trigger] s[i] as u32) < 0x80,
    ensures
        byte_len(s) == s.len(),
    decreases s.len(),
{
    if s.len() > 0 {
        lemma_ascii_byte_len(s.drop_last());
    }
}

/// A decimal rendering takes one byte per digit.
pub proof fn lemma_decimal_byte_len(n: nat)
    ensures
        byte_len(decimal(n)) == decimal(n).len(),
{
    lemma_decimal(n);
    assert forall|i: int| 0 <= i < decimal(n).len() implies (#[trigger] decimal(n)[i] as u32) < 0x80 by {
        assert(is_digit(decimal(n)[i]));
    }
    lemma_ascii_byte_len(decimal(n));
}

/// A larger number never has fewer digits.
pub proof fn lemma_decimal_len_mono(n: nat, m: nat)
    requires
        n <= m,
    ensures
        decimal(n).len() <= decimal(m).len(),
    decreases m,
{
    lemma_decimal(n);
    lemma_decimal(m);
    if n >= 10 {
        assert(n / 10 <= m / 10) by (nonlinear_arith)
            requires
                n <= m,
        ;
        assert(m / 10 < m);
        lemma_decimal_len_mono(n / 10, m / 10);
        assert(decimal(n).len() == decimal(n / 10).len() + 1);
        assert(decimal(m).len() == decimal(m / 10).len() + 1);
    }
}

/// The digits of a decimal rendering hold no character other than `0`-`9`.
pub proof fn lemma_decimal_has_no(n: nat, c: char)
    requires
        !is_digit(c),
    ensures
        find_char(decimal(n), c) is None,
{
    lemma_decimal(n);
    assert forall|j: int| 0 <= j < decimal(n).len() implies decimal(n)[j] != c by {
        assert(is_digit(decimal(n)[j]));
    }
    lemma_find_char_none(decimal(n), c);
}

pub proof fn lemma_parse_decimal(n: u64)
    ensures
        parse_u64(decimal(n as nat)) == Some(n),
{
    lemma_decimal(n as nat);
    assert(is_digit(decimal(n as nat)[0]));
}

proof fn lemma_digits_value_prefix(s: Seq<char>, k: int)
    requires
        0 <= k <= s.len(),
        all_digits(s),
    ensures
        digits_value(s.take(k)) <= digits_value(s),
        all_digits(s.take(k)),
    decreases s.len() - k,
{
    if k < s.len() {
        assert(s.drop_last().take(k) =~= s.take(k));
        assert(all_digits(s.drop_last())) by {
            assert forall|i: int| 0 <= i < s.drop_last().len() implies is_digit(
                #[trigger] s.drop_last()[i],
            ) by {
                assert(s.drop_last()[i] == s[i]);
            }
        }
        lemma_digits_value_prefix(s.drop_last(), k);
    } else {
        assert(s.take(k) =~= s);
    }
}

fn digit_of(c: char) -> (r: Option<u64>)
    ensures
        r matches Some(d) ==> is_digit(c) && d == digit_value(c),
        r is None ==> !is_digit(c),
{
    let u = c as u32;
    if u >= 48 && u <= 57 {
        Some((u - 48) as u64)
    } else {
        None
    }
}

/// `str::parse::<u64>` on the characters of `v` from index `from` on.
pub fn parse_u64_from(v: &[char], from: usize) -> (r: Option<u64>)
    requires
        from <= v.len(),
    ensures
        r == parse_u64(v@.skip(from as int)),
{
    let ghost src = v@.skip(from as int);
    let start: usize = if from < v.len() && v[from] == '+' {
        from + 1
    } else {
        from
    };
    let ghost d = v@.skip(start as int);
    proof {
        if src.len() > 0 && src[0] == '+' {
            assert(d =~= src.drop_first());
        } else {
            assert(d =~= src);
        }
        assert(d =~= unsigned_digits(src));
    }
    if start == v.len() {
        return None;
    }
    let mut acc: u64 = 0;
    let mut i: usize = start;
    while i < v.len()
        invariant
            from <= start <= i <= v.len(),
            d == v@.skip(start as int),
            d == unsigned_digits(src),
            src == v@.skip(from as int),
            all_digits(d.take(i - start)),
            acc as nat == digits_value(d.take(i - start)),
        decreases v.len() - i,
    {
        let ghost k = i - start;
        assert(d.take(k + 1).drop_last() =~= d.take(k));
        assert(d.take(k + 1).last() == v@[i as int]);
        match digit_of(v[i]) {
            None => {
                assert(!all_digits(d)) by {
                    assert(d[k] == v@[i as int]);
                    assert(!is_digit(d[k]));
                }
                return None;
            },
            Some(dv) => {
                if acc > (u64::MAX - dv) / 10 {
                    proof {
                        assert(all_digits(d.take(k + 1))) by {
                            assert forall|j: int| 0 <= j < k + 1 implies is_digit(
                                #[trigger] d.take(k + 1)[j],
                            ) by {
                                if j < k {
                                    assert(d.take(k + 1)[j] == d.take(k)[j]);
                                }
                            }
                        }
                        assert(acc * 10 + dv > u64::MAX) by (nonlinear_arith)
                            requires
                                acc > (u64::MAX - dv) / 10,
                                dv < 10,
                        ;
                        assert(digits_value(d.take(k + 1)) > u64::MAX);
                        if all_digits(d) {
                            lemma_digits_value_prefix(d, k + 1);
                        }
                    }
                    return None;
                }
                acc = acc * 10 + dv;
                proof {
                    assert forall|j: int| 0 <= j < k + 1 implies is_digit(
                        #[trigger] d.take(k + 1)[j],
                    ) by {
                        if j < k {
                            assert(d.take(k + 1)[j] == d.take(k)[j]);
                        }
                    }
                }
                i += 1;
            },
        }
    }
    assert(d.take(i - start) =~= d);
    Some(acc)
}

/// `str::parse::<u64>` on a string slice.
pub fn parse_u64_str(s: &str) -> (r: Option<u64>)
    ensures
        r == parse_u64(s@),
{
    let v = chars_of(s);
    proof {
        assert(v@.skip(0) =~= v@);
    }
    parse_u64_from(v.as_slice(), 0)
}

fn digit_char_of(d: u64) -> (c: char)
    requires
        d < 10,
    ensures
        c == digit_char(d as nat),
{
    if d == 0 {
        '0'
    } else if d == 1 {
        '1'
    } else if d == 2 {
        '2'
    } else if d == 3 {
        '3'
    } else if d == 4 {
        '4'
    } else if d == 5 {
        '5'
    } else if d == 6 {
        '6'
    } else if d == 7 {
        '7'
    } else if d == 8 {
        '8'
    } else {
        '9'
    }
}

/// Appends the decimal rendering of `n`.
pub fn push_decimal(out: &mut String, n: u64)
    ensures
        final(out)@ == old(out)@ + decimal(n as nat),
    decreases n,
{
    if n >= 10 {
        push_decimal(out, n / 10);
    }
    let c = digit_char_of(n % 10);
    push_char(out, c);
    proof {
        if n >= 10 {
            assert(old(out)@ + decimal(n as nat) =~= old(out)@ + decimal((n / 10) as nat) + seq![c]);
        } else {
            assert(old(out)@ + decimal(n as nat) =~= old(out)@ + seq![c]);
        }
    }
}

/// The decimal rendering of `n` as a fresh `String`.
pub fn decimal_string(n: u64) -> (s: String)
    ensures
        s@ == decimal(n as nat),
{
    let mut s = String::new();
    push_decimal(&mut s, n);
    assert(s@ =~= decimal(n as nat));
    s
}

// ---------------------------------------------------------------------
// Byte-bounded prefixes
// ---------------------------------------------------------------------

/// `k` is the number of characters of the longest prefix of `s` whose
/// UTF-8 length is at most `max` bytes.
pub open spec fn is_byte_cut(s: Seq<char>, max: nat, k: int) -> bool {
    &&& 0 <= k <= s.len()
    &&& byte_len(s.take(k)) <= max
    &&& k < s.len() ==> byte_len(s.take(k + 1)) > max
}

/// The longest-prefix cut is unique.
pub proof fn lemma_byte_cut_unique(s: Seq<char>, max: nat, k1: int, k2: int)
    requires
        is_byte_cut(s, max, k1),
        is_byte_cut(s, max, k2),
    ensures
        k1 == k2,
{
    if k1 < k2 {
        lemma_byte_len_prefix_mono(s, k1 + 1, k2);
    } else if k2 < k1 {
        lemma_byte_len_prefix_mono(s, k2 + 1, k1);
    }
}

/// A longest-prefix cut always exists.
pub proof fn lemma_byte_cut_exists(s: Seq<char>, max: nat)
    ensures
        exists|k: int| is_byte_cut(s, max, k),
    decreases s.len(),
{
    if byte_len(s) <= max {
        assert(s.take(s.len() as int) =~= s);
        assert(is_byte_cut(s, max, s.len() as int));
    } else {
        let d = s.drop_last();
        lemma_byte_cut_exists(d, max);
        let k = choose|k: int| is_byte_cut(d, max, k);
        assert(d.take(k) =~= s.take(k));
        if k < d.len() {
            assert(d.take(k + 1) =~= s.take(k + 1));
        } else {
            assert(s.take(k + 1) =~= s);
        }
        assert(is_byte_cut(s, max, k));
    }
}

/// The longest prefix of `s` of at most `max` UTF-8 bytes.
pub open spec fn byte_prefix(s: Seq<char>, max: nat) -> Seq<char> {
    s.take(choose|k: int| is_byte_cut(s, max, k))
}

/// `byte_prefix` is the prefix at the cut.
pub proof fn lemma_byte_prefix(s: Seq<char>, max: nat, k: int)
    requires
        is_byte_cut(s, max, k),
    ensures
        byte_prefix(s, max) == s.take(k),
{
    lemma_byte_cut_exists(s, max);
    let c = choose|c: int| is_byte_cut(s, max, c);
    lemma_byte_cut_unique(s, max, c, k);
}

/// The number of characters of the longest prefix of `v` that fits in
/// `max` bytes.
pub fn byte_cut(v: &[char], max: usize) -> (k: usize)
    ensures
        is_byte_cut(v@, max as nat, k as int),
{
    let mut total: usize = 0;
    let mut i: usize = 0;
    while i < v.len()
        invariant
            i <= v.len(),
            total == byte_len(v@.take(i as int)),
            total <= max,
        decreases v.len() - i,
    {
        let w = char_width_of(v[i]);
        proof {
            lemma_byte_len_take_step(v@, i as int);
        }
        if w > max - total {
            return i;
        }
        total = total + w;
        i += 1;
    }
    assert(v@.take(i as int) =~= v@);
    i
}

/// The UTF-8 length of `v`, in bytes.
pub fn byte_len_of(v: &[char]) -> (n: usize)
    requires
        byte_len(v@) <= usize::MAX,
    ensures
        n == byte_len(v@),
{
    let mut total: usize = 0;
    let mut i: usize = 0;
    while i < v.len()
        invariant
            i <= v.len(),
            total == byte_len(v@.take(i as int)),
            byte_len(v@) <= usize::MAX,
        decreases v.len() - i,
    {
        proof {
            lemma_byte_len_take_step(v@, i as int);
            lemma_byte_len_prefix_mono(v@, i as int + 1, v.len() as int);
            assert(v@.take(v.len() as int) =~= v@);
        }
        total = total + char_width_of(v[i]);
        i += 1;
    }
    assert(v@.take(i as int) =~= v@);
    total
}

/// The byte length of a string slice; `str::len`.
pub fn str_byte_len(s: &str) -> (n: usize)
    ensures
        n == byte_len(s@),
{
    proof {
        lemma_byte_len_is_encoded_len(s@);
    }
    let b = s.as_bytes();
    b.len()
}

// ---------------------------------------------------------------------
// Lines, joins and path segments
// ---------------------------------------------------------------------

/// A line without its trailing carriage return, if it has one.
pub open spec fn strip_cr(l: Seq<char>) -> Seq<char> {
    if l.len() > 0 && l.last() == '\r' {
        l.drop_last()
    } else {
        l
    }
}

/// `str::lines`: split at `\n`, drop a `\r` before each `\n`; a final
/// line ending adds no empty line, and an empty text has no lines.
pub open spec fn lines(s: Seq<char>) -> Seq<Seq<char>>
    decreases s.len(),
{
    if s.len() == 0 {
        Seq::empty()
    } else {
        match find_char(s, '\n') {
            None => seq![s],
            Some(i) => {
                proof {
                    lemma_find_char(s, '\n');
                }
                seq![strip_cr(s.take(i))] + lines(s.skip(i + 1))
            },
        }
    }
}

/// The pieces joined with `sep` between each neighbouring pair.
pub open spec fn join(parts: Seq<Seq<char>>, sep: Seq<char>) -> Seq<char>
    decreases parts.len(),
{
    if parts.len() == 0 {
        Seq::empty()
    } else if parts.len() == 1 {
        parts[0]
    } else {
        join(parts.drop_last(), sep) + sep + parts.last()
    }
}

/// The non-empty runs between `/` separators.
pub open spec fn path_segments(s: Seq<char>) -> Seq<Seq<char>>
    decreases s.len(),
{
    if s.len() == 0 {
        Seq::empty()
    } else {
        match find_char(s, '/') {
            None => seq![s],
            Some(i) => {
                proof {
                    lemma_find_char(s, '/');
                }
                if i == 0 {
                    path_segments(s.skip(1))
                } else {
                    seq![s.take(i)] + path_segments(s.skip(i + 1))
                }
            },
        }
    }
}

/// The non-empty `/`-separated segments of `v`.
pub fn segments_of(v: &[char]) -> (ls: Vec<Vec<char>>)
    ensures
        ls@.map_values(|l: Vec<char>| l@) == path_segments(v@),
{
    let mut ls: Vec<Vec<char>> = Vec::new();
    let mut start: usize = 0;
    assert(v@.skip(0) =~= v@);
    assert(ls@.map_values(|l: Vec<char>| l@) + path_segments(v@) =~= path_segments(v@));
    while start < v.len()
        invariant
            start <= v.len(),
            path_segments(v@) == ls@.map_values(|l: Vec<char>| l@) + path_segments(
                v@.skip(start as int),
            ),
        decreases v.len() - start,
    {
        let ghost rest = v@.skip(start as int);
        let ghost before = ls@.map_values(|l: Vec<char>| l@);
        match index_of_char_from(v, '/', start) {
            None => {
                let seg = copy_range(v, start, v.len());
                ls.push(seg);
                proof {
                    assert(path_segments(rest) == seq![rest]);
                    assert(ls@.map_values(|l: Vec<char>| l@) =~= before.push(rest));
                    assert(v@.skip(v.len() as int) =~= Seq::<char>::empty());
                    assert(before + seq![rest] =~= before.push(rest));
                }
                start = v.len();
            },
            Some(i) => {
                proof {
                    assert(rest.skip(i - start + 1) =~= v@.skip(i + 1));
                }
                if i > start {
                    let seg = copy_range(v, start, i);
                    ls.push(seg);
                    proof {
                        assert(seg@ =~= rest.take(i - start));
                        assert(ls@.map_values(|l: Vec<char>| l@) =~= before.push(seg@));
                        assert(before + (seq![seg@] + path_segments(v@.skip(i + 1))) =~= before.push(
                            seg@,
                        ) + path_segments(v@.skip(i + 1)));
                    }
                } else {
                    proof {
                        assert(rest.skip(1) =~= v@.skip(i + 1));
                    }
                }
                start = i + 1;
            },
        }
    }
    assert(v@.skip(start as int) =~= Seq::<char>::empty());
    assert(ls@.map_values(|l: Vec<char>| l@) + Seq::<Seq<char>>::empty() =~= ls@.map_values(
        |l: Vec<char>| l@,
    ));
    ls
}

/// The lines of `v`, as `str::lines` yields them.
pub fn lines_of(v: &[char]) -> (ls: Vec<Vec<char>>)
    ensures
        ls@.map_values(|l: Vec<char>| l@) == lines(v@),
{
    let mut ls: Vec<Vec<char>> = Vec::new();
    let mut start: usize = 0;
    assert(v@.skip(0) =~= v@);
    assert(ls@.map_values(|l: Vec<char>| l@) + lines(v@) =~= lines(v@));
    while start < v.len()
        invariant
            start <= v.len(),
            lines(v@) == ls@.map_values(|l: Vec<char>| l@) + lines(v@.skip(start as int)),
        decreases v.len() - start,
    {
        let ghost rest = v@.skip(start as int);
        let ghost before = ls@.map_values(|l: Vec<char>| l@);
        match index_of_char_from(v, '\n', start) {
            None => {
                let line = copy_range(v, start, v.len());
                ls.push(line);
                proof {
                    assert(lines(rest) == seq![rest]);
                    assert(ls@.map_values(|l: Vec<char>| l@) =~= before.push(rest));
                    assert(v@.skip(v.len() as int) =~= Seq::<char>::empty());
                    assert(before + seq![rest] =~= before.push(rest));
                }
                start = v.len();
            },
            Some(i) => {
                let mut end = i;
                if end > start && v[end - 1] == '\r' {
                    end = end - 1;
                }
                let line = copy_range(v, start, end);
                ls.push(line);
                proof {
                    let k = i - start;
                    assert(strip_cr(rest.take(k)) =~= line@);
                    assert(rest.skip(k + 1) =~= v@.skip(i + 1));
                    assert(lines(rest) == seq![strip_cr(rest.take(k))] + lines(rest.skip(k + 1)));
                    assert(ls@.map_values(|l: Vec<char>| l@) =~= before.push(line@));
                    assert(before + (seq![line@] + lines(v@.skip(i + 1))) =~= before.push(line@)
                        + lines(v@.skip(i + 1)));
                }
                start = i + 1;
            },
        }
    }
    assert(v@.skip(start as int) =~= Seq::<char>::empty());
    assert(ls@.map_values(|l: Vec<char>| l@) + Seq::<Seq<char>>::empty() =~= ls@.map_values(
        |l: Vec<char>| l@,
    ));
    ls
}

/// A copy of `v[from..to]`.
pub fn copy_range(v: &[char], from: usize, to: usize) -> (r: Vec<char>)
    requires
        from <= to <= v.len(),
    ensures
        r@ == v@.subrange(from as int, to as int),
{
    let mut r: Vec<char> = Vec::new();
    let mut i = from;
    while i < to
        invariant
            from <= i <= to <= v.len(),
            r@ == v@.subrange(from as int, i as int),
        decreases to - i,
    {
        r.push(v[i]);
        assert(v@.subrange(from as int, i + 1) =~= v@.subrange(from as int, i as int).push(v@[i as int]));
        i += 1;
    }
    r
}

/// Appends the first `n` parts to `out`, joined with `sep`.
pub fn push_joined_first(out: &mut String, parts: &Vec<Vec<char>>, n: usize, sep: &str)
    requires
        n <= parts.len(),
    ensures
        final(out)@ == old(out)@ + join(parts@.map_values(|l: Vec<char>| l@).take(n as int), sep@),
{
    let ghost ps = parts@.map_values(|l: Vec<char>| l@);
    let mut i: usize = 0;
    while i < n
        invariant
            i <= n <= parts.len(),
            ps == parts@.map_values(|l: Vec<char>| l@),
            out@ == old(out)@ + join(ps.take(i as int), sep@),
        decreases n - i,
    {
        if i > 0 {
            push_str(out, sep);
        }
        push_chars(out, parts[i].as_slice());
        proof {
            assert(ps.take(i as int + 1).drop_last() =~= ps.take(i as int));
            if i == 0 {
                assert(ps.take(1) =~= seq![parts@[0]@]);
            }
        }
        i += 1;
    }
}

/// Appends the parts to `out`, joined with `sep`.
pub fn push_joined(out: &mut String, parts: &Vec<Vec<char>>, sep: &str)
    ensures
        final(out)@ == old(out)@ + join(parts@.map_values(|l: Vec<char>| l@), sep@),
{
    let ghost ps = parts@.map_values(|l: Vec<char>| l@);
    let mut i: usize = 0;
    while i < parts.len()
        invariant
            i <= parts.len(),
            ps == parts@.map_values(|l: Vec<char>| l@),
            out@ == old(out)@ + join(ps.take(i as int), sep@),
        decreases parts.len() - i,
    {
        if i > 0 {
            push_str(out, sep);
        }
        push_chars(out, parts[i].as_slice());
        proof {
            assert(ps.take(i as int + 1).drop_last() =~= ps.take(i as int));
            if i == 0 {
                assert(ps.take(1) =~= seq![parts@[0]@]);
            }
        }
        i += 1;
    }
    assert(ps.take(i as int) =~= ps);
}

// ---------------------------------------------------------------------
// Whitespace and trimming
// ---------------------------------------------------------------------

/// `char::is_whitespace`: the Unicode `White_Space` property.
pub open spec fn is_ws(c: char) -> bool {
    let u = c as u32;
    ||| 0x9 <= u <= 0xD
    ||| u == 0x20
    ||| u == 0x85
    ||| u == 0xA0
    ||| u == 0x1680
    ||| 0x2000 <= u <= 0x200A
    ||| u == 0x2028
    ||| u == 0x2029
    ||| u == 0x202F
    ||| u == 0x205F
    ||| u == 0x3000
}

/// `char::is_whitespace`.
pub fn is_ws_char(c: char) -> (r: bool)
    ensures
        r == is_ws(c),
{
    let u = c as u32;
    (0x9 <= u && u <= 0xD) || u == 0x20 || u == 0x85 || u == 0xA0 || u == 0x1680 || (0x2000 <= u
        && u <= 0x200A) || u == 0x2028 || u == 0x2029 || u == 0x202F || u == 0x205F || u == 0x3000
}

/// Drop trailing characters satisfying `p`.
pub open spec fn trim_end_by(s: Seq<char>, p: spec_fn(char) -> bool) -> Seq<char>
    decreases s.len(),
{
    if s.len() > 0 && p(s.last()) {
        trim_end_by(s.drop_last(), p)
    } else {
        s
    }
}

/// Drop leading characters satisfying `p`.
pub open spec fn trim_start_by(s: Seq<char>, p: spec_fn(char) -> bool) -> Seq<char>
    decreases s.len(),
{
    if s.len() > 0 && p(s[0]) {
        trim_start_by(s.drop_first(), p)
    } else {
        s
    }
}

/// `char::is_whitespace` as a predicate.
pub open spec fn ws_pred() -> spec_fn(char) -> bool {
    |c: char| is_ws(c)
}

/// `str::trim_end`.
pub open spec fn trim_end(s: Seq<char>) -> Seq<char> {
    trim_end_by(s, ws_pred())
}

/// `str::trim_start`.
pub open spec fn trim_start(s: Seq<char>) -> Seq<char> {
    trim_start_by(s, ws_pred())
}

/// `str::trim`.
pub open spec fn trim(s: Seq<char>) -> Seq<char> {
    trim_start(trim_end(s))
}

/// The end index after dropping trailing characters of `v[from..to]`
/// that satisfy the class `p` (decided by `test`).
pub fn trim_end_index(v: &[char], from: usize, to: usize, p: Ghost<spec_fn(char) -> bool>, test: impl Fn(char) -> bool) -> (e: usize)
    requires
        from <= to <= v.len(),
        forall|c: char| #[trigger] test.requires((c,)),
        forall|c: char, b: bool| test.ensures((c,), b) ==> b == p@(c),
    ensures
        from <= e <= to,
        v@.subrange(from as int, e as int) == trim_end_by(v@.subrange(from as int, to as int), p@),
{
    let mut e = to;
    let mut done = false;
    while e > from && !done
        invariant
            from <= e <= to <= v.len(),
            forall|c: char| #[trigger] test.requires((c,)),
            forall|c: char, b: bool| test.ensures((c,), b) ==> b == p@(c),
            trim_end_by(v@.subrange(from as int, to as int), p@) == trim_end_by(
                v@.subrange(from as int, e as int),
                p@,
            ),
            done ==> e > from && !p@(v@[e - 1]),
        decreases (e - from) * 2 + (if done { 0int } else { 1int }),
    {
        let c = v[e - 1];
        let b = test(c);
        if !b {
            done = true;
        } else {
            assert(v@.subrange(from as int, e as int).drop_last() =~= v@.subrange(
                from as int,
                e - 1,
            ));
            e = e - 1;
        }
    }
    assert(v@.subrange(from as int, e as int).len() == 0 || v@.subrange(from as int, e as int).last() == v@[e - 1]);
    e
}

/// The start index after dropping leading characters of `v[from..to]`
/// that satisfy the class `p` (decided by `test`).
pub fn trim_start_index(v: &[char], from: usize, to: usize, p: Ghost<spec_fn(char) -> bool>, test: impl Fn(char) -> bool) -> (b: usize)
    requires
        from <= to <= v.len(),
        forall|c: char| #[trigger] test.requires((c,)),
        forall|c: char, r: bool| test.ensures((c,), r) ==> r == p@(c),
    ensures
        from <= b <= to,
        v@.subrange(b as int, to as int) == trim_start_by(v@.subrange(from as int, to as int), p@),
{
    let mut b = from;
    let mut done = false;
    while b < to && !done
        invariant
            from <= b <= to <= v.len(),
            forall|c: char| #[trigger] test.requires((c,)),
            forall|c: char, r: bool| test.ensures((c,), r) ==> r == p@(c),
            trim_start_by(v@.subrange(from as int, to as int), p@) == trim_start_by(
                v@.subrange(b as int, to as int),
                p@,
            ),
            done ==> b < to && !p@(v@[b as int]),
        decreases (to - b) * 2 + (if done { 0int } else { 1int }),
    {
        let c = v[b];
        let r = test(c);
        if !r {
            done = true;
        } else {
            assert(v@.subrange(b as int, to as int).drop_first() =~= v@.subrange(
                b + 1,
                to as int,
            ));
            b = b + 1;
        }
    }
    assert(v@.subrange(b as int, to as int).len() == 0 || v@.subrange(b as int, to as int)[0] == v@[b as int]);
    b
}

// ---------------------------------------------------------------------
// Substring search
// ---------------------------------------------------------------------

/// The index of the first occurrence of `p` in `s`.
pub open spec fn find_seq(s: Seq<char>, p: Seq<char>) -> Option<int>
    decreases s.len(),
{
    if starts_with(s, p) {
        Some(0)
    } else if s.len() == 0 {
        None
    } else {
        match find_seq(s.drop_first(), p) {
            Some(i) => Some(i + 1),
            None => None,
        }
    }
}

pub proof fn lemma_find_seq(s: Seq<char>, p: Seq<char>)
    ensures
        find_seq(s, p) matches Some(i) ==> {
            &&& 0 <= i <= s.len()
            &&& starts_with(s.skip(i), p)
            &&& forall|j: int| 0 <= j < i ==> !starts_with(#[trigger] s.skip(j), p)
        },
        find_seq(s, p) is None ==> forall|j: int| 0 <= j <= s.len() ==> !starts_with(
            #[trigger] s.skip(j),
            p,
        ),
    decreases s.len(),
{
    assert(s.skip(0) =~= s);
    if !starts_with(s, p) && s.len() > 0 {
        lemma_find_seq(s.drop_first(), p);
        assert forall|j: int| 1 <= j <= s.len() implies s.skip(j) =~= s.drop_first().skip(
            j - 1,
        ) by {}
    }
}

proof fn lemma_find_seq_at(s: Seq<char>, p: Seq<char>, i: int)
    requires
        0 <= i <= s.len(),
        starts_with(s.skip(i), p),
        forall|j: int| 0 <= j < i ==> !starts_with(#[trigger] s.skip(j), p),
    ensures
        find_seq(s, p) == Some(i),
{
    lemma_find_seq(s, p);
    if let Some(k) = find_seq(s, p) {
        if k < i {
            assert(!starts_with(s.skip(k), p));
        } else if k > i {
            assert(!starts_with(s.skip(i), p));
        }
    }
}

/// The first index at which `p` occurs in `v`.
pub fn find_seq_in(v: &[char], p: &[char]) -> (r: Option<usize>)
    ensures
        r matches Some(i) ==> find_seq(v@, p@) == Some(i as int),
        r is None ==> find_seq(v@, p@) is None,
{
    let mut i: usize = 0;
    while i < v.len()
        invariant
            i <= v.len(),
            forall|j: int| 0 <= j < i ==> !starts_with(#[trigger] v@.skip(j), p@),
        decreases v.len() - i,
    {
        if has_prefix_at(v, i, p) {
            proof {
                lemma_find_seq_at(v@, p@, i as int);
            }
            return Some(i);
        }
        i += 1;
    }
    if has_prefix_at(v, i, p) {
        proof {
            lemma_find_seq_at(v@, p@, i as int);
        }
        return Some(i);
    }
    proof {
        lemma_find_seq(v@, p@);
    }
    None
}

/// `s.trim_end()` as an owned string.
pub(crate) fn trim_end_string(s: &str) -> (r: String)
    ensures
        r@ == trim_end(s@),
{
    let v = chars_of(s);
    let e = trim_end_index(v.as_slice(), 0, v.len(), Ghost(ws_pred()), |c: char| -> (b: bool)
        ensures b == is_ws(c)
        { is_ws_char(c) });
    let piece = copy_range(v.as_slice(), 0, e);
    proof {
        assert(v@.subrange(0, v@.len() as int) =~= v@);
    }
    string_of(piece.as_slice())
}

/// `s.trim()` as an owned string.
pub(crate) fn trim_string(s: &str) -> (r: String)
    ensures
        r@ == trim(s@),
{
    let v = chars_of(s);
    let e = trim_end_index(v.as_slice(), 0, v.len(), Ghost(ws_pred()), |c: char| -> (b: bool)
        ensures b == is_ws(c)
        { is_ws_char(c) });
    let b = trim_start_index(v.as_slice(), 0, e, Ghost(ws_pred()), |c: char| -> (b: bool)
        ensures b == is_ws(c)
        { is_ws_char(c) });
    let piece = copy_range(v.as_slice(), b, e);
    proof {
        assert(v@.subrange(0, v@.len() as int) =~= v@);
    }
    string_of(piece.as_slice())
}


/// The rest of `s` after the prefix `p`, when `s` starts with it.
pub open spec fn after_prefix(s: Seq<char>, p: Seq<char>) -> Option<Seq<char>> {
    if starts_with(s, p) {
        Some(s.skip(p.len() as int))
    } else {
        None
    }
}

/// `s.strip_prefix(p)`.
pub(crate) fn strip_prefix_str<'a>(s: &'a str, p: &str) -> (r: Option<&'a str>)
    ensures
        match r {
            Some(t) => after_prefix(s@, p@) == Some(t@),
            None => after_prefix(s@, p@) is None,
        },
{
    let v = chars_of(s);
    let pv = chars_of(p);
    let ok = has_prefix_at(v.as_slice(), 0, pv.as_slice());
    assert(v@.skip(0) =~= v@);
    if ok {
        Some(s.substring_char(pv.len(), v.len()))
    } else {
        None
    }
}

/// Lexicographic order of texts by character.
pub open spec fn text_lt(a: Seq<char>, b: Seq<char>) -> bool
    decreases a.len(),
{
    if a.len() == 0 {
        b.len() > 0
    } else if b.len() == 0 {
        false
    } else if a[0] != b[0] {
        a[0] < b[0]
    } else {
        text_lt(a.skip(1), b.skip(1))
    }
}

pub proof fn lemma_text_lt_irreflexive(a: Seq<char>)
    ensures
        !text_lt(a, a),
    decreases a.len(),
{
    if a.len() > 0 {
        lemma_text_lt_irreflexive(a.skip(1));
    }
}

pub proof fn lemma_text_lt_transitive(a: Seq<char>, b: Seq<char>, c: Seq<char>)
    requires
        text_lt(a, b),
        text_lt(b, c),
    ensures
        text_lt(a, c),
    decreases a.len(),
{
    if a.len() > 0 && b.len() > 0 && c.len() > 0 && a[0] == b[0] && b[0] == c[0] {
        lemma_text_lt_transitive(a.skip(1), b.skip(1), c.skip(1));
    }
}

pub proof fn lemma_text_lt_total(a: Seq<char>, b: Seq<char>)
    ensures
        a == b || text_lt(a, b) || text_lt(b, a),
    decreases a.len(),
{
    if a.len() > 0 && b.len() > 0 && a[0] == b[0] {
        lemma_text_lt_total(a.skip(1), b.skip(1));
        if a.skip(1) == b.skip(1) {
            assert(a =~= seq![a[0]] + a.skip(1));
            assert(b =~= seq![b[0]] + b.skip(1));
        }
    } else if a.len() == 0 && b.len() == 0 {
        assert(a =~= b);
    }
}

/// Whether `a` orders before `b` character by character (`str`'s `<`).
pub fn text_less(a: &str, b: &str) -> (r: bool)
    ensures
        r == text_lt(a@, b@),
{
    let va = chars_of(a);
    let vb = chars_of(b);
    let mut i: usize = 0;
    assert(a@.skip(0) =~= a@ && b@.skip(0) =~= b@);
    while i < va.len() && i < vb.len()
        invariant
            i <= va.len(),
            i <= vb.len(),
            va@ == a@,
            vb@ == b@,
            text_lt(a@, b@) == text_lt(a@.skip(i as int), b@.skip(i as int)),
        decreases va.len() - i,
    {
        assert(a@.skip(i as int)[0] == va@[i as int] && b@.skip(i as int)[0] == vb@[i as int]);
        if va[i] != vb[i] {
            return va[i] < vb[i];
        }
        assert(a@.skip(i as int).skip(1) =~= a@.skip(i + 1));
        assert(b@.skip(i as int).skip(1) =~= b@.skip(i + 1));
        i += 1;
    }
    i < vb.len()
}

} // verus!
