//! Character- and byte-level helpers shared by the protocol code: UTF-8
//! views, string building, whitespace trimming, and decimal numbers.
use vstd::prelude::*;
use vstd::utf8::*;

verus! {

broadcast use vstd::seq_lib::group_seq_properties;

/// Checks `bytes` for UTF-8 validity and, when valid, views them as text
/// (`std::str::from_utf8`). The result is `Some` exactly for valid UTF-8,
/// and then holds the decoded characters.
#[verifier::external_body]
pub(crate) fn str_from_utf8(bytes: &[u8]) -> (r: Option<&str>)
    ensures
        r is Some <==> valid_utf8(bytes@),
        r matches Some(s) ==> s@ == decode_utf8(bytes@),
{
    std::str::from_utf8(bytes).ok()
}

/// Appends one character to a string (`String::push`).
#[verifier::external_body]
pub(crate) fn push_char(s: &mut String, c: char)
    ensures
        final(s)@ == old(s)@.push(c),
{
    s.push(c)
}

/// The characters of `s`, in order.
pub fn chars_of(s: &str) -> (r: Vec<char>)
    ensures
        r@ == s@,
{
    let mut out: Vec<char> = Vec::new();
    for c in it: s.chars()
        invariant
            out@ == it.seq().take(it.index() as int),
            it.seq() == s@,
    {
        out.push(c);
    }
    out
}

/// A string holding exactly the characters `cs[from..to]`.
pub fn string_from_chars(cs: &[char], from: usize, to: usize) -> (r: String)
    requires
        from <= to <= cs@.len(),
    ensures
        r@ == cs@.subrange(from as int, to as int),
{
    let mut out = String::new();
    let mut i = from;
    while i < to
        invariant
            from <= i <= to <= cs@.len(),
            out@ == cs@.subrange(from as int, i as int),
        decreases to - i,
    {
        push_char(&mut out, cs[i]);
        i += 1;
    }
    out
}

/// Appends `s` to `out`.
pub fn push_str(out: &mut String, s: &str)
    ensures
        final(out)@ == old(out)@ + s@,
{
    let cs = chars_of(s);
    let mut i: usize = 0;
    while i < cs.len()
        invariant
            i <= cs@.len(),
            cs@ == s@,
            out@ == old(out)@ + cs@.take(i as int),
        decreases cs.len() - i,
    {
        push_char(out, cs[i]);
        i += 1;
    }
}

/// Character-wise equality of two strings.
pub fn str_eq(a: &str, b: &str) -> (r: bool)
    ensures
        r == (a@ == b@),
{
    let x = chars_of(a);
    let y = chars_of(b);
    if x.len() != y.len() {
        return false;
    }
    let mut i: usize = 0;
    while i < x.len()
        invariant
            x@ == a@,
            y@ == b@,
            x@.len() == y@.len(),
            i <= x@.len(),
            forall|j: int| 0 <= j < i ==> x@[j] == y@[j],
        decreases x.len() - i,
    {
        if x[i] != y[i] {
            return false;
        }
        i += 1;
    }
    assert(x@ =~= y@);
    true
}

/// True when `s` begins with `prefix`.
pub open spec fn has_prefix(s: Seq<char>, prefix: Seq<char>) -> bool {
    prefix.len() <= s.len() && s.take(prefix.len() as int) == prefix
}

/// `s` without `prefix`, when `s` begins with it (`str::strip_prefix`).
pub fn strip_prefix(s: &str, prefix: &str) -> (r: Option<String>)
    ensures
        r is Some <==> has_prefix(s@, prefix@),
        r matches Some(rest) ==> rest@ == s@.skip(prefix@.len() as int),
{
    let x = chars_of(s);
    let p = chars_of(prefix);
    if p.len() > x.len() {
        return None;
    }
    let mut i: usize = 0;
    while i < p.len()
        invariant
            x@ == s@,
            p@ == prefix@,
            p@.len() <= x@.len(),
            i <= p@.len(),
            forall|j: int| 0 <= j < i ==> x@[j] == p@[j],
        decreases p.len() - i,
    {
        if x[i] != p[i] {
            assert(s@.take(prefix@.len() as int)[i as int] != prefix@[i as int]);
            return None;
        }
        i += 1;
    }
    assert(s@.take(prefix@.len() as int) =~= prefix@);
    Some(string_from_chars(&x, p.len(), x.len()))
}

// ---------------------------------------------------------------------------
// Whitespace (`char::is_whitespace`, the Unicode White_Space property)

pub open spec fn is_whitespace(c: char) -> bool {
    let u = c as u32;
    ||| 0x09 <= u <= 0x0D
    ||| u == 0x20
    ||| u == 0x85
    ||| u == 0xA0
    ||| u == 0x1680
    ||| 0x2000 <= u <= 0x200A
    ||| u == 0x2028
    ||| u == 0x2029
    ||| u == 0x202F
    ||| u == 0x205F
    ||| u == 0x3000
}

pub fn char_is_whitespace(c: char) -> (r: bool)
    ensures
        r == is_whitespace(c),
{
    let u = c as u32;
    (0x09 <= u && u <= 0x0D) || u == 0x20 || u == 0x85 || u == 0xA0 || u == 0x1680
        || (0x2000 <= u && u <= 0x200A) || u == 0x2028 || u == 0x2029 || u == 0x202F
        || u == 0x205F || u == 0x3000
}

/// `s` without leading whitespace.
pub open spec fn trim_start(s: Seq<char>) -> Seq<char>
    decreases s.len(),
{
    if s.len() > 0 && is_whitespace(s[0]) {
        trim_start(s.drop_first())
    } else {
        s
    }
}

/// `s` without trailing whitespace.
pub open spec fn trim_end(s: Seq<char>) -> Seq<char>
    decreases s.len(),
{
    if s.len() > 0 && is_whitespace(s.last()) {
        trim_end(s.drop_last())
    } else {
        s
    }
}

/// `s` without leading and trailing whitespace (`str::trim`).
pub open spec fn trim(s: Seq<char>) -> Seq<char> {
    trim_end(trim_start(s))
}

proof fn lemma_trim_start_skip(s: Seq<char>, i: int)
    requires
        0 <= i <= s.len(),
        forall|j: int| 0 <= j < i ==> is_whitespace(s[j]),
    ensures
        trim_start(s) == trim_start(s.skip(i)),
    decreases i,
{
    if i > 0 {
        assert(s.skip(1) =~= s.drop_first());
        lemma_trim_start_skip(s.drop_first(), i - 1);
        assert(s.drop_first().skip(i - 1) =~= s.skip(i));
    } else {
        assert(s.skip(0) =~= s);
    }
}

proof fn lemma_trim_end_take(s: Seq<char>, i: int)
    requires
        0 <= i <= s.len(),
        forall|j: int| i <= j < s.len() ==> is_whitespace(s[j]),
    ensures
        trim_end(s) == trim_end(s.take(i)),
    decreases s.len() - i,
{
    if i < s.len() {
        assert(s.take(s.len() - 1) =~= s.drop_last());
        lemma_trim_end_take(s.drop_last(), i);
        assert(s.drop_last().take(i) =~= s.take(i));
    } else {
        assert(s.take(i) =~= s);
    }
}

/// Bounds `[start, end)` of `trim(cs[from..to])` inside `cs`.
pub fn trim_bounds(cs: &[char], from: usize, to: usize) -> (r: (usize, usize))
    requires
        from <= to <= cs@.len(),
    ensures
        from <= r.0 <= r.1 <= to,
        cs@.subrange(r.0 as int, r.1 as int) == trim(cs@.subrange(from as int, to as int)),
{
    let ghost s = cs@.subrange(from as int, to as int);
    let mut a = from;
    while a < to && char_is_whitespace(cs[a])
        invariant
            from <= a <= to <= cs@.len(),
            forall|j: int| from <= j < a ==> is_whitespace(cs@[j]),
        decreases to - a,
    {
        a += 1;
    }
    proof {
        lemma_trim_start_skip(s, a - from);
        assert(s.skip(a - from) =~= cs@.subrange(a as int, to as int));
        let t = cs@.subrange(a as int, to as int);
        assert(trim_start(t) == t);
    }
    let mut b = to;
    while b > a && char_is_whitespace(cs[b - 1])
        invariant
            from <= a <= b <= to <= cs@.len(),
            forall|j: int| b <= j < to ==> is_whitespace(cs@[j]),
        decreases b - a,
    {
        b -= 1;
    }
    proof {
        let t = cs@.subrange(a as int, to as int);
        lemma_trim_end_take(t, b - a);
        assert(t.take(b - a) =~= cs@.subrange(a as int, b as int));
        let u = cs@.subrange(a as int, b as int);
        assert(trim_end(u) == u);
    }
    (a, b)
}

// ---------------------------------------------------------------------------
// Decimal numbers (`str::parse` for unsigned integers, and `to_string`)

pub open spec fn is_digit(c: char) -> bool {
    '0' <= c <= '9'
}

pub open spec fn digit_value(c: char) -> nat {
    (c as u32 - '0' as u32) as nat
}

pub open spec fn all_digits(s: Seq<char>) -> bool {
    forall|i: int| 0 <= i < s.len() ==> is_digit(#[trigger] s[i])
}

/// The number written by the decimal digits `s` (most significant first).
pub open spec fn digits_value(s: Seq<char>) -> nat
    decreases s.len(),
{
    if s.len() == 0 {
        0
    } else {
        digits_value(s.drop_last()) * 10 + digit_value(s.last())
    }
}

/// The value of an unsigned integer literal as Rust's `FromStr` reads it: an
/// optional leading `+`, then one or more ASCII digits.
pub open spec fn unsigned_value(s: Seq<char>) -> Option<nat> {
    let digits = if s.len() > 0 && s[0] == '+' { s.drop_first() } else { s };
    if digits.len() > 0 && all_digits(digits) {
        Some(digits_value(digits))
    } else {
        None
    }
}

/// `s.parse::<u64>()`, as an option.
pub open spec fn parse_u64_spec(s: Seq<char>) -> Option<u64> {
    match unsigned_value(s) {
        Some(v) => if v <= u64::MAX { Some(v as u64) } else { None },
        None => None,
    }
}

/// Reads `cs[from..to]` as a `u64` (`str::parse::<u64>`).
pub fn parse_u64(cs: &[char], from: usize, to: usize) -> (r: Option<u64>)
    requires
        from <= to <= cs@.len(),
    ensures
        r == parse_u64_spec(cs@.subrange(from as int, to as int)),
{
    let ghost s = cs@.subrange(from as int, to as int);
    let mut i = from;
    if i < to && cs[i] == '+' {
        i += 1;
    }
    let ghost digits = cs@.subrange(i as int, to as int);
    assert(digits == if s.len() > 0 && s[0] == '+' { s.drop_first() } else { s });
    if i == to {
        return None;
    }
    let start = i;
    let mut v: u64 = 0;
    let mut overflow = false;
    while i < to
        invariant
            from <= start <= i <= to <= cs@.len(),
            digits == cs@.subrange(start as int, to as int),
            s == cs@.subrange(from as int, to as int),
            digits == if s.len() > 0 && s[0] == '+' { s.drop_first() } else { s },
            digits.len() > 0,
            all_digits(cs@.subrange(start as int, i as int)),
            !overflow ==> v == digits_value(cs@.subrange(start as int, i as int)),
            overflow ==> digits_value(cs@.subrange(start as int, i as int)) > u64::MAX,
        decreases to - i,
    {
        let c = cs[i];
        if !('0' <= c && c <= '9') {
            assert(digits[i - start] == c);
            assert(!is_digit(digits[i - start]));
            assert(!all_digits(digits));
            assert(unsigned_value(s) is None);
            return None;
        }
        let ghost prev = cs@.subrange(start as int, i as int);
        let ghost next = cs@.subrange(start as int, i + 1);
        assert(next.drop_last() =~= prev);
        assert(next.last() == c);
        let d = (c as u32 - '0' as u32) as u64;
        if !overflow {
            if v > (u64::MAX - d) / 10 {
                overflow = true;
                assert(digits_value(next) == v * 10 + d);
                assert(v * 10 + d > u64::MAX) by (nonlinear_arith)
                    requires v > (u64::MAX - d) / 10, d <= 9;
            } else {
                assert(v * 10 + d <= u64::MAX) by (nonlinear_arith)
                    requires v <= (u64::MAX - d) / 10, d <= 9;
                v = v * 10 + d;
            }
        } else {
            assert(digits_value(next) >= digits_value(prev) * 10) by (nonlinear_arith)
                requires digits_value(next) == digits_value(prev) * 10 + digit_value(c);
            assert(digits_value(prev) * 10 >= digits_value(prev)) by (nonlinear_arith);
        }
        i += 1;
    }
    assert(cs@.subrange(start as int, i as int) =~= digits);
    if overflow { None } else { Some(v) }
}

/// The decimal digits of `n`, most significant first, without leading zeros
/// (`"0"` for zero).
pub open spec fn decimal(n: nat) -> Seq<char>
    decreases n,
{
    if n < 10 {
        seq![digit_char(n)]
    } else {
        decimal(n / 10).push(digit_char(n % 10))
    }
}

pub open spec fn digit_char(d: nat) -> char {
    ((d + '0' as nat) as u32) as char
}

proof fn lemma_digit_char(d: nat)
    requires
        d < 10,
    ensures
        is_digit(digit_char(d)),
        digit_value(digit_char(d)) == d,
{
}

/// Decimal text reads back as its number: only digits, and their value.
pub proof fn lemma_decimal_digits(n: nat)
    ensures
        decimal(n).len() > 0,
        all_digits(decimal(n)),
        digits_value(decimal(n)) == n,
    decreases n,
{
    if n < 10 {
        lemma_digit_char(n);
        assert(seq![digit_char(n)].drop_last() =~= Seq::<char>::empty());
        assert(digits_value(Seq::<char>::empty()) == 0);
        assert(digits_value(decimal(n)) == digits_value(Seq::<char>::empty()) * 10 + digit_value(
            digit_char(n),
        ));
    } else {
        lemma_decimal_digits(n / 10);
        lemma_digit_char(n % 10);
        let s = decimal(n);
        assert(s.drop_last() =~= decimal(n / 10));
        assert(s.last() == digit_char(n % 10));
        assert(digits_value(s) == digits_value(s.drop_last()) * 10 + digit_value(s.last()));
        assert((n / 10) * 10 + n % 10 == n) by (nonlinear_arith);
        assert forall|i: int| 0 <= i < s.len() implies is_digit(#[trigger] s[i]) by {
            if i < s.len() - 1 {
                assert(s[i] == decimal(n / 10)[i]);
            }
        }
    }
}

/// Decimal text of a `usize` parses back as it (`str::parse::<usize>`).
pub proof fn lemma_parse_usize_decimal(n: usize)
    ensures
        parse_usize_spec(decimal(n as nat)) == Some(n),
{
    lemma_decimal_digits(n as nat);
    let s = decimal(n as nat);
    assert(is_digit(s[0]));
}

/// `n.to_string()`.
pub fn u64_to_string(n: u64) -> (r: String)
    ensures
        r@ == decimal(n as nat),
{
    let mut digits: Vec<char> = Vec::new();
    let mut m = n;
    // digits are collected least significant first
    while m >= 10
        invariant
            decimal(n as nat) == decimal(m as nat) + digits@.reverse(),
        decreases m,
    {
        let d = (m % 10) as u8;
        let c = (d + 48u8) as char;
        proof {
            assert(c == digit_char((m % 10) as nat));
            assert(decimal(m as nat) == decimal((m / 10) as nat).push(c));
            assert(digits@.push(c).reverse() =~= seq![c] + digits@.reverse());
        }
        digits.push(c);
        m = m / 10;
    }
    let c0 = ((m as u8) + 48u8) as char;
    assert(c0 == digit_char(m as nat));
    digits.push(c0);
    assert(digits@.reverse() =~= seq![c0] + digits@.drop_last().reverse());
    let mut out = String::new();
    let mut k = digits.len();
    while k > 0
        invariant
            k <= digits@.len(),
            out@ == digits@.reverse().take((digits@.len() - k) as int),
        decreases k,
    {
        k -= 1;
        assert(digits@.reverse().take((digits@.len() - k) as int) =~= out@.push(digits@[k as int]));
        push_char(&mut out, digits[k]);
    }
    assert(out@ =~= decimal(n as nat));
    out
}

/// `s.parse::<usize>()`, as an option.
pub open spec fn parse_usize_spec(s: Seq<char>) -> Option<usize> {
    match unsigned_value(s) {
        Some(v) => if v <= usize::MAX { Some(v as usize) } else { None },
        None => None,
    }
}

/// Reads `cs[from..to]` as a `usize` (`str::parse::<usize>`).
pub fn parse_usize(cs: &[char], from: usize, to: usize) -> (r: Option<usize>)
    requires
        from <= to <= cs@.len(),
    ensures
        r == parse_usize_spec(cs@.subrange(from as int, to as int)),
{
    match parse_u64(cs, from, to) {
        Some(v) => {
            if v <= usize::MAX as u64 {
                Some(v as usize)
            } else {
                None
            }
        },
        None => {
            proof {
                let s = cs@.subrange(from as int, to as int);
                if let Some(v) = unsigned_value(s) {
                    assert(v > u64::MAX);
                }
            }
            None
        },
    }
}

// ---------------------------------------------------------------------------
// Searching sequences

/// Index of the first occurrence of `x` in `s`.
pub open spec fn first_index<T>(s: Seq<T>, x: T) -> Option<int>
    decreases s.len(),
{
    if s.len() == 0 {
        None
    } else if s[0] == x {
        Some(0)
    } else {
        match first_index(s.drop_first(), x) {
            Some(i) => Some(i + 1),
            None => None,
        }
    }
}

/// `first_index` is the least index holding `x`.
pub proof fn lemma_first_index<T>(s: Seq<T>, x: T)
    ensures
        first_index(s, x) matches Some(i) ==> 0 <= i < s.len() && s[i] == x && forall|j: int|
            0 <= j < i ==> s[j] != x,
        first_index(s, x) is None ==> forall|j: int| 0 <= j < s.len() ==> s[j] != x,
    decreases s.len(),
{
    if s.len() > 0 {
        lemma_first_index(s.drop_first(), x);
        if s[0] != x {
            assert forall|j: int| 1 <= j < s.len() implies s[j] == s.drop_first()[j - 1] by {}
        }
    }
}

/// The least index holding `x` is `first_index`.
pub proof fn lemma_first_index_at<T>(s: Seq<T>, x: T, i: int)
    requires
        0 <= i <= s.len(),
        forall|j: int| 0 <= j < i ==> s[j] != x,
        i < s.len() ==> s[i] == x,
    ensures
        first_index(s, x) == if i < s.len() { Some(i) } else { None::<int> },
    decreases i,
{
    if i > 0 {
        assert forall|j: int| 0 <= j < i - 1 implies s.drop_first()[j] != x by {
            assert(s.drop_first()[j] == s[j + 1]);
        }
        lemma_first_index_at(s.drop_first(), x, i - 1);
    }
}

/// The pieces of `s` between occurrences of `sep`, in order, as `split`
/// gives them: `n` separators make `n + 1` pieces, some possibly empty.
pub open spec fn split_spec<T>(s: Seq<T>, sep: T) -> Seq<Seq<T>>
    decreases s.len(),
{
    match first_index(s, sep) {
        Some(i) => if 0 <= i < s.len() {
            seq![s.take(i)] + split_spec(s.skip(i + 1), sep)
        } else {
            seq![s]
        },
        None => seq![s],
    }
}

/// Position of the first `x` in `s[from..to]`, relative to `from`.
pub fn find_byte(s: &[u8], from: usize, to: usize, x: u8) -> (r: Option<usize>)
    requires
        from <= to <= s@.len(),
    ensures
        r matches Some(i) ==> from + i < to && first_index(s@.subrange(from as int, to as int), x)
            == Some(i as int),
        r is None ==> first_index(s@.subrange(from as int, to as int), x) is None,
{
    let ghost t = s@.subrange(from as int, to as int);
    let mut i = from;
    while i < to
        invariant
            from <= i <= to <= s@.len(),
            t == s@.subrange(from as int, to as int),
            forall|j: int| 0 <= j < i - from ==> t[j] != x,
        decreases to - i,
    {
        if s[i] == x {
            proof { lemma_first_index_at(t, x, i - from); }
            return Some(i - from);
        }
        i += 1;
    }
    proof { lemma_first_index_at(t, x, t.len() as int); }
    None
}

/// Position of the first `x` in `cs[from..to]`, relative to `from`.
pub fn find_char(cs: &[char], from: usize, to: usize, x: char) -> (r: Option<usize>)
    requires
        from <= to <= cs@.len(),
    ensures
        r matches Some(i) ==> from + i < to && first_index(cs@.subrange(from as int, to as int), x)
            == Some(i as int),
        r is None ==> first_index(cs@.subrange(from as int, to as int), x) is None,
{
    let ghost t = cs@.subrange(from as int, to as int);
    let mut i = from;
    while i < to
        invariant
            from <= i <= to <= cs@.len(),
            t == cs@.subrange(from as int, to as int),
            forall|j: int| 0 <= j < i - from ==> t[j] != x,
        decreases to - i,
    {
        if cs[i] == x {
            proof { lemma_first_index_at(t, x, i - from); }
            return Some(i - from);
        }
        i += 1;
    }
    proof { lemma_first_index_at(t, x, t.len() as int); }
    None
}

// ---------------------------------------------------------------------------
// UTF-8 facts

/// The encoding of a concatenation is the concatenation of the encodings.
pub proof fn lemma_encode_utf8_concat(a: Seq<char>, b: Seq<char>)
    ensures
        encode_utf8(a + b) == encode_utf8(a) + encode_utf8(b),
    decreases a.len(),
{
    if a.len() == 0 {
        assert(a + b =~= b);
        assert(encode_utf8(a) =~= Seq::<u8>::empty());
        assert(encode_utf8(a) + encode_utf8(b) =~= encode_utf8(b));
    } else {
        assert((a + b)[0] == a[0]);
        assert((a + b).drop_first() =~= a.drop_first() + b);
        lemma_encode_utf8_concat(a.drop_first(), b);
        assert(encode_utf8(a + b) =~= encode_scalar(a[0] as u32) + (encode_utf8(a.drop_first())
            + encode_utf8(b)));
    }
}

/// Each character takes at most four bytes in UTF-8.
pub proof fn lemma_encode_utf8_len(s: Seq<char>)
    ensures
        encode_utf8(s).len() <= 4 * s.len(),
    decreases s.len(),
{
    if s.len() > 0 {
        lemma_encode_utf8_len(s.drop_first());
    }
}

/// An ASCII byte occurs in the encoding of a character only as the encoding
/// of that very character.
pub proof fn lemma_encode_scalar_ascii(c: char, i: int)
    requires
        0 <= i < encode_scalar(c as u32).len(),
        encode_scalar(c as u32)[i] < 128,
    ensures
        encode_scalar(c as u32) == seq![(c as u32) as u8],
        c as u32 == encode_scalar(c as u32)[i] as u32,
{
    let u = c as u32;
    char_is_scalar(c);
    if has_width_1_encoding(u) {
        assert((u & 0x7F) as u8 == u as u8 && (u as u8) as u32 == u) by (bit_vector)
            requires u <= 0x7F;
    } else if has_width_2_encoding(u) {
        assert(0xC0 | ((u >> 6) & 0x1F) as u8 >= 128 && 0x80 | (u & 0x3F) as u8 >= 128)
            by (bit_vector);
    } else if has_width_3_encoding(u) {
        assert(0xE0 | ((u >> 12) & 0x0F) as u8 >= 128 && 0x80 | ((u >> 6) & 0x3F) as u8 >= 128
            && 0x80 | (u & 0x3F) as u8 >= 128) by (bit_vector);
    } else {
        assert(0xF0 | ((u >> 18) & 0x7) as u8 >= 128 && 0x80 | ((u >> 12) & 0x3F) as u8 >= 128
            && 0x80 | ((u >> 6) & 0x3F) as u8 >= 128 && 0x80 | (u & 0x3F) as u8 >= 128)
            by (bit_vector);
    }
}

/// An ASCII character that does not occur in `s` has no byte in its encoding.
pub proof fn lemma_encode_utf8_ascii_absent(s: Seq<char>, c: char)
    requires
        (c as u32) < 128,
        forall|j: int| 0 <= j < s.len() ==> s[j] != c,
    ensures
        forall|j: int| 0 <= j < encode_utf8(s).len() ==> encode_utf8(s)[j] != (c as u32) as u8,
    decreases s.len(),
{
    let b = (c as u32) as u8;
    if s.len() > 0 {
        let head = encode_scalar(s[0] as u32);
        let rest = encode_utf8(s.drop_first());
        assert forall|j: int| 0 <= j < s.drop_first().len() implies s.drop_first()[j] != c by {
            assert(s.drop_first()[j] == s[j + 1]);
        }
        lemma_encode_utf8_ascii_absent(s.drop_first(), c);
        assert forall|j: int| 0 <= j < encode_utf8(s).len() implies encode_utf8(s)[j] != b by {
            assert(encode_utf8(s) == head + rest);
            if j < head.len() {
                if head[j] == b {
                    lemma_encode_scalar_ascii(s[0], j);
                    assert((c as u32) as u8 as u32 == c as u32);
                    char_u32_cast(s[0], s[0] as u32);
                    char_u32_cast(c, c as u32);
                }
            } else {
                assert(encode_utf8(s)[j] == rest[j - head.len()]);
            }
        }
    }
}

/// The encoding of an ASCII character is its code.
pub proof fn lemma_encode_utf8_ascii_char(c: char)
    requires
        (c as u32) < 128,
    ensures
        encode_utf8(seq![c]) == seq![(c as u32) as u8],
{
    let u = c as u32;
    assert(seq![c].drop_first() =~= Seq::<char>::empty());
    assert(encode_utf8(seq![c].drop_first()) =~= Seq::<u8>::empty());
    assert((u & 0x7F) as u8 == u as u8) by (bit_vector)
        requires u < 128;
    assert(encode_utf8(seq![c]) =~= encode_scalar(u));
}

// ---------------------------------------------------------------------------
// Lines and words (`str::lines`, `str::split_whitespace`)

/// A line without the `\r` of a `\r\n` ending.
pub open spec fn strip_cr(l: Seq<char>) -> Seq<char> {
    if l.len() > 0 && l.last() == '\r' {
        l.drop_last()
    } else {
        l
    }
}

/// The lines of `s`, as `str::lines` gives them: split at `\n` or `\r\n`,
/// without the line endings; a final line ending adds no empty line.
pub open spec fn lines_spec(s: Seq<char>) -> Seq<Seq<char>>
    decreases s.len(),
{
    match first_index(s, '\n') {
        Some(i) => if 0 <= i < s.len() {
            seq![strip_cr(s.take(i))] + lines_spec(s.skip(i + 1))
        } else {
            Seq::empty()
        },
        None => if s.len() == 0 {
            Seq::empty()
        } else {
            seq![s]
        },
    }
}

pub open spec fn strings_view(v: Seq<String>) -> Seq<Seq<char>> {
    v.map_values(|l: String| l@)
}

/// Reads the line of `cs` that starts at `start`: the line, and where the
/// next one starts.
fn next_line(cs: &Vec<char>, start: usize) -> (r: (String, usize))
    requires
        start < cs@.len(),
    ensures
        start < r.1 <= cs@.len(),
        lines_spec(cs@.skip(start as int)) == seq![r.0@] + lines_spec(cs@.skip(r.1 as int)),
{
    let n = cs.len();
    let ghost rest = cs@.skip(start as int);
    assert(cs@.subrange(start as int, n as int) =~= rest);
    proof {
        lemma_first_index(rest, '\n');
    }
    match find_char(cs, start, n, '\n') {
        Some(i) => {
            let end = if i > 0 && cs[start + i - 1] == '\r' {
                start + i - 1
            } else {
                start + i
            };
            let line = string_from_chars(cs, start, end);
            assert(line@ =~= strip_cr(rest.take(i as int)));
            assert(rest.skip(i + 1) =~= cs@.skip(start + i + 1));
            (line, start + i + 1)
        },
        None => {
            let line = string_from_chars(cs, start, n);
            assert(line@ =~= rest);
            assert(cs@.skip(n as int) =~= Seq::<char>::empty());
            assert(lines_spec(cs@.skip(n as int)) =~= Seq::<Seq<char>>::empty());
            assert(seq![line@] + Seq::<Seq<char>>::empty() =~= seq![line@]);
            (line, n)
        },
    }
}

/// The lines of `s` (see `lines_spec`).
pub fn lines(s: &str) -> (r: Vec<String>)
    ensures
        strings_view(r@) == lines_spec(s@),
{
    let cs = chars_of(s);
    let n = cs.len();
    let mut out: Vec<String> = Vec::new();
    let mut start: usize = 0;
    assert(cs@.skip(0) =~= cs@);
    while start < n
        invariant
            start <= n == cs@.len(),
            cs@ == s@,
            strings_view(out@) + lines_spec(cs@.skip(start as int)) == lines_spec(s@),
        decreases n - start,
    {
        let (line, next) = next_line(&cs, start);
        let ghost before = out@;
        out.push(line);
        assert(strings_view(out@) =~= strings_view(before) + seq![line@]);
        assert(strings_view(out@) + lines_spec(cs@.skip(next as int)) =~= strings_view(before) + (seq![
            line@,
        ] + lines_spec(cs@.skip(next as int))));
        start = next;
    }
    assert(cs@.skip(start as int) =~= Seq::<char>::empty());
    assert(lines_spec(cs@.skip(start as int)) =~= Seq::<Seq<char>>::empty());
    assert(strings_view(out@) + Seq::<Seq<char>>::empty() =~= strings_view(out@));
    out
}

/// How many non-whitespace characters `t` starts with.
pub open spec fn word_len(t: Seq<char>) -> nat
    decreases t.len(),
{
    if t.len() == 0 || is_whitespace(t[0]) {
        0
    } else {
        1 + word_len(t.drop_first())
    }
}

/// The first whitespace-separated word of `s`, if any
/// (`s.split_whitespace().next()`).
pub open spec fn first_word(s: Seq<char>) -> Option<Seq<char>> {
    let t = trim_start(s);
    if t.len() == 0 {
        None
    } else {
        Some(t.take(word_len(t) as int))
    }
}

proof fn lemma_word_len(t: Seq<char>, i: int)
    requires
        0 <= i <= t.len(),
        forall|j: int| 0 <= j < i ==> !is_whitespace(t[j]),
        i < t.len() ==> is_whitespace(t[i]),
    ensures
        word_len(t) == i,
    decreases i,
{
    if i > 0 {
        assert forall|j: int| 0 <= j < i - 1 implies !is_whitespace(t.drop_first()[j]) by {
            assert(t.drop_first()[j] == t[j + 1]);
        }
        lemma_word_len(t.drop_first(), i - 1);
    }
}

/// The first whitespace-separated word of `cs[from..to]`, read as a `u64`.
pub fn first_word_u64(cs: &[char], from: usize, to: usize) -> (r: Option<u64>)
    requires
        from <= to <= cs@.len(),
    ensures
        r == match first_word(cs@.subrange(from as int, to as int)) {
            Some(w) => parse_u64_spec(w),
            None => None,
        },
{
    let ghost s = cs@.subrange(from as int, to as int);
    let mut a = from;
    while a < to && char_is_whitespace(cs[a])
        invariant
            from <= a <= to <= cs@.len(),
            forall|j: int| from <= j < a ==> is_whitespace(cs@[j]),
        decreases to - a,
    {
        a += 1;
    }
    let ghost t = cs@.subrange(a as int, to as int);
    proof {
        lemma_trim_start_skip(s, a - from);
        assert(s.skip(a - from) =~= t);
    }
    if a == to {
        assert(trim_start(t) == t);
        return None;
    }
    assert(trim_start(t) == t);
    let mut b = a;
    while b < to && !char_is_whitespace(cs[b])
        invariant
            a <= b <= to <= cs@.len(),
            forall|j: int| a <= j < b ==> !is_whitespace(cs@[j]),
        decreases to - b,
    {
        b += 1;
    }
    proof {
        lemma_word_len(t, b - a);
        assert(t.take(b - a) =~= cs@.subrange(a as int, b as int));
    }
    parse_u64(cs, a, b)
}

} // verus!
