//! Small text helpers shared by the model, the timeline and the shell.
use vstd::prelude::*;
use vstd::string::StringExecFns;

verus! {

/// `a == b` on string slices: the same characters in the same order.
pub fn str_eq(a: &str, b: &str) -> (r: bool)
    ensures
        r == (a@ == b@),
{
    let va = chars_of(a);
    let vb = chars_of(b);
    if va.len() != vb.len() {
        return false;
    }
    let mut i: usize = 0;
    while i < va.len()
        invariant
            va@ == a@,
            vb@ == b@,
            va@.len() == vb@.len(),
            i <= va@.len(),
            forall|j: int| 0 <= j < i ==> va@[j] == vb@[j],
        decreases va@.len() - i,
    {
        if va[i] != vb[i] {
            return false;
        }
        i = i + 1;
    }
    proof {
        assert(a@ =~= b@);
    }
    true
}

/// Appends one character (std's `String::push`).
#[verifier::external_body]
pub(crate) fn push_char(s: &mut String, c: char)
    ensures
        final(s)@ == old(s)@.push(c),
{
    s.push(c);
}


/// Appends a string slice.
pub fn push_str(s: &mut String, other: &str)
    ensures
        final(s)@ == old(s)@ + other@,
{
    s.append(other);
}


/// The decimal digit character for `d` (0 to 9).
pub open spec fn digit_char(d: int) -> char {
    ((d + 48) as u32) as char
}

/// The decimal notation of `n`, without leading zeros ("0" for zero).
pub open spec fn decimal(n: nat) -> Seq<char>
    decreases n,
{
    if n < 10 {
        seq![digit_char(n as int)]
    } else {
        decimal(n / 10).push(digit_char((n % 10) as int))
    }
}

/// `decimal(n)` left-padded with zeros to at least `width` characters.
pub open spec fn zero_padded(n: nat, width: nat) -> Seq<char> {
    let d = decimal(n);
    if d.len() >= width {
        d
    } else {
        Seq::new((width - d.len()) as nat, |i: int| '0') + d
    }
}

proof fn lemma_decimal_nonempty(n: nat)
    ensures
        decimal(n).len() >= 1,
        forall|i: int| 0 <= i < decimal(n).len() ==> '0' <= #[trigger] decimal(n)[i] <= '9',
    decreases n,
{
    if n >= 10 {
        lemma_decimal_nonempty(n / 10);
        let d = decimal(n / 10);
        assert forall|i: int| 0 <= i < decimal(n).len() implies '0' <= #[trigger] decimal(n)[i] <= '9' by {
            if i < d.len() {
                assert(decimal(n)[i] == d[i]);
            }
        }
    }
}

/// The code of a digit character.
proof fn lemma_digit_char(d: int)
    requires
        0 <= d < 10,
    ensures
        digit_char(d) as u32 == d + 48,
{
    assert(((d + 48) as u32) as char as u32 == (d + 48) as u32);
}

/// Different numbers have different decimal notations.
pub proof fn lemma_decimal_injective(a: nat, b: nat)
    requires
        decimal(a) == decimal(b),
    ensures
        a == b,
    decreases a + b,
{
    lemma_decimal_nonempty(a);
    lemma_decimal_nonempty(b);
    if a < 10 && b < 10 {
        assert(decimal(a)[0] == digit_char(a as int));
        assert(decimal(b)[0] == digit_char(b as int));
        assert(decimal(a)[0] == decimal(b)[0]);
        lemma_digit_char(a as int);
        lemma_digit_char(b as int);
        assert(digit_char(a as int) as u32 == digit_char(b as int) as u32);
    } else if a < 10 {
        lemma_decimal_nonempty(b / 10);
        assert(decimal(b).len() >= 2);
    } else if b < 10 {
        lemma_decimal_nonempty(a / 10);
        assert(decimal(a).len() >= 2);
    } else {
        assert(decimal(a).drop_last() =~= decimal(a / 10));
        assert(decimal(b).drop_last() =~= decimal(b / 10));
        lemma_decimal_injective(a / 10, b / 10);
        assert(decimal(a).last() == digit_char((a % 10) as int));
        assert(decimal(b).last() == digit_char((b % 10) as int));
        assert(decimal(a).last() == decimal(b).last());
        lemma_digit_char((a % 10) as int);
        lemma_digit_char((b % 10) as int);
        assert(digit_char((a % 10) as int) as u32 == digit_char((b % 10) as int) as u32);
        assert(a % 10 == b % 10);
        assert(a == 10 * (a / 10) + a % 10);
        assert(b == 10 * (b / 10) + b % 10);
    }
}

/// A prefix followed by different numbers gives different strings.
pub proof fn lemma_prefixed_decimal_injective(p: Seq<char>, a: nat, b: nat)
    requires
        p + decimal(a) == p + decimal(b),
    ensures
        a == b,
{
    assert(decimal(a) =~= (p + decimal(a)).skip(p.len() as int));
    assert(decimal(b) =~= (p + decimal(b)).skip(p.len() as int));
    lemma_decimal_injective(a, b);
}

/// The decimal notation of `n`.
pub fn decimal_string(n: u64) -> (r: String)
    ensures
        r@ == decimal(n as nat),
{
    // Collect digits least significant first, then emit them in order.
    let mut digits: Vec<char> = Vec::new();
    let mut m = n;
    let ghost mut rest: Seq<char> = Seq::empty();
    proof {
        rest = Seq::empty();
    }
    loop
        invariant
            decimal(n as nat) == decimal(m as nat) + rest,
            digits@ == rest.reverse(),
        ensures
            decimal(n as nat) == decimal(m as nat) + rest,
            digits@ == rest.reverse(),
            m < 10,
        decreases m,
    {
        if m < 10 {
            break;
        }
        let d = (m % 10) as u32;
        let c = char_from_digit(d);
        proof {
            assert(decimal(m as nat) == decimal((m / 10) as nat).push(digit_char((m % 10) as int)));
            assert(decimal(m as nat) + rest =~= decimal((m / 10) as nat) + seq![c].add(rest));
            assert(seq![c].add(rest).reverse() =~= rest.reverse().push(c));
            rest = seq![c].add(rest);
        }
        digits.push(c);
        m = m / 10;
    }
    let first = char_from_digit(m as u32);
    let mut out = String::new();
    push_char(&mut out, first);
    proof {
        assert(decimal(n as nat) =~= seq![first] + rest);
    }
    let mut k = digits.len();
    while k > 0
        invariant
            k <= digits@.len(),
            digits@ == rest.reverse(),
            out@ == seq![first] + rest.take((digits@.len() - k) as int),
        decreases k,
    {
        k = k - 1;
        push_char(&mut out, digits[k]);
        proof {
            let j = digits@.len() - k - 1;
            assert(rest[j] == digits@[k as int]);
            assert(rest.take(j + 1) =~= rest.take(j).push(rest[j]));
        }
    }
    proof {
        assert(rest.take(rest.len() as int) =~= rest);
    }
    out
}

/// The character of a decimal digit.
pub fn char_from_digit(d: u32) -> (c: char)
    requires
        d < 10,
    ensures
        c == digit_char(d as int),
{
    ((d as u8) + 48) as char
}

/// `n` in decimal, zero-padded to at least `width` characters.
pub fn zero_padded_string(n: u64, width: usize) -> (r: String)
    ensures
        r@ == zero_padded(n as nat, width as nat),
{
    let d = decimal_string(n);
    let len = d.unicode_len();
    if len >= width {
        return d;
    }
    let mut out = String::new();
    let mut i: usize = 0;
    while i < width - len
        invariant
            i <= width - len,
            out@ == Seq::new(i as nat, |j: int| '0'),
        decreases width - len - i,
    {
        push_char(&mut out, '0');
        proof {
            assert(out@ =~= Seq::new((i + 1) as nat, |j: int| '0'));
        }
        i = i + 1;
    }
    push_str(&mut out, d.as_str());
    out
}


/// Whether `c` has the Unicode `White_Space` property (what std's
/// `char::is_whitespace` and `str::trim` go by): the controls U+0009 to
/// U+000D and U+0085, the spaces U+0020, U+00A0, U+1680, U+2000 to U+200A,
/// U+202F, U+205F and U+3000, and the separators U+2028 and U+2029.
pub open spec fn white_space(c: char) -> bool {
    let u = c as u32;
    ||| 0x09 <= u <= 0x0D
    ||| u == 0x20
    ||| u == 0x85
    ||| u == 0xA0
    ||| u == 0x1680
    ||| 0x2000 <= u <= 0x200A
    ||| u == 0x2028
    ||| u == 0x2029
    ||| u == 0x202F
    ||| u == 0x205F
    ||| u == 0x3000
}

/// Whether `c` is white space (see [`white_space`]).
pub fn is_whitespace(c: char) -> (r: bool)
    ensures
        r == white_space(c),
{
    let u = c as u32;
    (0x09 <= u && u <= 0x0D) || u == 0x20 || u == 0x85 || u == 0xA0 || u == 0x1680 || (0x2000 <= u && u
        <= 0x200A) || u == 0x2028 || u == 0x2029 || u == 0x202F || u == 0x205F || u == 0x3000
}

/// Every character of `s` is white space (`s` trims to nothing).
pub open spec fn blank(s: Seq<char>) -> bool {
    forall|i: int| 0 <= i < s.len() ==> white_space(#[trigger] s[i])
}

/// `s` without its leading white space.
pub open spec fn strip_leading_ws(s: Seq<char>) -> Seq<char>
    decreases s.len(),
{
    if s.len() > 0 && white_space(s[0]) {
        strip_leading_ws(s.drop_first())
    } else {
        s
    }
}

/// `s` without its trailing white space.
pub open spec fn strip_trailing_ws(s: Seq<char>) -> Seq<char>
    decreases s.len(),
{
    if s.len() > 0 && white_space(s.last()) {
        strip_trailing_ws(s.drop_last())
    } else {
        s
    }
}

/// `s` without leading and trailing white space (std's `str::trim`).
pub open spec fn trim_seq(s: Seq<char>) -> Seq<char> {
    strip_trailing_ws(strip_leading_ws(s))
}

/// The characters of `s`, in order.
pub fn chars_of(s: &str) -> (r: Vec<char>)
    ensures
        r@ == s@,
{
    let mut out: Vec<char> = Vec::new();
    for ch in it: s.chars()
        invariant
            it.seq() == s@,
            out@ == s@.take(it.index() as int),
    {
        proof {
            assert(s@.take(it.index() + 1) =~= s@.take(it.index() as int).push(ch));
        }
        out.push(ch);
    }
    proof {
        assert(s@.take(s@.len() as int) =~= s@);
    }
    out
}

/// The characters `v[lo..hi]` as a string.
pub fn string_of_range(v: &Vec<char>, lo: usize, hi: usize) -> (r: String)
    requires
        lo <= hi <= v@.len(),
    ensures
        r@ == v@.subrange(lo as int, hi as int),
{
    let mut out = String::new();
    let mut k = lo;
    while k < hi
        invariant
            lo <= k <= hi <= v@.len(),
            out@ == v@.subrange(lo as int, k as int),
        decreases hi - k,
    {
        push_char(&mut out, v[k]);
        proof {
            assert(v@.subrange(lo as int, k + 1) =~= v@.subrange(lo as int, k as int).push(v@[k as int]));
        }
        k = k + 1;
    }
    out
}

/// `v` without leading and trailing white space.
pub fn trim_chars(v: &Vec<char>) -> (r: String)
    ensures
        r@ == trim_seq(v@),
{
    let n = v.len();
    proof {
        assert(v@.subrange(0, n as int) =~= v@);
    }
    let mut i: usize = 0;
    while i < n && is_whitespace(v[i])
        invariant
            i <= n == v@.len(),
            strip_leading_ws(v@) == strip_leading_ws(v@.subrange(i as int, n as int)),
        decreases n - i,
    {
        proof {
            assert(v@.subrange(i as int, n as int).drop_first() =~= v@.subrange(i + 1, n as int));
        }
        i = i + 1;
    }
    let mut j: usize = n;
    while j > i && is_whitespace(v[j - 1])
        invariant
            i <= j <= n == v@.len(),
            strip_leading_ws(v@) == v@.subrange(i as int, n as int),
            strip_trailing_ws(v@.subrange(i as int, n as int)) == strip_trailing_ws(v@.subrange(i as int, j as int)),
        decreases j,
    {
        proof {
            assert(v@.subrange(i as int, j as int).drop_last() =~= v@.subrange(i as int, j - 1));
        }
        j = j - 1;
    }
    string_of_range(v, i, j)
}

/// Whether every character of `s` is white space.
pub fn is_blank(s: &str) -> (r: bool)
    ensures
        r == blank(s@),
{
    let v = chars_of(s);
    let mut i: usize = 0;
    while i < v.len()
        invariant
            v@ == s@,
            i <= v@.len(),
            forall|k: int| 0 <= k < i ==> white_space(#[trigger] v@[k]),
        decreases v@.len() - i,
    {
        if !is_whitespace(v[i]) {
            return false;
        }
        i = i + 1;
    }
    true
}


/// `c` is an ASCII decimal digit.
pub open spec fn is_digit(c: char) -> bool {
    '0' <= c && c <= '9'
}

/// The value of a string of decimal digits, most significant first.
pub open spec fn digits_value(s: Seq<char>) -> nat
    decreases s.len(),
{
    if s.len() == 0 {
        0
    } else {
        digits_value(s.drop_last()) * 10 + ((s.last() as u32) - 48) as nat
    }
}

/// Every character of `d` is a decimal digit.
pub open spec fn all_digits(d: Seq<char>) -> bool {
    forall|i: int| 0 <= i < d.len() ==> is_digit(#[trigger] d[i])
}

/// `s` without one leading `+`.
pub open spec fn unsigned_digits(s: Seq<char>) -> Seq<char> {
    if s.len() > 0 && s[0] == '+' {
        s.drop_first()
    } else {
        s
    }
}

/// What std's `str::parse` gives for an unsigned integer type whose largest
/// value is `max`: an optional `+`, then one or more ASCII digits, with a
/// value of at most `max`; anything else is an error (`None`).
pub open spec fn parsed_unsigned(s: Seq<char>, max: nat) -> Option<nat> {
    let d = unsigned_digits(s);
    if d.len() > 0 && all_digits(d) && digits_value(d) <= max {
        Some(digits_value(d))
    } else {
        None
    }
}

/// A longer run of digits has at least the value of its prefix.
proof fn lemma_digits_value_prefix(s: Seq<char>, k: int)
    requires
        0 <= k <= s.len(),
        forall|i: int| 0 <= i < s.len() ==> is_digit(#[trigger] s[i]),
    ensures
        digits_value(s.take(k)) <= digits_value(s),
    decreases s.len(),
{
    if k < s.len() {
        assert(s.drop_last().take(k) =~= s.take(k));
        assert forall|i: int| 0 <= i < s.len() - 1 implies is_digit(#[trigger] s.drop_last()[i]) by {
            assert(s.drop_last()[i] == s[i]);
        }
        lemma_digits_value_prefix(s.drop_last(), k);
    } else {
        assert(s.take(k) =~= s);
    }
}

/// Parses an unsigned decimal number of at most `max`, as std's
/// `str::parse` does for an unsigned type with that largest value.
pub fn parse_unsigned(s: &str, max: u64) -> (r: Option<u64>)
    ensures
        match r {
            Some(value) => parsed_unsigned(s@, max as nat) == Some(value as nat),
            None => parsed_unsigned(s@, max as nat) is None,
        },
{
    let cs = chars_of(s);
    let start: usize = if cs.len() > 0 && cs[0] == '+' {
        1
    } else {
        0
    };
    let ghost d = unsigned_digits(s@);
    proof {
        assert(d =~= cs@.subrange(start as int, cs@.len() as int));
    }
    if start >= cs.len() {
        return None;
    }
    let mut acc: u64 = 0;
    let mut i: usize = start;
    while i < cs.len()
        invariant
            cs@ == s@,
            start <= i <= cs@.len(),
            d == cs@.subrange(start as int, cs@.len() as int),
            d == unsigned_digits(s@),
            forall|k: int| start <= k < i ==> is_digit(#[trigger] cs@[k]),
            acc as nat == digits_value(cs@.subrange(start as int, i as int)),
            acc <= max,
        decreases cs@.len() - i,
    {
        let c = cs[i];
        if !('0' <= c && c <= '9') {
            proof {
                assert(d[i - start] == c);
                assert(!is_digit(d[i - start]));
                assert(!all_digits(d));
            }
            return None;
        }
        let digit = (c as u32 - 48) as u64;
        let next = match acc.checked_mul(10) {
            Some(m) => m.checked_add(digit),
            None => None,
        };
        proof {
            assert(cs@.subrange(start as int, i + 1).drop_last() =~= cs@.subrange(start as int, i as int));
        }
        match next {
            Some(n) => {
                if n > max {
                    proof {
                        assert(digits_value(cs@.subrange(start as int, i + 1)) == n);
                        if all_digits(d) {
                            assert(d.take(i + 1 - start) =~= cs@.subrange(start as int, i + 1));
                            lemma_digits_value_prefix(d, i + 1 - start);
                        }
                    }
                    return None;
                }
                acc = n;
            },
            None => {
                proof {
                    assert(digits_value(cs@.subrange(start as int, i + 1)) == acc * 10 + digit);
                    assert(acc * 10 + digit > u64::MAX);
                    if all_digits(d) {
                        assert(d.take(i + 1 - start) =~= cs@.subrange(start as int, i + 1));
                        lemma_digits_value_prefix(d, i + 1 - start);
                    }
                }
                return None;
            },
        }
        i = i + 1;
    }
    proof {
        assert forall|k: int| 0 <= k < d.len() implies is_digit(#[trigger] d[k]) by {
            assert(d[k] == cs@[k + start]);
        }
        assert(all_digits(d));
        assert(cs@.subrange(start as int, i as int) =~= d);
    }
    Some(acc)
}


/// Lexicographic order of character sequences, characters compared by code
/// point. This is the order of std's `Ord for str` (which compares the
/// UTF-8 bytes; UTF-8 keeps code point order).
pub open spec fn seq_lt(a: Seq<char>, b: Seq<char>) -> bool
    decreases a.len(),
{
    if a.len() == 0 {
        b.len() > 0
    } else if b.len() == 0 {
        false
    } else if a[0] != b[0] {
        a[0] < b[0]
    } else {
        seq_lt(a.drop_first(), b.drop_first())
    }
}

/// No sequence is before itself.
pub proof fn lemma_seq_lt_irreflexive(a: Seq<char>)
    ensures
        !seq_lt(a, a),
    decreases a.len(),
{
    if a.len() > 0 {
        lemma_seq_lt_irreflexive(a.drop_first());
    }
}

/// The order is transitive.
pub proof fn lemma_seq_lt_transitive(a: Seq<char>, b: Seq<char>, c: Seq<char>)
    requires
        seq_lt(a, b),
        seq_lt(b, c),
    ensures
        seq_lt(a, c),
    decreases a.len(),
{
    if a.len() > 0 && b.len() > 0 && c.len() > 0 {
        if a[0] == b[0] && b[0] == c[0] {
            lemma_seq_lt_transitive(a.drop_first(), b.drop_first(), c.drop_first());
        }
    }
}

/// Two different sequences are ordered one way or the other.
pub proof fn lemma_seq_lt_total(a: Seq<char>, b: Seq<char>)
    requires
        a != b,
    ensures
        seq_lt(a, b) || seq_lt(b, a),
    decreases a.len(),
{
    if a.len() == 0 {
        assert(b.len() > 0) by {
            if b.len() == 0 {
                assert(a =~= b);
            }
        }
    } else if b.len() > 0 && a[0] == b[0] {
        if a.drop_first() == b.drop_first() {
            assert(a =~= seq![a[0]] + a.drop_first());
            assert(b =~= seq![b[0]] + b.drop_first());
        }
        lemma_seq_lt_total(a.drop_first(), b.drop_first());
    }
}

/// A common prefix does not change the order.
pub proof fn lemma_seq_lt_prefix(p: Seq<char>, a: Seq<char>, b: Seq<char>)
    requires
        seq_lt(a, b),
    ensures
        seq_lt(p + a, p + b),
    decreases p.len(),
{
    if p.len() > 0 {
        lemma_seq_lt_prefix(p.drop_first(), a, b);
        assert((p + a).drop_first() =~= p.drop_first() + a);
        assert((p + b).drop_first() =~= p.drop_first() + b);
    }
}

/// Of two sequences of one length, the smaller stays smaller whatever
/// follows each.
pub proof fn lemma_seq_lt_head(a: Seq<char>, b: Seq<char>, x: Seq<char>, y: Seq<char>)
    requires
        a.len() == b.len(),
        seq_lt(a, b),
    ensures
        seq_lt(a + x, b + y),
    decreases a.len(),
{
    if a.len() > 0 && a[0] == b[0] {
        lemma_seq_lt_head(a.drop_first(), b.drop_first(), x, y);
        assert((a + x).drop_first() =~= a.drop_first() + x);
        assert((b + y).drop_first() =~= b.drop_first() + y);
    }
}

/// Two digits of `n` (below 100), with a leading zero.
pub proof fn lemma_zero_padded_2(n: nat)
    requires
        n < 100,
    ensures
        zero_padded(n, 2) == seq![digit_char((n / 10) as int), digit_char((n % 10) as int)],
{
    reveal_with_fuel(decimal, 3);
    if n < 10 {
        assert(n / 10 == 0 && n % 10 == n);
        assert(decimal(n) =~= seq![digit_char(n as int)]);
        assert(zero_padded(n, 2) =~= seq!['0', digit_char(n as int)]);
        assert(digit_char(0) == '0') by {
            lemma_digit_char(0);
        }
    } else {
        assert(n / 10 < 10);
        assert(decimal(n / 10) =~= seq![digit_char((n / 10) as int)]);
        assert(zero_padded(n, 2) =~= seq![digit_char((n / 10) as int), digit_char((n % 10) as int)]);
    }
}

/// Four digits of `n` (below 10000), with leading zeros.
pub proof fn lemma_zero_padded_4(n: nat)
    requires
        n < 10000,
    ensures
        zero_padded(n, 4) == seq![
            digit_char((n / 1000) as int),
            digit_char((n / 100 % 10) as int),
            digit_char((n / 10 % 10) as int),
            digit_char((n % 10) as int),
        ],
{
    reveal_with_fuel(decimal, 5);
    assert(digit_char(0) == '0') by {
        lemma_digit_char(0);
    }
    let q1 = n / 10;
    let q2 = q1 / 10;
    let q3 = q2 / 10;
    assert(q2 == n / 100 && q3 == n / 1000 && q1 % 10 == n / 10 % 10 && q2 % 10 == n / 100 % 10) by (nonlinear_arith)
        requires
            q1 == n / 10,
            q2 == q1 / 10,
            q3 == q2 / 10,
    ;
    if n < 10 {
        assert(decimal(n) =~= seq![digit_char(n as int)]);
        assert(zero_padded(n, 4) =~= seq!['0', '0', '0', digit_char(n as int)]);
    } else if n < 100 {
        assert(decimal(q1) =~= seq![digit_char(q1 as int)]);
        assert(decimal(n) =~= seq![digit_char(q1 as int), digit_char((n % 10) as int)]);
        assert(zero_padded(n, 4) =~= seq!['0', '0', digit_char(q1 as int), digit_char((n % 10) as int)]);
    } else if n < 1000 {
        assert(decimal(q2) =~= seq![digit_char(q2 as int)]);
        assert(decimal(q1) =~= seq![digit_char(q2 as int), digit_char((q1 % 10) as int)]);
        assert(decimal(n) =~= seq![digit_char(q2 as int), digit_char((q1 % 10) as int), digit_char((n % 10) as int)]);
    } else {
        assert(decimal(q3) =~= seq![digit_char(q3 as int)]);
        assert(decimal(q2) =~= seq![digit_char(q3 as int), digit_char((q2 % 10) as int)]);
        assert(decimal(q1) =~= seq![digit_char(q3 as int), digit_char((q2 % 10) as int), digit_char((q1 % 10) as int)]);
        assert(decimal(n) =~= seq![
            digit_char(q3 as int),
            digit_char((q2 % 10) as int),
            digit_char((q1 % 10) as int),
            digit_char((n % 10) as int),
        ]);
    }
}

/// Smaller digits come first.
proof fn lemma_digit_char_lt(a: int, b: int)
    requires
        0 <= a < b < 10,
    ensures
        digit_char(a) < digit_char(b),
        digit_char(a) != digit_char(b),
{
    lemma_digit_char(a);
    lemma_digit_char(b);
}

/// Two-digit fields of smaller numbers come first.
pub proof fn lemma_zero_padded_2_lt(a: nat, b: nat)
    requires
        a < b < 100,
    ensures
        seq_lt(zero_padded(a, 2), zero_padded(b, 2)),
        zero_padded(a, 2).len() == 2,
        zero_padded(b, 2).len() == 2,
{
    lemma_zero_padded_2(a);
    lemma_zero_padded_2(b);
    let za = zero_padded(a, 2);
    let zb = zero_padded(b, 2);
    reveal_with_fuel(seq_lt, 3);
    if a / 10 < b / 10 {
        lemma_digit_char_lt((a / 10) as int, (b / 10) as int);
    } else {
        assert(a / 10 == b / 10);
        lemma_digit_char_lt((a % 10) as int, (b % 10) as int);
        assert(za.drop_first() =~= seq![digit_char((a % 10) as int)]);
        assert(zb.drop_first() =~= seq![digit_char((b % 10) as int)]);
    }
}

/// Four-digit fields of smaller numbers come first.
pub proof fn lemma_zero_padded_4_lt(a: nat, b: nat)
    requires
        a < b < 10000,
    ensures
        seq_lt(zero_padded(a, 4), zero_padded(b, 4)),
        zero_padded(a, 4).len() == 4,
        zero_padded(b, 4).len() == 4,
{
    lemma_zero_padded_4(a);
    lemma_zero_padded_4(b);
    let za = zero_padded(a, 4);
    let zb = zero_padded(b, 4);
    let (a1, a2, a3, a4) = (a / 1000, a / 100 % 10, a / 10 % 10, a % 10);
    let (b1, b2, b3, b4) = (b / 1000, b / 100 % 10, b / 10 % 10, b % 10);
    assert(a == a1 * 1000 + a2 * 100 + a3 * 10 + a4 && b == b1 * 1000 + b2 * 100 + b3 * 10 + b4
        && a1 < 10 && b1 < 10) by (nonlinear_arith)
        requires
            a < 10000,
            b < 10000,
            a1 == a / 1000,
            a2 == a / 100 % 10,
            a3 == a / 10 % 10,
            a4 == a % 10,
            b1 == b / 1000,
            b2 == b / 100 % 10,
            b3 == b / 10 % 10,
            b4 == b % 10,
    ;
    let sa = seq![digit_char(a1 as int), digit_char(a2 as int), digit_char(a3 as int), digit_char(a4 as int)];
    let sb = seq![digit_char(b1 as int), digit_char(b2 as int), digit_char(b3 as int), digit_char(b4 as int)];
    assert(za == sa && zb == sb);
    let da = seq![a1 as int, a2 as int, a3 as int, a4 as int];
    let db = seq![b1 as int, b2 as int, b3 as int, b4 as int];
    lemma_digit_number_4(da);
    lemma_digit_number_4(db);
    lemma_digits_lt(sa, sb, da, db);
}

/// Ten to the power `k`.
spec fn ten_to(k: nat) -> int
    decreases k,
{
    if k == 0 {
        1
    } else {
        10 * ten_to((k - 1) as nat)
    }
}

/// The value of digits `d` (most significant first).
spec fn digit_number(d: Seq<int>) -> int
    decreases d.len(),
{
    if d.len() == 0 {
        0
    } else {
        digit_number(d.drop_last()) * 10 + d.last()
    }
}

proof fn lemma_digit_number_4(d: Seq<int>)
    requires
        d.len() == 4,
    ensures
        digit_number(d) == d[0] * 1000 + d[1] * 100 + d[2] * 10 + d[3],
{
    let d3 = d.drop_last();
    let d2 = d3.drop_last();
    let d1 = d2.drop_last();
    let d0 = d1.drop_last();
    assert(d0.len() == 0);
    assert(digit_number(d0) == 0);
    assert(d1.last() == d[0] && d2.last() == d[1] && d3.last() == d[2] && d.last() == d[3]);
    assert(digit_number(d1) == d[0]);
    assert(digit_number(d2) == d[0] * 10 + d[1]);
    assert(digit_number(d3) == (d[0] * 10 + d[1]) * 10 + d[2]);
}

proof fn lemma_digit_number_bound(d: Seq<int>)
    requires
        forall|i: int| 0 <= i < d.len() ==> 0 <= #[trigger] d[i] < 10,
    ensures
        0 <= digit_number(d) < ten_to(d.len()),
    decreases d.len(),
{
    if d.len() > 0 {
        lemma_digit_number_bound(d.drop_last());
        let p = ten_to((d.len() - 1) as nat);
        let v = digit_number(d.drop_last());
        assert(v * 10 + d.last() < p * 10) by (nonlinear_arith)
            requires
                0 <= v < p,
                0 <= d.last() < 10,
        ;
    }
}

/// `digit_number(d)` split after its first digit.
proof fn lemma_digit_number_front(d: Seq<int>)
    requires
        d.len() > 0,
    ensures
        digit_number(d) == d[0] * ten_to((d.len() - 1) as nat) + digit_number(
            d.drop_first(),
        ),
    decreases d.len(),
{
    if d.len() > 1 {
        lemma_digit_number_front(d.drop_last());
        assert(d.drop_last().drop_first() =~= d.drop_first().drop_last());
        let p = ten_to((d.len() - 2) as nat);
        let r = digit_number(d.drop_first().drop_last());
        assert(digit_number(d.drop_last()) == d[0] * p + r);
        assert(d.drop_first().last() == d.last());
        assert(digit_number(d.drop_first()) == r * 10 + d.last());
        assert(d.drop_last()[0] == d[0]);
        assert((d[0] * p + r) * 10 + d.last() == d[0] * (p * 10) + (r * 10 + d.last())) by (nonlinear_arith);
        assert(ten_to((d.len() - 1) as nat) == 10 * p);
    } else {
        assert(d.drop_first().len() == 0);
        assert(d.drop_last().len() == 0);
        assert(digit_number(d.drop_first()) == 0);
        assert(digit_number(d.drop_last()) == 0);
        assert(d.last() == d[0]);
        assert(ten_to(0) == 1);
    }
}

/// Digit sequences of one length compare as their values.
proof fn lemma_digits_lt(sa: Seq<char>, sb: Seq<char>, da: Seq<int>, db: Seq<int>)
    requires
        da.len() == db.len() == sa.len() == sb.len(),
        forall|i: int| 0 <= i < da.len() ==> 0 <= #[trigger] da[i] < 10,
        forall|i: int| 0 <= i < db.len() ==> 0 <= #[trigger] db[i] < 10,
        forall|i: int| 0 <= i < sa.len() ==> #[trigger] sa[i] == digit_char(da[i]),
        forall|i: int| 0 <= i < sb.len() ==> #[trigger] sb[i] == digit_char(db[i]),
        digit_number(da) < digit_number(db),
    ensures
        seq_lt(sa, sb),
    decreases da.len(),
{
    lemma_digit_number_front(da);
    lemma_digit_number_front(db);
    let p = ten_to((da.len() - 1) as nat);
    lemma_digit_number_bound(da.drop_first());
    lemma_digit_number_bound(db.drop_first());
    let ra = digit_number(da.drop_first());
    let rb = digit_number(db.drop_first());
    if da[0] < db[0] {
        lemma_digit_char_lt(da[0], db[0]);
    } else if da[0] > db[0] {
        assert(da[0] * p + ra >= db[0] * p + rb) by (nonlinear_arith)
            requires
                da[0] > db[0],
                0 <= ra < p,
                0 <= rb < p,
        ;
    } else {
        lemma_digits_lt(sa.drop_first(), sb.drop_first(), da.drop_first(), db.drop_first());
    }
}

/// The order is asymmetric.
pub proof fn lemma_seq_lt_asymmetric(a: Seq<char>, b: Seq<char>)
    requires
        seq_lt(a, b),
    ensures
        !seq_lt(b, a),
{
    if seq_lt(b, a) {
        lemma_seq_lt_transitive(a, b, a);
        lemma_seq_lt_irreflexive(a);
    }
}

/// `a < b` in the order of [`seq_lt`].
pub fn str_lt(a: &str, b: &str) -> (r: bool)
    ensures
        r == seq_lt(a@, b@),
{
    let x = chars_of(a);
    let y = chars_of(b);
    let mut i: usize = 0;
    proof {
        assert(x@.skip(0) =~= x@);
        assert(y@.skip(0) =~= y@);
    }
    while i < x.len() && i < y.len() && x[i] == y[i]
        invariant
            x@ == a@,
            y@ == b@,
            i <= x@.len(),
            i <= y@.len(),
            seq_lt(a@, b@) == seq_lt(x@.skip(i as int), y@.skip(i as int)),
        decreases x@.len() - i,
    {
        proof {
            assert(x@.skip(i as int).drop_first() =~= x@.skip(i + 1));
            assert(y@.skip(i as int).drop_first() =~= y@.skip(i + 1));
        }
        i = i + 1;
    }
    if i == x.len() {
        i < y.len()
    } else if i == y.len() {
        false
    } else {
        proof {
            assert(x@.skip(i as int)[0] == x@[i as int]);
            assert(y@.skip(i as int)[0] == y@[i as int]);
        }
        x[i] < y[i]
    }
}

/// How many entries of `ids` are before `x`.
pub open spec fn count_less(ids: Seq<Seq<char>>, x: Seq<char>) -> nat
    decreases ids.len(),
{
    if ids.len() == 0 {
        0
    } else {
        count_less(ids.drop_last(), x) + if seq_lt(ids.last(), x) {
            1nat
        } else {
            0nat
        }
    }
}

/// Counting is monotone in the order.
pub proof fn lemma_count_less_monotone(ids: Seq<Seq<char>>, x: Seq<char>, y: Seq<char>)
    requires
        seq_lt(x, y) || x == y,
    ensures
        count_less(ids, x) <= count_less(ids, y),
    decreases ids.len(),
{
    if ids.len() > 0 {
        lemma_count_less_monotone(ids.drop_last(), x, y);
        if seq_lt(ids.last(), x) && x != y {
            lemma_seq_lt_transitive(ids.last(), x, y);
        }
    }
}

/// An entry of `ids` counts fewer entries before it than anything after
/// it does.
pub proof fn lemma_count_less_strict(ids: Seq<Seq<char>>, k: int, y: Seq<char>)
    requires
        0 <= k < ids.len(),
        seq_lt(ids[k], y),
    ensures
        count_less(ids, ids[k]) < count_less(ids, y),
    decreases ids.len(),
{
    let x = ids[k];
    let init = ids.drop_last();
    if k == ids.len() - 1 {
        lemma_count_less_monotone(init, x, y);
        lemma_seq_lt_irreflexive(x);
    } else {
        assert(init[k] == x);
        lemma_count_less_strict(init, k, y);
        if seq_lt(ids.last(), x) {
            lemma_seq_lt_transitive(ids.last(), x, y);
        }
    }
}

/// `count_less` never exceeds the length.
pub proof fn lemma_count_less_bound(ids: Seq<Seq<char>>, x: Seq<char>)
    ensures
        count_less(ids, x) <= ids.len(),
    decreases ids.len(),
{
    if ids.len() > 0 {
        lemma_count_less_bound(ids.drop_last(), x);
    }
}

/// How many entries of `ids` are before `x` (see [`count_less`]).
pub fn count_before(ids: &Vec<String>, x: &str) -> (r: u64)
    ensures
        r as nat == count_less(ids@.map_values(|s: String| s@), x@),
{
    let ghost v = ids@.map_values(|s: String| s@);
    let mut c: u64 = 0;
    let mut i: usize = 0;
    while i < ids.len()
        invariant
            v == ids@.map_values(|s: String| s@),
            i <= ids@.len(),
            c as nat == count_less(v.take(i as int), x@),
        decreases ids@.len() - i,
    {
        proof {
            assert(v.take(i + 1).drop_last() =~= v.take(i as int));
            assert(v.take(i + 1).last() == ids@[i as int]@);
            lemma_count_less_bound(v.take(i as int), x@);
        }
        if str_lt(ids[i].as_str(), x) {
            c = c + 1;
        }
        i = i + 1;
    }
    proof {
        assert(v.take(i as int) =~= v);
    }
    c
}

} // verus!
