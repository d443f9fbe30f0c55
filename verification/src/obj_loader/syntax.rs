//! The character-level grammar of OBJ text: lines, whitespace-separated words,
//! `/`-separated index triplets and unsigned decimal numbers.
use vstd::prelude::*;

verus! {

/// The characters that carry the Unicode `White_Space` property.
pub open spec fn is_whitespace(c: char) -> bool {
    let u = c as u32;
    ||| 0x09 <= u <= 0x0D
    ||| u == 0x20
    ||| u == 0x85
    ||| u == 0xA0
    ||| u == 0x1680
    ||| 0x2000 <= u <= 0x200A
    ||| u == 0x2028
    ||| u == 0x2029
    ||| u == 0x202F
    ||| u == 0x205F
    ||| u == 0x3000
}

/// Tells whether `c` is a whitespace character.
pub fn char_is_whitespace(c: char) -> (b: bool)
    ensures
        b == is_whitespace(c),
{
    let u = c as u32;
    (0x09 <= u && u <= 0x0D) || u == 0x20 || u == 0x85 || u == 0xA0 || u == 0x1680 || (0x2000
        <= u && u <= 0x200A) || u == 0x2028 || u == 0x2029 || u == 0x202F || u == 0x205F || u
        == 0x3000
}

/// Reading `s` one character at a time and cutting it at each `sep`:
/// the pieces completed so far and the piece being read.
pub open spec fn split_state(s: Seq<char>, sep: char) -> (Seq<Seq<char>>, Seq<char>)
    decreases s.len(),
{
    if s.len() == 0 {
        (seq![], seq![])
    } else {
        let (done, cur) = split_state(s.drop_last(), sep);
        if s.last() == sep {
            (done.push(cur), seq![])
        } else {
            (done, cur.push(s.last()))
        }
    }
}

/// The lines of a text: the pieces between `'\n'` characters, where a last
/// empty piece (after a final `'\n'`, or of an empty text) is no line.
pub open spec fn text_lines(s: Seq<char>) -> Seq<Seq<char>> {
    let (done, cur) = split_state(s, '\n');
    if cur.len() > 0 {
        done.push(cur)
    } else {
        done
    }
}

/// The pieces of `s` between `'/'` characters, empty ones included.
pub open spec fn slash_parts(s: Seq<char>) -> Seq<Seq<char>> {
    let (done, cur) = split_state(s, '/');
    done.push(cur)
}

/// Reading a line one character at a time: the words completed so far and
/// the word being read. A word is a maximal run of non-whitespace characters.
pub open spec fn words_state(s: Seq<char>) -> (Seq<Seq<char>>, Seq<char>)
    decreases s.len(),
{
    if s.len() == 0 {
        (seq![], seq![])
    } else {
        let (done, cur) = words_state(s.drop_last());
        if is_whitespace(s.last()) {
            if cur.len() > 0 {
                (done.push(cur), seq![])
            } else {
                (done, seq![])
            }
        } else {
            (done, cur.push(s.last()))
        }
    }
}

/// The whitespace-separated words of `s`, in order.
pub open spec fn words(s: Seq<char>) -> Seq<Seq<char>> {
    let (done, cur) = words_state(s);
    if cur.len() > 0 {
        done.push(cur)
    } else {
        done
    }
}

/// Unfolds `words_state` by one character.
pub proof fn lemma_words_state_push(s: Seq<char>, c: char)
    ensures
        words_state(s.push(c)) == ({
            let (done, cur) = words_state(s);
            if is_whitespace(c) {
                if cur.len() > 0 {
                    (done.push(cur), Seq::<char>::empty())
                } else {
                    (done, Seq::<char>::empty())
                }
            } else {
                (done, cur.push(c))
            }
        }),
{
    assert(s.push(c).drop_last() =~= s);
}

/// Unfolds `split_state` by one character.
pub proof fn lemma_split_state_push(s: Seq<char>, sep: char, c: char)
    ensures
        split_state(s.push(c), sep) == ({
            let (done, cur) = split_state(s, sep);
            if c == sep {
                (done.push(cur), Seq::<char>::empty())
            } else {
                (done, cur.push(c))
            }
        }),
{
    assert(s.push(c).drop_last() =~= s);
}

/// A vector of characters is its own deep view.
pub proof fn lemma_chars_deep_view(v: Vec<char>)
    ensures
        v.deep_view() == v@,
{
    assert(v.deep_view() =~= v@);
}

/// Splits `t` at each `'/'`.
pub fn split_slash(t: &Vec<char>) -> (parts: Vec<Vec<char>>)
    ensures
        parts.deep_view() == slash_parts(t@),
{
    let mut done: Vec<Vec<char>> = Vec::new();
    let mut cur: Vec<char> = Vec::new();
    let n = t.len();
    for i in 0..n
        invariant
            n == t.len(),
            (done.deep_view(), cur@) == split_state(t@.take(i as int), '/'),
    {
        proof {
            lemma_split_state_push(t@.take(i as int), '/', t@[i as int]);
            assert(t@.take(i as int).push(t@[i as int]) =~= t@.take(i + 1));
        }
        let c = t[i];
        if c == '/' {
            let ghost old_done = done.deep_view();
            let piece = cur;
            cur = Vec::new();
            proof {
                lemma_chars_deep_view(piece);
            }
            done.push(piece);
            assert(done.deep_view() =~= old_done.push(piece@));
        } else {
            cur.push(c);
        }
    }
    assert(t@.take(n as int) =~= t@);
    let ghost old_done = done.deep_view();
    proof {
        lemma_chars_deep_view(cur);
    }
    done.push(cur);
    assert(done.deep_view() =~= old_done.push(cur@));
    done
}

/// The value of the ASCII digit `c`, if it is one.
pub open spec fn is_digit(c: char) -> bool {
    '0' <= c <= '9'
}

/// The number that a string of decimal digits writes.
pub open spec fn digits_value(s: Seq<char>) -> int
    decreases s.len(),
{
    if s.len() == 0 {
        0
    } else {
        digits_value(s.drop_last()) * 10 + (s.last() as u32 - '0' as u32)
    }
}

pub open spec fn all_digits(s: Seq<char>) -> bool {
    forall|i: int| 0 <= i < s.len() ==> is_digit(#[trigger] s[i])
}

/// What `str::parse::<u16>` gives for `s`: an optional `'+'`, then one or more
/// ASCII digits whose value fits in 16 bits.
pub open spec fn u16_literal(s: Seq<char>) -> Option<u16> {
    let d = if s.len() > 0 && s[0] == '+' {
        s.drop_first()
    } else {
        s
    };
    if d.len() > 0 && all_digits(d) && digits_value(d) <= 0xffff {
        Some(digits_value(d) as u16)
    } else {
        None
    }
}

/// A longer string of digits never writes a smaller number.
proof fn lemma_digits_value_grows(s: Seq<char>, k: int)
    requires
        all_digits(s),
        0 <= k <= s.len(),
    ensures
        0 <= digits_value(s.take(k)) <= digits_value(s),
    decreases s.len(),
{
    if s.len() > 0 {
        if k == s.len() {
            assert(s.take(k) =~= s);
            lemma_digits_value_grows(s.drop_last(), k - 1);
            assert(s.drop_last().take(k - 1) =~= s.drop_last());
        } else {
            lemma_digits_value_grows(s.drop_last(), k);
            assert(s.drop_last().take(k) =~= s.take(k));
            lemma_digits_value_grows(s.drop_last(), s.len() - 1);
            assert(s.drop_last().take(s.len() - 1) =~= s.drop_last());
        }
    } else {
        assert(s.take(k) =~= s);
    }
}

/// Parses `s` as `str::parse::<u16>` does.
pub fn parse_u16(s: &Vec<char>) -> (r: Option<u16>)
    ensures
        r == u16_literal(s@),
{
    let n = s.len();
    let start: usize = if n > 0 && s[0] == '+' {
        1
    } else {
        0
    };
    let ghost d = if s@.len() > 0 && s@[0] == '+' {
        s@.drop_first()
    } else {
        s@
    };
    assert(d =~= s@.skip(start as int));
    if start == n {
        return None;
    }
    let mut v: u32 = 0;
    let mut i = start;
    while i < n
        invariant
            start <= i <= n,
            n == s.len(),
            d == s@.skip(start as int),
            d == (if s@.len() > 0 && s@[0] == '+' {
                s@.drop_first()
            } else {
                s@
            }),
            d.len() > 0,
            all_digits(d.take(i - start)),
            v == digits_value(d.take(i - start)),
            v <= 0xffff,
        decreases n - i,
    {
        let c = s[i];
        assert(d.take(i + 1 - start).drop_last() =~= d.take(i - start));
        if !('0' <= c && c <= '9') {
            assert(!all_digits(d)) by {
                assert(d[i - start] == c);
                assert(!is_digit(d[i - start]));
            }
            return None;
        }
        let digit = c as u32 - '0' as u32;
        assert(d.take(i + 1 - start).last() == c);
        v = v * 10 + digit;
        i = i + 1;
        assert(v == digits_value(d.take(i - start)));
        assert(all_digits(d.take(i - start))) by {
            assert forall|j: int| 0 <= j < i - start implies is_digit(#[trigger] d.take(i - start)[j]) by {
                if j < i - 1 - start {
                    assert(d.take(i - start)[j] == d.take(i - 1 - start)[j]);
                }
            }
        }
        if v > 0xffff {
            proof {
                if all_digits(d) {
                    lemma_digits_value_grows(d, i - start);
                }
            }
            return None;
        }
    }
    assert(d.take(n - start) =~= d);
    Some(v as u16)
}

} // verus!

verus! {

/// `s` equals the lowercase ASCII word `word`, letter case aside.
pub open spec fn equals_ignoring_case(s: Seq<char>, word: Seq<char>) -> bool {
    &&& s.len() == word.len()
    &&& forall|i: int|
        0 <= i < s.len() ==> (s[i] == word[i] || #[trigger] (s[i] as u32) + 32 == word[i] as u32)
}

/// Digits with at most one `'.'` among them, and at least one digit.
pub open spec fn is_mantissa(m: Seq<char>) -> bool {
    &&& forall|i: int| 0 <= i < m.len() ==> is_digit(#[trigger] m[i]) || m[i] == '.'
    &&& forall|i: int, j: int| 0 <= i < j < m.len() ==> !(#[trigger] m[i] == '.' && #[trigger] m[j] == '.')
    &&& exists|i: int| 0 <= i < m.len() && is_digit(#[trigger] m[i])
}

/// `e` or `E`, an optional sign, then one or more digits.
pub open spec fn is_exponent(x: Seq<char>) -> bool {
    &&& x.len() >= 2
    &&& (x[0] == 'e' || x[0] == 'E')
    &&& {
        let r = x.drop_first();
        let d = if r[0] == '+' || r[0] == '-' {
            r.drop_first()
        } else {
            r
        };
        d.len() > 0 && all_digits(d)
    }
}

/// A mantissa, then optionally an exponent.
pub open spec fn is_decimal(b: Seq<char>) -> bool {
    exists|k: int|
        0 <= k <= b.len() && #[trigger] is_mantissa(b.take(k)) && (k == b.len() || is_exponent(
            b.skip(k),
        ))
}

/// The syntax of floating-point literals that the standard library's
/// float parsing documents: an optional sign, then `inf`, `infinity`, `nan`
/// (in any letter case) or a decimal number with an optional exponent.
pub open spec fn float_literal(s: Seq<char>) -> bool {
    let b = if s.len() > 0 && (s[0] == '+' || s[0] == '-') {
        s.drop_first()
    } else {
        s
    };
    ||| equals_ignoring_case(b, seq!['i', 'n', 'f'])
    ||| equals_ignoring_case(b, seq!['i', 'n', 'f', 'i', 'n', 'i', 't', 'y'])
    ||| equals_ignoring_case(b, seq!['n', 'a', 'n'])
    ||| is_decimal(b)
}

/// Tells whether `s[start..]` equals `word`, letter case aside.
fn suffix_equals_ignoring_case(s: &Vec<char>, start: usize, word: &[char]) -> (r: bool)
    requires
        start <= s.len(),
    ensures
        r == equals_ignoring_case(s@.skip(start as int), word@),
{
    let ghost b = s@.skip(start as int);
    if s.len() - start != word.len() {
        return false;
    }
    let mut i: usize = 0;
    while i < word.len()
        invariant
            b == s@.skip(start as int),
            b.len() == word@.len(),
            start + word.len() == s.len(),
            0 <= i <= word.len(),
            forall|j: int|
                0 <= j < i ==> (b[j] == word@[j] || #[trigger] (b[j] as u32) + 32 == word@[j]
                    as u32),
        decreases word.len() - i,
    {
        let c = s[start + i];
        assert(c == b[i as int]);
        let w = word[i];
        if !(c == w || (w as u32 >= 32 && c as u32 == w as u32 - 32)) {
            return false;
        }
        i = i + 1;
    }
    true
}

/// Tells whether `s[lo..hi]` is a mantissa.
fn range_is_mantissa(s: &Vec<char>, lo: usize, hi: usize) -> (r: bool)
    requires
        lo <= hi <= s.len(),
    ensures
        r == is_mantissa(s@.subrange(lo as int, hi as int)),
{
    let ghost m = s@.subrange(lo as int, hi as int);
    let mut i = lo;
    let mut dot: Option<usize> = None;
    let mut digit = false;
    while i < hi
        invariant
            lo <= i <= hi <= s.len(),
            m == s@.subrange(lo as int, hi as int),
            forall|j: int| 0 <= j < i - lo ==> is_digit(#[trigger] m[j]) || m[j] == '.',
            match dot {
                Some(p) => lo <= p < i && m[p - lo] == '.' && forall|j: int|
                    0 <= j < i - lo && j != p - lo ==> #[trigger] m[j] != '.',
                None => forall|j: int| 0 <= j < i - lo ==> #[trigger] m[j] != '.',
            },
            digit == exists|j: int| 0 <= j < i - lo && is_digit(#[trigger] m[j]),
        decreases hi - i,
    {
        let c = s[i];
        assert(m[i - lo] == c);
        if '0' <= c && c <= '9' {
            digit = true;
        } else if c == '.' {
            match dot {
                Some(p) => {
                    assert(m[p - lo] == '.' && m[i - lo] == '.');
                    return false;
                },
                None => {
                    dot = Some(i);
                },
            }
        } else {
            assert(!(is_digit(m[i - lo]) || m[i - lo] == '.'));
            return false;
        }
        i = i + 1;
    }
    proof {
        assert(m.len() == i - lo);
        if let Some(p) = dot {
            assert(m[p - lo] == '.');
        }
        lemma_mantissa_scan(m, dot.is_some(), digit);
    }
    digit
}

/// Closes the scan of a mantissa: what was checked for every character is the mantissa rule.
proof fn lemma_mantissa_scan(m: Seq<char>, had_dot: bool, digit: bool)
    requires
        forall|j: int| 0 <= j < m.len() ==> is_digit(#[trigger] m[j]) || m[j] == '.',
        had_dot ==> exists|p: int|
            0 <= p < m.len() && m[p] == '.' && forall|j: int|
                0 <= j < m.len() && j != p ==> #[trigger] m[j] != '.',
        !had_dot ==> forall|j: int| 0 <= j < m.len() ==> #[trigger] m[j] != '.',
        digit == exists|j: int| 0 <= j < m.len() && is_digit(#[trigger] m[j]),
    ensures
        digit == is_mantissa(m),
{
    if had_dot {
        let p = choose|p: int|
            0 <= p < m.len() && m[p] == '.' && forall|j: int|
                0 <= j < m.len() && j != p ==> #[trigger] m[j] != '.';
        assert forall|i: int, j: int| 0 <= i < j < m.len() implies !(#[trigger] m[i] == '.'
            && #[trigger] m[j] == '.') by {
            if m[i] == '.' && m[j] == '.' {
                assert(i == p);
                assert(j == p);
            }
        }
    }
}

/// Tells whether `s[lo..]` is an exponent.
fn suffix_is_exponent(s: &Vec<char>, lo: usize) -> (r: bool)
    requires
        lo <= s.len(),
    ensures
        r == is_exponent(s@.skip(lo as int)),
{
    let ghost x = s@.skip(lo as int);
    let n = s.len();
    if n - lo < 2 {
        return false;
    }
    if !(s[lo] == 'e' || s[lo] == 'E') {
        assert(x[0] == s@[lo as int]);
        return false;
    }
    let ghost r = x.drop_first();
    assert(r[0] == s@[lo + 1]);
    let start = if s[lo + 1] == '+' || s[lo + 1] == '-' {
        lo + 2
    } else {
        lo + 1
    };
    let ghost d = if r[0] == '+' || r[0] == '-' {
        r.drop_first()
    } else {
        r
    };
    assert(d =~= s@.skip(start as int));
    assert(is_exponent(x) == (d.len() > 0 && all_digits(d)));
    if start == n {
        return false;
    }
    let mut i = start;
    while i < n
        invariant
            start <= i <= n,
            n == s.len(),
            d == s@.skip(start as int),
            x == s@.skip(lo as int),
            is_exponent(x) == (d.len() > 0 && all_digits(d)),
            d.len() > 0,
            forall|j: int| 0 <= j < i - start ==> is_digit(#[trigger] d[j]),
        decreases n - i,
    {
        let c = s[i];
        assert(d[i - start] == c);
        if !('0' <= c && c <= '9') {
            assert(!is_digit(d[i - start]));
            assert(!all_digits(d));
            return false;
        }
        i = i + 1;
    }
    true
}

/// Tells whether `s` is a floating-point literal.
pub fn is_float_literal(s: &Vec<char>) -> (r: bool)
    ensures
        r == float_literal(s@),
{
    let n = s.len();
    let start: usize = if n > 0 && (s[0] == '+' || s[0] == '-') {
        1
    } else {
        0
    };
    let ghost b = if s@.len() > 0 && (s@[0] == '+' || s@[0] == '-') {
        s@.drop_first()
    } else {
        s@
    };
    assert(b =~= s@.skip(start as int));
    if suffix_equals_ignoring_case(s, start, &['i', 'n', 'f']) {
        assert(['i', 'n', 'f']@ =~= seq!['i', 'n', 'f']);
        return true;
    }
    assert(['i', 'n', 'f']@ =~= seq!['i', 'n', 'f']);
    let infinity = ['i', 'n', 'f', 'i', 'n', 'i', 't', 'y'];
    assert(infinity@ =~= seq!['i', 'n', 'f', 'i', 'n', 'i', 't', 'y']);
    if suffix_equals_ignoring_case(s, start, &infinity) {
        return true;
    }
    assert(['n', 'a', 'n']@ =~= seq!['n', 'a', 'n']);
    if suffix_equals_ignoring_case(s, start, &['n', 'a', 'n']) {
        return true;
    }
    // The exponent, if any, starts at the first `e` or `E`.

    let mut k = start;
    while k < n && !(s[k] == 'e' || s[k] == 'E')
        invariant
            start <= k <= n,
            n == s.len(),
            forall|j: int| start <= j < k ==> !(#[trigger] s@[j] == 'e' || s@[j] == 'E'),
        decreases n - k,
    {
        k = k + 1;
    }
    let ok = range_is_mantissa(s, start, k) && (k == n || suffix_is_exponent(s, k));
    proof {
        let kk = (k - start) as int;
        assert(b.take(kk) =~= s@.subrange(start as int, k as int));
        assert(b.skip(kk) =~= s@.skip(k as int));
        if ok {
            assert(is_mantissa(b.take(kk)));
        } else {
            assert forall|k2: int|
                0 <= k2 <= b.len() && #[trigger] is_mantissa(b.take(k2)) implies !(k2 == b.len()
                || is_exponent(b.skip(k2))) by {
                if k2 < kk {
                    assert(b.skip(k2)[0] == b[k2]);
                    assert(b[k2] == s@[start + k2]);
                    assert(!is_exponent(b.skip(k2)));
                } else if k2 > kk {
                    assert(b.take(k2)[kk] == s@[k as int]);
                    assert(!(is_digit(b.take(k2)[kk]) || b.take(k2)[kk] == '.'));
                } else {
                }
            }
        }
    }
    ok
}

} // verus!
