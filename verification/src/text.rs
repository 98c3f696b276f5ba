//! Character-level text handling: whitespace, trimming, line splitting,
//! word splitting and decimal integer parsing, each stated over `Seq<char>`.
use vstd::prelude::*;

verus! {

broadcast use vstd::string::group_string_axioms;

/// Unicode `White_Space`, the property that `char::is_whitespace` tests.
pub open spec fn is_ws(c: char) -> bool {
    let u = c as u32;
    ||| 0x9 <= u <= 0xd
    ||| u == 0x20
    ||| u == 0x85
    ||| u == 0xa0
    ||| u == 0x1680
    ||| 0x2000 <= u <= 0x200a
    ||| u == 0x2028
    ||| u == 0x2029
    ||| u == 0x202f
    ||| u == 0x205f
    ||| u == 0x3000
}

/// Executable test for Unicode whitespace.
pub fn is_whitespace(c: char) -> (b: bool)
    ensures
        b == is_ws(c),
{
    let u = c as u32;
    (0x9 <= u && u <= 0xd) || u == 0x20 || u == 0x85 || u == 0xa0 || u == 0x1680 || (0x2000 <= u
        && u <= 0x200a) || u == 0x2028 || u == 0x2029 || u == 0x202f || u == 0x205f || u == 0x3000
}

/// The characters of `s`, in order.
pub fn chars_of(s: &str) -> (v: Vec<char>)
    ensures
        v@ == s@,
{
    let mut v: Vec<char> = Vec::new();
    for c in it: s.chars()
        invariant
            it.seq() == s@,
            v@ == it.seq().take(it.index()),
    {
        v.push(c);
    }
    v
}

/// `String::from_iter` over a slice of characters: the string made of
/// exactly those characters, in order.
#[verifier::external_body]
pub(crate) fn string_from_chars(chars: &[char]) -> (s: String)
    ensures
        s@ == chars@,
{
    String::from_iter(chars)
}

/// Number of whitespace characters at the start of `s`.
pub open spec fn leading_ws(s: Seq<char>) -> nat
    decreases s.len(),
{
    if s.len() > 0 && is_ws(s[0]) {
        1 + leading_ws(s.drop_first())
    } else {
        0
    }
}

/// Number of whitespace characters at the end of `s`.
pub open spec fn trailing_ws(s: Seq<char>) -> nat
    decreases s.len(),
{
    if s.len() > 0 && is_ws(s.last()) {
        1 + trailing_ws(s.drop_last())
    } else {
        0
    }
}

/// `s` without its leading and trailing whitespace (`str::trim`).
pub open spec fn trim(s: Seq<char>) -> Seq<char> {
    let r = s.skip(leading_ws(s) as int);
    r.take(r.len() - trailing_ws(r))
}

/// The characters of `chars[lo..hi]` without leading and trailing whitespace,
/// given as the bounds of the remaining range.
pub fn trim_bounds(chars: &Vec<char>, lo: usize, hi: usize) -> (r: (usize, usize))
    requires
        lo <= hi <= chars@.len(),
    ensures
        lo <= r.0 <= r.1 <= hi,
        chars@.subrange(r.0 as int, r.1 as int) == trim(chars@.subrange(lo as int, hi as int)),
{
    let ghost s = chars@.subrange(lo as int, hi as int);
    let mut i = lo;
    while i < hi && is_whitespace(chars[i])
        invariant
            lo <= i <= hi <= chars@.len(),
            s == chars@.subrange(lo as int, hi as int),
            leading_ws(s) == (i - lo) + leading_ws(chars@.subrange(i as int, hi as int)),
        decreases hi - i,
    {
        assert(chars@.subrange(i as int, hi as int).drop_first() =~= chars@.subrange(
            i + 1,
            hi as int,
        ));
        i = i + 1;
    }
    assert(leading_ws(chars@.subrange(i as int, hi as int)) == 0);
    let ghost r = s.skip(leading_ws(s) as int);
    assert(r =~= chars@.subrange(i as int, hi as int));
    let mut j = hi;
    while j > i && is_whitespace(chars[j - 1])
        invariant
            lo <= i <= j <= hi <= chars@.len(),
            r == chars@.subrange(i as int, hi as int),
            trailing_ws(r) == (hi - j) + trailing_ws(chars@.subrange(i as int, j as int)),
        decreases j,
    {
        assert(chars@.subrange(i as int, j as int).drop_last() =~= chars@.subrange(
            i as int,
            j - 1,
        ));
        j = j - 1;
    }
    assert(trailing_ws(chars@.subrange(i as int, j as int)) == 0);
    assert(r.take(r.len() - trailing_ws(r)) =~= chars@.subrange(i as int, j as int));
    (i, j)
}

/// `str::trim`: `s` without leading and trailing Unicode whitespace.
pub fn trim_str(s: &str) -> (t: String)
    ensures
        t@ == trim(s@),
{
    let chars = chars_of(s);
    let (a, b) = trim_bounds(&chars, 0, chars.len());
    assert(chars@.subrange(0, chars@.len() as int) =~= s@);
    string_from_chars(&chars[a..b])
}

/// An ASCII decimal digit.
pub open spec fn is_digit(c: char) -> bool {
    0x30 <= (c as u32) <= 0x39
}

/// The value of an ASCII decimal digit.
pub open spec fn digit_value(c: char) -> int {
    (c as u32) - 0x30
}

/// Every character of `s` is an ASCII decimal digit.
pub open spec fn all_digits(s: Seq<char>) -> bool {
    forall|i: int| 0 <= i < s.len() ==> is_digit(#[trigger] s[i])
}

/// The number that a string of decimal digits denotes.
pub open spec fn decimal_value(s: Seq<char>) -> int
    decreases s.len(),
{
    if s.len() == 0 {
        0
    } else {
        decimal_value(s.drop_last()) * 10 + digit_value(s.last())
    }
}

/// What `str::parse::<i32>` gives: an optional `+` or `-` sign followed by
/// at least one decimal digit and nothing else, whose value fits in `i32`.
pub open spec fn parse_i32(s: Seq<char>) -> Option<i32> {
    let negative = s.len() > 0 && s[0] == '-';
    let signed = s.len() > 0 && (s[0] == '-' || s[0] == '+');
    let digits = if signed {
        s.drop_first()
    } else {
        s
    };
    if digits.len() == 0 || !all_digits(digits) {
        None
    } else {
        let v = if negative {
            -decimal_value(digits)
        } else {
            decimal_value(digits)
        };
        if i32::MIN <= v <= i32::MAX {
            Some(v as i32)
        } else {
            None
        }
    }
}

proof fn lemma_decimal_value_nonneg(s: Seq<char>)
    requires
        all_digits(s),
    ensures
        decimal_value(s) >= 0,
    decreases s.len(),
{
    if s.len() > 0 {
        assert(all_digits(s.drop_last()));
        lemma_decimal_value_nonneg(s.drop_last());
        assert(is_digit(s[s.len() - 1]));
    }
}

/// Parsing a run of decimal digits, bare or after a sign, gives the number
/// it denotes whenever that number is an `i32`, whatever its size within
/// that range, and nothing when it is too large.
pub proof fn lemma_parse_i32_decimal(d: Seq<char>)
    requires
        d.len() > 0,
        all_digits(d),
    ensures
        decimal_value(d) <= i32::MAX ==> parse_i32(d) == Some(decimal_value(d) as i32),
        decimal_value(d) <= i32::MAX ==> parse_i32(seq!['+'] + d) == Some(decimal_value(d) as i32),
        decimal_value(d) <= 0x8000_0000 ==> parse_i32(seq!['-'] + d) == Some(
            (-decimal_value(d)) as i32,
        ),
        decimal_value(d) > i32::MAX ==> parse_i32(d) is None,
{
    lemma_decimal_value_nonneg(d);
    assert(is_digit(d[0]));
    assert((seq!['+'] + d).drop_first() =~= d);
    assert((seq!['-'] + d).drop_first() =~= d);
    assert((seq!['+'] + d)[0] == '+');
    assert((seq!['-'] + d)[0] == '-');
}

/// `str::parse::<i32>` on the characters `chars[lo..hi]`.
#[verifier::loop_isolation(false)]
pub fn parse_i32_range(chars: &Vec<char>, lo: usize, hi: usize) -> (r: Option<i32>)
    requires
        lo <= hi <= chars@.len(),
    ensures
        r == parse_i32(chars@.subrange(lo as int, hi as int)),
{
    let ghost s = chars@.subrange(lo as int, hi as int);
    let mut start = lo;
    let mut negative = false;
    if lo < hi && (chars[lo] == '-' || chars[lo] == '+') {
        negative = chars[lo] == '-';
        start = lo + 1;
    }
    let ghost digits = chars@.subrange(start as int, hi as int);
    assert(lo < hi && (chars@[lo as int] == '-' || chars@[lo as int] == '+') ==> digits
        =~= s.drop_first());
    assert(!(lo < hi && (chars@[lo as int] == '-' || chars@[lo as int] == '+')) ==> digits =~= s);
    if start == hi {
        return None;
    }
    // Magnitude so far; once it exceeds 2^31 only the fact that it does is kept.
    let mut acc: u64 = 0;
    let mut too_large = false;
    let mut k = start;
    while k < hi
        invariant
            start <= k <= hi <= chars@.len(),
            digits == chars@.subrange(start as int, hi as int),
            all_digits(chars@.subrange(start as int, k as int)),
            !too_large ==> acc == decimal_value(chars@.subrange(start as int, k as int)),
            !too_large ==> acc <= 0x8000_0000,
            too_large ==> decimal_value(chars@.subrange(start as int, k as int)) > 0x8000_0000,
        decreases hi - k,
    {
        let c = chars[k];
        let u = c as u32;
        if !(0x30 <= u && u <= 0x39) {
            assert(digits[k - start] == c);
            assert(!all_digits(digits));
            return None;
        }
        let ghost prev = chars@.subrange(start as int, k as int);
        let ghost next = chars@.subrange(start as int, k + 1);
        assert(next.drop_last() =~= prev);
        assert(all_digits(next));
        proof {
            lemma_decimal_value_nonneg(prev);
        }
        if !too_large {
            acc = acc * 10 + (u - 0x30) as u64;
            if acc > 0x8000_0000 {
                too_large = true;
            }
        }
        k = k + 1;
    }
    assert(chars@.subrange(start as int, k as int) =~= digits);
    if too_large {
        return None;
    }
    if negative {
        assert(s[0] == '-');
        Some((0 - (acc as i64)) as i32)
    } else {
        if acc > 0x7fff_ffff {
            return None;
        }
        Some(acc as i32)
    }
}

/// `str::parse::<i32>` on a whole string.
pub fn parse_pid(s: &str) -> (r: Option<i32>)
    ensures
        r == parse_i32(s@),
{
    let chars = chars_of(s);
    assert(chars@.subrange(0, chars@.len() as int) =~= s@);
    parse_i32_range(&chars, 0, chars.len())
}

/// Index of the first `c` in `s`, or `s.len()` when there is none.
pub open spec fn find_char(s: Seq<char>, c: char) -> nat
    decreases s.len(),
{
    if s.len() == 0 || s[0] == c {
        0
    } else {
        1 + find_char(s.drop_first(), c)
    }
}

/// A line without the carriage return that ends it, if one does.
pub open spec fn strip_cr(line: Seq<char>) -> Seq<char> {
    if line.len() > 0 && line.last() == '\r' {
        line.drop_last()
    } else {
        line
    }
}

/// `str::lines`: the pieces between `\n` characters, each without a `\r`
/// just before its `\n`; a last piece is kept as it is, and text that ends
/// in `\n` has no empty last line.
pub open spec fn lines(s: Seq<char>) -> Seq<Seq<char>>
    decreases s.len(),
{
    if s.len() == 0 {
        seq![]
    } else {
        let i = find_char(s, '\n');
        if i >= s.len() {
            seq![s]
        } else {
            seq![strip_cr(s.take(i as int))] + lines(s.skip(i as int + 1))
        }
    }
}

pub proof fn lemma_find_char(s: Seq<char>, c: char, j: int)
    requires
        0 <= j <= s.len(),
        forall|k: int| 0 <= k < j ==> s[k] != c,
        j == s.len() || s[j] == c,
    ensures
        find_char(s, c) == j,
    decreases j,
{
    if j > 0 {
        lemma_find_char(s.drop_first(), c, j - 1);
    }
}

/// `find_char` gives the first `c`: none comes before it, and it is a `c`
/// unless it is the length.
pub proof fn lemma_find_char_first(s: Seq<char>, c: char)
    ensures
        find_char(s, c) <= s.len(),
        forall|k: int| 0 <= k < find_char(s, c) ==> s[k] != c,
        find_char(s, c) < s.len() ==> s[find_char(s, c) as int] == c,
    decreases s.len(),
{
    if s.len() > 0 && s[0] != c {
        lemma_find_char_first(s.drop_first(), c);
        assert forall|k: int| 0 <= k < find_char(s, c) implies s[k] != c by {
            if k > 0 {
                assert(s[k] == s.drop_first()[k - 1]);
            }
        }
    }
}

/// The empty line that a newline adds when it follows text that is empty
/// or already ends a line.
pub open spec fn join_gap(a: Seq<char>) -> Seq<Seq<char>> {
    if a.len() == 0 || a.last() == '\n' {
        seq![seq![]]
    } else {
        seq![]
    }
}

/// The lines of two texts joined by a newline are those of the first, an
/// empty line when the first is empty or ends a line, and those of the
/// second; the first must not end in a carriage return, which the newline
/// would swallow.
pub proof fn lemma_lines_join(a: Seq<char>, b: Seq<char>)
    requires
        a.len() == 0 || a.last() != '\r',
    ensures
        lines(a + seq!['\n'] + b) == lines(a) + join_gap(a) + lines(b),
    decreases a.len(),
{
    let s = a + seq!['\n'] + b;
    lemma_find_char_first(a, '\n');
    let i = find_char(a, '\n') as int;
    if i == a.len() {
        assert forall|k: int| 0 <= k < a.len() implies s[k] != '\n' by {
            assert(s[k] == a[k]);
        }
        lemma_find_char(s, '\n', a.len() as int);
        assert(s.take(a.len() as int) =~= a);
        assert(s.skip(a.len() as int + 1) =~= b);
        if a.len() == 0 {
            assert(lines(a) =~= Seq::<Seq<char>>::empty());
            assert(strip_cr(s.take(0)) =~= Seq::<char>::empty());
            assert(lines(s) == seq![strip_cr(s.take(0))] + lines(s.skip(1)));
            assert(lines(s) =~= lines(a) + join_gap(a) + lines(b));
        } else {
            assert(strip_cr(a) == a);
            assert(lines(a) == seq![a]);
            assert(lines(s) =~= lines(a) + join_gap(a) + lines(b));
        }
    } else {
        assert forall|k: int| 0 <= k < i implies s[k] != '\n' by {
            assert(s[k] == a[k]);
        }
        lemma_find_char(s, '\n', i);
        let rest = a.skip(i + 1);
        assert(s.take(i) =~= a.take(i));
        assert(s.skip(i + 1) =~= rest + seq!['\n'] + b);
        if rest.len() > 0 {
            assert(rest.last() == a.last());
        }
        lemma_lines_join(rest, b);
        assert(join_gap(rest) == join_gap(a));
        assert(lines(a) == seq![strip_cr(a.take(i))] + lines(rest));
        assert(lines(s) == seq![strip_cr(a.take(i))] + lines(rest + seq!['\n'] + b));
        assert(lines(s) =~= lines(a) + join_gap(a) + lines(b));
    }
}

/// A range `lo..hi` of positions.
pub open spec fn range_text(chars: Seq<char>, r: (usize, usize)) -> Seq<char> {
    chars.subrange(r.0 as int, r.1 as int)
}

/// The ranges of `chars` that `str::lines` yields, in order.
pub fn line_ranges(chars: &Vec<char>) -> (r: Vec<(usize, usize)>)
    ensures
        r@.len() == lines(chars@).len(),
        forall|k: int| 0 <= k < r@.len() ==> #[trigger] r@[k].0 <= r@[k].1 <= chars@.len(),
        forall|k: int| 0 <= k < r@.len() ==> #[trigger] range_text(chars@, r@[k]) == lines(chars@)[k],
{
    let ghost s = chars@;
    let mut r: Vec<(usize, usize)> = Vec::new();
    let ghost mut emitted: Seq<Seq<char>> = seq![];
    let mut start: usize = 0;
    let mut i: usize = 0;
    assert(s.skip(0) =~= s);
    while i < chars.len()
        invariant
            s == chars@,
            start <= i <= chars@.len(),
            emitted + lines(s.skip(start as int)) == lines(s),
            r@.len() == emitted.len(),
            forall|k: int| 0 <= k < r@.len() ==> #[trigger] r@[k].0 <= r@[k].1 <= s.len(),
            forall|k: int| 0 <= k < r@.len() ==> #[trigger] range_text(s, r@[k]) == emitted[k],
            forall|k: int| start <= k < i ==> s[k] != '\n',
        decreases chars@.len() - i,
    {
        if chars[i] == '\n' {
            let ghost rest = s.skip(start as int);
            proof {
                lemma_find_char(rest, '\n', i - start);
                assert(rest.skip(i - start + 1) =~= s.skip(i + 1));
            }
            let mut end = i;
            if i > start && chars[i - 1] == '\r' {
                end = i - 1;
            }
            assert(s.subrange(start as int, end as int) =~= strip_cr(rest.take(i - start)));
            let ghost old_r = r@;
            let ghost old_e = emitted;
            r.push((start, end));
            proof {
                emitted = emitted.push(strip_cr(rest.take(i - start)));
                assert forall|k: int| 0 <= k < r@.len() implies #[trigger] range_text(s, r@[k]) == emitted[k] by {
                    if k < old_r.len() {
                        assert(r@[k] == old_r[k]);
                        assert(emitted[k] == old_e[k]);
                        assert(range_text(s, old_r[k]) == old_e[k]);
                    } else {
                        assert(r@[k] == (start, end));
                    }
                }
                assert(lines(rest) == seq![strip_cr(rest.take(i - start))] + lines(s.skip(i + 1)));
                assert(emitted + lines(s.skip(i + 1)) =~= lines(s));
            }
            start = i + 1;
        }
        i = i + 1;
    }
    if start < chars.len() {
        let ghost rest = s.skip(start as int);
        proof {
            lemma_find_char(rest, '\n', rest.len() as int);
            assert(s.subrange(start as int, s.len() as int) =~= rest);
        }
        let ghost old_r = r@;
        let ghost old_e = emitted;
        r.push((start, chars.len()));
        proof {
            emitted = emitted.push(rest);
            assert forall|k: int| 0 <= k < r@.len() implies #[trigger] range_text(s, r@[k]) == emitted[k] by {
                if k < old_r.len() {
                    assert(r@[k] == old_r[k]);
                    assert(emitted[k] == old_e[k]);
                    assert(range_text(s, old_r[k]) == old_e[k]);
                } else {
                    assert(r@[k] == (start, s.len() as usize));
                }
            }
            assert(emitted =~= lines(s));
        }
    } else {
        assert(s.skip(start as int) =~= Seq::<char>::empty());
        assert(emitted =~= lines(s));
    }
    r
}

/// Length of the run of non-whitespace characters that starts `s`.
pub open spec fn word_len(s: Seq<char>) -> nat
    decreases s.len(),
{
    if s.len() == 0 || is_ws(s[0]) {
        0
    } else {
        1 + word_len(s.drop_first())
    }
}

pub proof fn lemma_word_len_bound(s: Seq<char>)
    ensures
        word_len(s) <= s.len(),
    decreases s.len(),
{
    if s.len() > 0 && !is_ws(s[0]) {
        lemma_word_len_bound(s.drop_first());
    }
}

/// `str::split_whitespace`: the maximal runs of non-whitespace characters.
pub open spec fn words(s: Seq<char>) -> Seq<Seq<char>>
    decreases s.len(),
{
    if s.len() == 0 {
        seq![]
    } else if is_ws(s[0]) {
        words(s.drop_first())
    } else {
        let w = word_len(s);
        proof {
            lemma_word_len_bound(s);
        }
        seq![s.take(w as int)] + words(s.skip(w as int))
    }
}

proof fn lemma_word_len(s: Seq<char>, j: int)
    requires
        0 <= j <= s.len(),
        forall|k: int| 0 <= k < j ==> !is_ws(#[trigger] s[k]),
        j == s.len() || is_ws(s[j]),
    ensures
        word_len(s) == j,
    decreases j,
{
    if j > 0 {
        lemma_word_len(s.drop_first(), j - 1);
    }
}

/// The ranges of `chars[lo..hi]` that `str::split_whitespace` yields, in order.
pub fn word_ranges(chars: &Vec<char>, lo: usize, hi: usize) -> (r: Vec<(usize, usize)>)
    requires
        lo <= hi <= chars@.len(),
    ensures
        r@.len() == words(chars@.subrange(lo as int, hi as int)).len(),
        forall|k: int| 0 <= k < r@.len() ==> #[trigger] r@[k].0 <= r@[k].1 <= chars@.len(),
        forall|k: int|
            0 <= k < r@.len() ==> #[trigger] range_text(chars@, r@[k]) == words(
                chars@.subrange(lo as int, hi as int),
            )[k],
{
    let ghost s = chars@;
    let ghost whole = s.subrange(lo as int, hi as int);
    let mut r: Vec<(usize, usize)> = Vec::new();
    let ghost mut emitted: Seq<Seq<char>> = seq![];
    let mut i = lo;
    while i < hi
        invariant
            s == chars@,
            whole == s.subrange(lo as int, hi as int),
            lo <= i <= hi <= s.len(),
            emitted + words(s.subrange(i as int, hi as int)) =~= words(whole),
            r@.len() == emitted.len(),
            forall|k: int| 0 <= k < r@.len() ==> #[trigger] r@[k].0 <= r@[k].1 <= s.len(),
            forall|k: int| 0 <= k < r@.len() ==> #[trigger] range_text(s, r@[k]) == emitted[k],
        decreases hi - i,
    {
        let ghost rest = s.subrange(i as int, hi as int);
        if is_whitespace(chars[i]) {
            assert(rest.drop_first() =~= s.subrange(i + 1, hi as int));
            i = i + 1;
        } else {
            let mut j = i + 1;
            while j < hi && !is_whitespace(chars[j])
                invariant
                    s == chars@,
                    i < j <= hi <= s.len(),
                    forall|k: int| i <= k < j ==> !is_ws(#[trigger] s[k]),
                decreases hi - j,
            {
                j = j + 1;
            }
            proof {
                lemma_word_len(rest, j - i);
                assert(rest.take(j - i) =~= s.subrange(i as int, j as int));
                assert(rest.skip(j - i) =~= s.subrange(j as int, hi as int));
            }
            let ghost old_r = r@;
            let ghost old_e = emitted;
            r.push((i, j));
            proof {
                emitted = emitted.push(s.subrange(i as int, j as int));
                assert forall|k: int| 0 <= k < r@.len() implies #[trigger] range_text(s, r@[k])
                    == emitted[k] by {
                    if k < old_r.len() {
                        assert(r@[k] == old_r[k]);
                        assert(emitted[k] == old_e[k]);
                        assert(range_text(s, old_r[k]) == old_e[k]);
                    } else {
                        assert(r@[k] == (i, j));
                    }
                }
                assert(emitted + words(s.subrange(j as int, hi as int)) =~= words(whole));
            }
            i = j;
        }
    }
    assert(s.subrange(i as int, hi as int) =~= Seq::<char>::empty());
    assert(emitted =~= words(whole));
    r
}

/// Words joined with single spaces (`[&str]::join(" ")`).
pub open spec fn join_words(ws: Seq<Seq<char>>) -> Seq<char>
    decreases ws.len(),
{
    if ws.len() == 0 {
        seq![]
    } else if ws.len() == 1 {
        ws[0]
    } else {
        join_words(ws.drop_last()) + seq![' '] + ws.last()
    }
}

} // verus!
