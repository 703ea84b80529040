//! Character-level helpers. Strings are handled as sequences of `char`;
//! each helper states its result over `Seq<char>`.
use vstd::prelude::*;

verus! {

broadcast use vstd::string::group_string_axioms;

/// Appends one character to a `String` (std `String::push`).
/// Trusted: the new contents are the old contents followed by `c`.
#[verifier::external_body]
pub(crate) fn push_char(s: &mut String, c: char)
    ensures
        final(s)@ == old(s)@.push(c),
{
    s.push(c)
}

/// Lower-cased form of a string, as std `str::to_lowercase` computes it
/// (Unicode case mapping). Named, not defined: it depends on `s` alone.
pub uninterp spec fn lowercase(s: Seq<char>) -> Seq<char>;

/// std `str::to_lowercase`. Trusted: the result is `lowercase(s@)`.
#[verifier::external_body]
pub(crate) fn to_lowercase(s: &str) -> (res: String)
    ensures
        res@ == lowercase(s@),
{
    s.to_lowercase()
}

/// The characters of `s`, in order.
pub fn chars_of(s: &str) -> (res: Vec<char>)
    ensures
        res@ == s@,
{
    let mut v: Vec<char> = Vec::new();
    for c in it: s.chars()
        invariant
            v@ == it.seq().take(it.index() as int),
    {
        v.push(c);
    }
    v
}

/// A `String` holding the characters of `s[from..to]`.
pub fn string_of_range(s: &Vec<char>, from: usize, to: usize) -> (res: String)
    requires
        from <= to <= s@.len(),
    ensures
        res@ == s@.subrange(from as int, to as int),
{
    let mut out = String::new();
    let mut i = from;
    while i < to
        invariant
            from <= i <= to <= s@.len(),
            out@ == s@.subrange(from as int, i as int),
        decreases to - i,
    {
        push_char(&mut out, s[i]);
        assert(s@.subrange(from as int, i + 1) == s@.subrange(from as int, i as int).push(s@[i as int]));
        i = i + 1;
    }
    out
}

/// A `String` holding the characters of `s`.
pub fn string_of(s: &Vec<char>) -> (res: String)
    ensures
        res@ == s@,
{
    let r = string_of_range(s, 0, s.len());
    assert(s@.subrange(0, s@.len() as int) == s@);
    r
}

/// Whether `c` occurs in `set`.
pub fn char_in(c: char, set: &Vec<char>) -> (res: bool)
    ensures
        res == set@.contains(c),
{
    let mut i: usize = 0;
    while i < set.len()
        invariant
            i <= set@.len(),
            forall|j: int| 0 <= j < i ==> set@[j] != c,
        decreases set@.len() - i,
    {
        if set[i] == c {
            assert(set@[i as int] == c);
            return true;
        }
        i = i + 1;
    }
    false
}

/// The characters that std's `char::is_whitespace` accepts: those with the
/// Unicode `White_Space` property.
pub open spec fn whitespace_chars() -> Seq<char> {
    seq![
        '\u{9}', '\u{a}', '\u{b}', '\u{c}', '\u{d}', '\u{20}', '\u{85}', '\u{a0}', '\u{1680}',
        '\u{2000}', '\u{2001}', '\u{2002}', '\u{2003}', '\u{2004}', '\u{2005}', '\u{2006}',
        '\u{2007}', '\u{2008}', '\u{2009}', '\u{200a}', '\u{2028}', '\u{2029}', '\u{202f}',
        '\u{205f}', '\u{3000}',
    ]
}

/// Whether `c` is Unicode white space.
pub open spec fn is_whitespace(c: char) -> bool {
    whitespace_chars().contains(c)
}

/// The white-space characters, as a vector.
pub fn whitespace_set() -> (res: Vec<char>)
    ensures
        res@ == whitespace_chars(),
{
    let v = vec![
        '\u{9}', '\u{a}', '\u{b}', '\u{c}', '\u{d}', '\u{20}', '\u{85}', '\u{a0}', '\u{1680}',
        '\u{2000}', '\u{2001}', '\u{2002}', '\u{2003}', '\u{2004}', '\u{2005}', '\u{2006}',
        '\u{2007}', '\u{2008}', '\u{2009}', '\u{200a}', '\u{2028}', '\u{2029}', '\u{202f}',
        '\u{205f}', '\u{3000}',
    ];
    assert(v@ =~= whitespace_chars());
    v
}

/// `s` without its leading characters that belong to `set`.
pub open spec fn trim_start_set(s: Seq<char>, set: Seq<char>) -> Seq<char>
    decreases s.len(),
{
    if s.len() > 0 && set.contains(s[0]) {
        trim_start_set(s.drop_first(), set)
    } else {
        s
    }
}

/// `s` without its trailing characters that belong to `set`.
pub open spec fn trim_end_set(s: Seq<char>, set: Seq<char>) -> Seq<char>
    decreases s.len(),
{
    if s.len() > 0 && set.contains(s.last()) {
        trim_end_set(s.drop_last(), set)
    } else {
        s
    }
}

/// `s` without leading and trailing characters of `set` (std `trim_matches`).
pub open spec fn trim_set(s: Seq<char>, set: Seq<char>) -> Seq<char> {
    trim_end_set(trim_start_set(s, set), set)
}

/// `s` without leading and trailing white space (std `str::trim`).
pub open spec fn trim_ws(s: Seq<char>) -> Seq<char> {
    trim_set(s, whitespace_chars())
}

proof fn lemma_trim_start_skip(s: Seq<char>, set: Seq<char>, i: int)
    requires
        0 <= i <= s.len(),
        forall|j: int| 0 <= j < i ==> set.contains(s[j]),
    ensures
        trim_start_set(s, set) == trim_start_set(s.skip(i), set),
    decreases i,
{
    if i > 0 {
        assert(s.drop_first().skip(i - 1) =~= s.skip(i));
        lemma_trim_start_skip(s.drop_first(), set, i - 1);
    } else {
        assert(s.skip(0) =~= s);
    }
}

proof fn lemma_trim_end_take(s: Seq<char>, set: Seq<char>, i: int)
    requires
        0 <= i <= s.len(),
        forall|j: int| i <= j < s.len() ==> set.contains(s[j]),
    ensures
        trim_end_set(s, set) == trim_end_set(s.take(i), set),
    decreases s.len() - i,
{
    if i < s.len() {
        assert(s.drop_last().take(i) =~= s.take(i));
        lemma_trim_end_take(s.drop_last(), set, i);
    } else {
        assert(s.take(i) =~= s);
    }
}

/// Index of the first character of `s[from..]` not in `set` (or `s.len()`).
pub fn skip_set(s: &Vec<char>, from: usize, set: &Vec<char>) -> (res: usize)
    requires
        from <= s@.len(),
    ensures
        from <= res <= s@.len(),
        forall|j: int| from <= j < res ==> set@.contains(#[trigger] s@[j]),
        res < s@.len() ==> !set@.contains(s@[res as int]),
{
    let mut i = from;
    while i < s.len()
        invariant
            from <= i <= s@.len(),
            forall|j: int| from <= j < i ==> set@.contains(#[trigger] s@[j]),
        decreases s@.len() - i,
    {
        if !char_in(s[i], set) {
            return i;
        }
        i = i + 1;
    }
    i
}

/// Index one past the last character of `s[from..to]` not in `set` (or `from`).
pub fn skip_set_back(s: &Vec<char>, from: usize, to: usize, set: &Vec<char>) -> (res: usize)
    requires
        from <= to <= s@.len(),
    ensures
        from <= res <= to,
        forall|j: int| res <= j < to ==> set@.contains(#[trigger] s@[j]),
        res > from ==> !set@.contains(s@[res - 1]),
{
    let mut i = to;
    while i > from
        invariant
            from <= i <= to <= s@.len(),
            forall|j: int| i <= j < to ==> set@.contains(#[trigger] s@[j]),
        decreases i,
    {
        if !char_in(s[i - 1], set) {
            return i;
        }
        i = i - 1;
    }
    i
}

/// Bounds `(start, end)` of `s` with the characters of `set` trimmed from the
/// chosen ends: `s[start..end]` is the trimmed text.
pub fn trim_bounds(s: &Vec<char>, set: &Vec<char>, front: bool, back: bool) -> (res: (usize, usize))
    ensures
        res.0 <= res.1 <= s@.len(),
        s@.subrange(res.0 as int, res.1 as int) == ({
            let a = if front { trim_start_set(s@, set@) } else { s@ };
            if back { trim_end_set(a, set@) } else { a }
        }),
{
    let start = if front { skip_set(s, 0, set) } else { 0 };
    let end = if back { skip_set_back(s, start, s.len(), set) } else { s.len() };
    proof {
        let a = if front { trim_start_set(s@, set@) } else { s@ };
        if front {
            lemma_trim_start_skip(s@, set@, start as int);
            let t = s@.skip(start as int);
            if t.len() > 0 {
                assert(t[0] == s@[start as int]);
            }
            assert(trim_start_set(t, set@) == t);
        }
        assert(a =~= s@.subrange(start as int, s@.len() as int));
        if back {
            lemma_trim_end_take(a, set@, end - start);
            let u = a.take(end - start);
            if u.len() > 0 {
                assert(u.last() == s@[end - 1]);
            }
            assert(trim_end_set(u, set@) == u);
            assert(u =~= s@.subrange(start as int, end as int));
        }
    }
    (start, end)
}

/// std `trim_matches` with a set of characters, on both ends.
pub fn trim_chars(s: &Vec<char>, set: &Vec<char>) -> (res: Vec<char>)
    ensures
        res@ == trim_set(s@, set@),
{
    let (a, b) = trim_bounds(s, set, true, true);
    slice_vec(s, a, b)
}

/// `s[from..to]` as a new vector.
pub fn slice_vec(s: &Vec<char>, from: usize, to: usize) -> (res: Vec<char>)
    requires
        from <= to <= s@.len(),
    ensures
        res@ == s@.subrange(from as int, to as int),
{
    let mut out: Vec<char> = Vec::new();
    let mut i = from;
    while i < to
        invariant
            from <= i <= to <= s@.len(),
            out@ == s@.subrange(from as int, i as int),
        decreases to - i,
    {
        out.push(s[i]);
        assert(s@.subrange(from as int, i + 1) == s@.subrange(from as int, i as int).push(s@[i as int]));
        i = i + 1;
    }
    out
}

/// std `str::trim` on a character vector.
pub fn trim_whitespace(s: &Vec<char>) -> (res: Vec<char>)
    ensures
        res@ == trim_ws(s@),
{
    let ws = whitespace_set();
    trim_chars(s, &ws)
}

/// `s` with every character of `set` replaced by `to`.
pub open spec fn replace_set(s: Seq<char>, set: Seq<char>, to: char) -> Seq<char> {
    Seq::new(s.len(), |i: int| if set.contains(s[i]) { to } else { s[i] })
}

/// std `str::replace` with a set of single characters and a one-character
/// replacement.
pub fn replace_chars(s: &Vec<char>, set: &Vec<char>, to: char) -> (res: Vec<char>)
    ensures
        res@ == replace_set(s@, set@, to),
{
    let mut out: Vec<char> = Vec::new();
    let mut i: usize = 0;
    while i < s.len()
        invariant
            i <= s@.len(),
            out@ =~= replace_set(s@, set@, to).take(i as int),
        decreases s@.len() - i,
    {
        let c = s[i];
        if char_in(c, set) {
            out.push(to);
        } else {
            out.push(c);
        }
        i = i + 1;
    }
    assert(replace_set(s@, set@, to).take(s@.len() as int) =~= replace_set(s@, set@, to));
    out
}

/// Whether `pat` occurs in `s` at position `i`.
pub open spec fn occurs_at(s: Seq<char>, pat: Seq<char>, i: int) -> bool {
    0 <= i && i + pat.len() <= s.len() && s.subrange(i, i + pat.len()) == pat
}

/// Whether `pat` occurs somewhere in `s` (std `str::contains`).
pub open spec fn has_substring(s: Seq<char>, pat: Seq<char>) -> bool {
    exists|i: int| occurs_at(s, pat, i)
}

/// Whether `s` begins with `pat`.
pub open spec fn has_prefix(s: Seq<char>, pat: Seq<char>) -> bool {
    pat.len() <= s.len() && s.take(pat.len() as int) == pat
}

/// Whether `s` ends with `pat`.
pub open spec fn has_suffix(s: Seq<char>, pat: Seq<char>) -> bool {
    pat.len() <= s.len() && s.skip(s.len() - pat.len()) == pat
}

/// Whether `pat` matches `s` at `i`.
pub fn matches_at(s: &Vec<char>, pat: &Vec<char>, i: usize) -> (res: bool)
    ensures
        res == occurs_at(s@, pat@, i as int),
{
    if i > s.len() || pat.len() > s.len() - i {
        return false;
    }
    let n = s.len();
    let mut k: usize = 0;
    while k < pat.len()
        invariant
            n == s@.len(),
            i + pat@.len() <= s@.len(),
            k <= pat@.len(),
            forall|j: int| 0 <= j < k ==> s@[i + j] == pat@[j],
        decreases pat@.len() - k,
    {
        assert(i + k < s@.len());
        if s[i + k] != pat[k] {
            assert(s@.subrange(i as int, i + pat@.len())[k as int] != pat@[k as int]);
            return false;
        }
        k = k + 1;
    }
    assert(s@.subrange(i as int, i + pat@.len()) =~= pat@);
    true
}

/// std `str::contains` with a string pattern.
pub fn contains_seq(s: &Vec<char>, pat: &Vec<char>) -> (res: bool)
    ensures
        res == has_substring(s@, pat@),
{
    let mut i: usize = 0;
    while i < s.len()
        invariant
            i <= s@.len(),
            forall|j: int| 0 <= j < i ==> !occurs_at(s@, pat@, j),
        decreases s@.len() - i,
    {
        if matches_at(s, pat, i) {
            return true;
        }
        i = i + 1;
    }
    if matches_at(s, pat, i) {
        return true;
    }
    assert forall|j: int| !occurs_at(s@, pat@, j) by {
        if 0 <= j < s@.len() {
            assert(j < i);
        }
    }
    false
}

/// std `str::starts_with` with a string pattern.
pub fn starts_with_seq(s: &Vec<char>, pat: &Vec<char>) -> (res: bool)
    ensures
        res == has_prefix(s@, pat@),
{
    let r = matches_at(s, pat, 0);
    assert(pat@.len() <= s@.len() ==> s@.subrange(0, pat@.len() as int) =~= s@.take(pat@.len() as int));
    r
}

/// std `str::ends_with` with a string pattern.
pub fn ends_with_seq(s: &Vec<char>, pat: &Vec<char>) -> (res: bool)
    ensures
        res == has_suffix(s@, pat@),
{
    if pat.len() > s.len() {
        return false;
    }
    let r = matches_at(s, pat, s.len() - pat.len());
    assert(s@.subrange(s@.len() - pat@.len(), s@.len() as int) =~= s@.skip(s@.len() - pat@.len()));
    r
}

/// `s` with `pat` removed from its end as many times as it occurs there
/// (std `trim_end_matches` with a string pattern).
pub open spec fn trim_end_pattern(s: Seq<char>, pat: Seq<char>) -> Seq<char>
    decreases s.len(),
{
    if pat.len() > 0 && has_suffix(s, pat) {
        trim_end_pattern(s.take(s.len() - pat.len()), pat)
    } else {
        s
    }
}

/// std `trim_end_matches` with a string pattern.
pub fn trim_end_seq(s: &Vec<char>, pat: &Vec<char>) -> (res: Vec<char>)
    ensures
        res@ == trim_end_pattern(s@, pat@),
{
    let mut cur = slice_vec(s, 0, s.len());
    assert(s@.subrange(0, s@.len() as int) =~= s@);
    if pat.len() == 0 {
        return cur;
    }
    while ends_with_seq(&cur, pat)
        invariant
            pat@.len() > 0,
            trim_end_pattern(cur@, pat@) == trim_end_pattern(s@, pat@),
        decreases cur@.len(),
    {
        let n = cur.len() - pat.len();
        let next = slice_vec(&cur, 0, n);
        assert(next@ =~= cur@.take(n as int));
        cur = next;
    }
    cur
}

/// Removes a trailing carriage return, if there is one.
pub open spec fn strip_cr(s: Seq<char>) -> Seq<char> {
    if s.len() > 0 && s.last() == '\r' {
        s.drop_last()
    } else {
        s
    }
}

/// Left-to-right scan of `s` for std `str::lines`: the finished lines (line
/// terminator removed, a `\r` before a `\n` removed too) and the text after
/// the last `\n`.
pub open spec fn scan_lines(s: Seq<char>) -> (Seq<Seq<char>>, Seq<char>)
    decreases s.len(),
{
    if s.len() == 0 {
        (Seq::empty(), Seq::empty())
    } else {
        let (done, cur) = scan_lines(s.drop_last());
        if s.last() == '\n' {
            (done.push(strip_cr(cur)), Seq::empty())
        } else {
            (done, cur.push(s.last()))
        }
    }
}

/// The lines of `s` as std `str::lines` yields them: split at `\n`, with a
/// `\r` right before a `\n` removed, and no empty last line for a final
/// line ending.
pub open spec fn lines_of(s: Seq<char>) -> Seq<Seq<char>> {
    let (done, cur) = scan_lines(s);
    if cur.len() > 0 {
        done.push(cur)
    } else {
        done
    }
}

/// std `str::lines`, each line as a character vector.
pub fn split_lines(s: &Vec<char>) -> (res: Vec<Vec<char>>)
    ensures
        res@.len() == lines_of(s@).len(),
        forall|i: int| 0 <= i < res@.len() ==> #[trigger] res@[i]@ == lines_of(s@)[i],
{
    let mut done: Vec<Vec<char>> = Vec::new();
    let mut cur: Vec<char> = Vec::new();
    let mut i: usize = 0;
    while i < s.len()
        invariant
            i <= s@.len(),
            scan_lines(s@.take(i as int)).1 == cur@,
            scan_lines(s@.take(i as int)).0.len() == done@.len(),
            forall|k: int| 0 <= k < done@.len() ==> #[trigger] done@[k]@ == scan_lines(s@.take(i as int)).0[k],
        decreases s@.len() - i,
    {
        assert(s@.take(i + 1).drop_last() =~= s@.take(i as int));
        let c = s[i];
        if c == '\n' {
            let n = cur.len();
            let line = if n > 0 && cur[n - 1] == '\r' {
                slice_vec(&cur, 0, n - 1)
            } else {
                slice_vec(&cur, 0, n)
            };
            assert(line@ =~= strip_cr(cur@));
            done.push(line);
            cur = Vec::new();
        } else {
            cur.push(c);
        }
        i = i + 1;
    }
    assert(s@.take(s@.len() as int) =~= s@);
    if cur.len() > 0 {
        done.push(cur);
    }
    done
}

/// Whether `c` is an ASCII decimal digit.
pub open spec fn is_digit(c: char) -> bool {
    '0' <= c && c <= '9'
}

/// The value of a decimal digit.
pub open spec fn digit_value(c: char) -> int {
    c as int - '0' as int
}

/// The value of a string of decimal digits.
pub open spec fn digits_value(s: Seq<char>) -> int
    decreases s.len(),
{
    if s.len() == 0 {
        0
    } else {
        digits_value(s.drop_last()) * 10 + digit_value(s.last())
    }
}

/// What std's `str::parse` reads as an unsigned integer: an optional `+`,
/// then one or more decimal digits. `None` for any other text.
pub open spec fn unsigned_value(s: Seq<char>) -> Option<int> {
    let d = unsigned_digits(s);
    if d.len() > 0 && all_digits(d) {
        Some(digits_value(d))
    } else {
        None
    }
}

/// The text after an optional leading `+`.
pub open spec fn unsigned_digits(s: Seq<char>) -> Seq<char> {
    if s.len() > 0 && s[0] == '+' {
        s.drop_first()
    } else {
        s
    }
}

/// Whether every character of `s` is a decimal digit.
pub open spec fn all_digits(s: Seq<char>) -> bool {
    forall|i: int| 0 <= i < s.len() ==> is_digit(#[trigger] s[i])
}

proof fn lemma_digits_value_grows(s: Seq<char>, k: int)
    requires
        0 <= k <= s.len(),
        forall|i: int| 0 <= i < s.len() ==> is_digit(#[trigger] s[i]),
    ensures
        digits_value(s.take(k)) <= digits_value(s),
        digits_value(s) >= 0,
    decreases s.len() - k,
{
    if k < s.len() {
        lemma_digits_value_grows(s, k + 1);
        assert(s.take(k + 1).drop_last() =~= s.take(k));
        lemma_digits_value_nonneg(s.take(k));
    } else {
        assert(s.take(k) =~= s);
        lemma_digits_value_nonneg(s);
    }
}

proof fn lemma_digits_value_nonneg(s: Seq<char>)
    requires
        forall|i: int| 0 <= i < s.len() ==> is_digit(#[trigger] s[i]),
    ensures
        digits_value(s) >= 0,
    decreases s.len(),
{
    if s.len() > 0 {
        lemma_digits_value_nonneg(s.drop_last());
    }
}

/// std `str::parse` for an unsigned integer type whose largest value is
/// `max`: the value read, or `None` for text that is no number or a number
/// above `max`.
pub fn parse_unsigned(s: &str, max: u64) -> (res: Option<u64>)
    ensures
        res == (match unsigned_value(s@) {
            Some(v) => if v <= max { Some(v as u64) } else { None },
            None => None,
        }),
        res matches Some(n) ==> unsigned_value(s@) == Some(n as int) && n <= max,
        res is None ==> !(unsigned_value(s@) matches Some(v) && 0 <= v <= max),
{
    let c = chars_of(s);
    let start: usize = if c.len() > 0 && c[0] == '+' { 1 } else { 0 };
    let ghost d = c@.skip(start as int);
    assert(d =~= unsigned_digits(s@));
    if start >= c.len() {
        return None;
    }
    let mut v: u64 = 0;
    let mut i = start;
    while i < c.len()
        invariant
            start <= i <= c@.len(),
            c@ == s@,
            d == c@.skip(start as int),
            d == unsigned_digits(s@),
            forall|j: int| 0 <= j < i - start ==> is_digit(#[trigger] d[j]),
            v == digits_value(d.take(i - start)),
            v <= max,
        decreases c@.len() - i,
    {
        let ch = c[i];
        if !('0' <= ch && ch <= '9') {
            assert(!is_digit(d[i - start]));
            assert(!all_digits(d));
            assert(unsigned_value(s@) is None);
            return None;
        }
        let dv = (ch as u32 - '0' as u32) as u64;
        assert(dv == digit_value(ch) && dv <= 9);
        assert(d.take(i + 1 - start).drop_last() =~= d.take(i - start));
        assert(d.take(i + 1 - start).last() == ch);
        if v > max / 10 || (v == max / 10 && dv > max % 10) {
            proof {
                assert(v * 10 + dv > max) by (nonlinear_arith)
                    requires
                        v > max / 10 || (v == max / 10 && dv > max % 10),
                        dv <= 9,
                ;
                assert(digits_value(d.take(i + 1 - start)) == v * 10 + dv);
                if all_digits(d) {
                    lemma_digits_value_grows(d, i + 1 - start);
                    assert(unsigned_value(s@) == Some(digits_value(d)));
                }
            }
            return None;
        }
        assert(v * 10 + dv <= max) by (nonlinear_arith)
            requires
                !(v > max / 10 || (v == max / 10 && dv > max % 10)),
                dv <= 9,
                max == (max / 10) * 10 + max % 10,
                max % 10 >= 0,
        ;
        v = v * 10 + dv;
        i = i + 1;
    }
    assert(d.take(i - start) =~= d);
    Some(v)
}

/// The decimal digit for `n` below 10.
pub open spec fn digit_char(n: int) -> char {
    (n + '0' as int) as char
}

/// The decimal digits of `n`.
pub open spec fn digits_of(n: nat) -> Seq<char>
    decreases n,
{
    if n < 10 {
        seq![digit_char(n as int)]
    } else {
        digits_of(n / 10).push(digit_char((n % 10) as int))
    }
}

/// `n` written in decimal, with a leading `-` when negative (std `Display`
/// for integers).
pub open spec fn decimal_text(n: int) -> Seq<char> {
    if n < 0 {
        seq!['-'] + digits_of((-n) as nat)
    } else {
        digits_of(n as nat)
    }
}

fn digits_u64(n: u64) -> (res: Vec<char>)
    ensures
        res@ == digits_of(n as nat),
    decreases n,
{
    let d = ((n % 10) as u32 + '0' as u32) as u8 as char;
    assert(d == digit_char((n % 10) as int)) by {
        assert((n % 10) < 10);
    }
    if n < 10 {
        let v = vec![d];
        assert(v@ =~= seq![d]);
        v
    } else {
        let mut v = digits_u64(n / 10);
        v.push(d);
        v
    }
}

/// `n` written in decimal (std `Display` for `i64`).
pub fn decimal_string(n: i64) -> (res: String)
    ensures
        res@ == decimal_text(n as int),
{
    if n < 0 {
        let magnitude: u64 = if n == i64::MIN {
            9223372036854775808u64
        } else {
            (-n) as u64
        };
        let digits = digits_u64(magnitude);
        let mut out = String::new();
        push_char(&mut out, '-');
        let rest = string_of(&digits);
        out.append(rest.as_str());
        out
    } else {
        let digits = digits_u64(n as u64);
        string_of(&digits)
    }
}

/// Left-to-right scan of `s` split at `sep`: the finished pieces and the
/// piece after the last separator.
pub open spec fn scan_split(s: Seq<char>, sep: char) -> (Seq<Seq<char>>, Seq<char>)
    decreases s.len(),
{
    if s.len() == 0 {
        (Seq::empty(), Seq::empty())
    } else {
        let (done, cur) = scan_split(s.drop_last(), sep);
        if s.last() == sep {
            (done.push(cur), Seq::empty())
        } else {
            (done, cur.push(s.last()))
        }
    }
}

/// The pieces of `s` between occurrences of `sep` (std `str::split` with a
/// character): one more piece than there are separators.
pub open spec fn split_pieces(s: Seq<char>, sep: char) -> Seq<Seq<char>> {
    scan_split(s, sep).0.push(scan_split(s, sep).1)
}

/// std `str::split` with a character, each piece as a character vector.
pub fn split_char(s: &Vec<char>, sep: char) -> (res: Vec<Vec<char>>)
    ensures
        res@.len() == split_pieces(s@, sep).len(),
        forall|i: int| 0 <= i < res@.len() ==> #[trigger] res@[i]@ == split_pieces(s@, sep)[i],
{
    let mut done: Vec<Vec<char>> = Vec::new();
    let mut cur: Vec<char> = Vec::new();
    let mut i: usize = 0;
    while i < s.len()
        invariant
            i <= s@.len(),
            scan_split(s@.take(i as int), sep).1 == cur@,
            scan_split(s@.take(i as int), sep).0.len() == done@.len(),
            forall|k: int| 0 <= k < done@.len() ==> #[trigger] done@[k]@ == scan_split(s@.take(i as int), sep).0[k],
        decreases s@.len() - i,
    {
        assert(s@.take(i + 1).drop_last() =~= s@.take(i as int));
        let c = s[i];
        if c == sep {
            let piece = cur;
            done.push(piece);
            cur = Vec::new();
        } else {
            cur.push(c);
        }
        i = i + 1;
    }
    assert(s@.take(s@.len() as int) =~= s@);
    done.push(cur);
    done
}

/// Whether two character vectors hold the same characters.
pub fn same_chars(a: &Vec<char>, b: &Vec<char>) -> (res: bool)
    ensures
        res == (a@ == b@),
{
    if a.len() != b.len() {
        return false;
    }
    let r = matches_at(a, b, 0);
    assert(a@.subrange(0, b@.len() as int) =~= a@);
    r
}

} // verus!
