//! Character-level text utilities: substring search, line splitting, and
//! decimal integer parsing and formatting, each specified over `Seq<char>`.

use vstd::prelude::*;

verus! {

/// `pat` occurs in `s` starting at index `i`.
pub open spec fn match_at(s: Seq<char>, pat: Seq<char>, i: int) -> bool {
    0 <= i && i + pat.len() <= s.len() && s.subrange(i, i + pat.len() as int) == pat
}

/// Index of the first occurrence of `pat` in `s`, if any.
pub open spec fn spec_find_sub(s: Seq<char>, pat: Seq<char>) -> Option<int>
    decreases s.len(),
{
    if pat.len() > s.len() {
        None
    } else if s.len() == 0 {
        Some(0)
    } else if s.subrange(0, pat.len() as int) == pat {
        Some(0)
    } else {
        match spec_find_sub(s.drop_first(), pat) {
            Some(i) => Some(i + 1),
            None => None,
        }
    }
}

pub open spec fn contains_sub(s: Seq<char>, pat: Seq<char>) -> bool {
    spec_find_sub(s, pat) is Some
}

/// `spec_find_sub` returns the first match position: a match where it points,
/// and no match anywhere earlier (nor anywhere at all when it returns `None`).
pub proof fn lemma_find_sub_first_match(s: Seq<char>, pat: Seq<char>)
    ensures
        match spec_find_sub(s, pat) {
            Some(i) => match_at(s, pat, i) && (forall|k: int| 0 <= k < i ==> !match_at(s, pat, k)),
            None => forall|k: int| !match_at(s, pat, k),
        },
    decreases s.len(),
{
    if pat.len() > s.len() {
        assert(forall|k: int| !match_at(s, pat, k));
    } else if s.len() == 0 {
        assert(s.subrange(0, pat.len() as int) =~= pat);
        assert(match_at(s, pat, 0));
    } else if s.subrange(0, pat.len() as int) == pat {
    } else {
        lemma_find_sub_first_match(s.drop_first(), pat);
        match spec_find_sub(s.drop_first(), pat) {
            Some(i) => {
                assert(match_at(s.drop_first(), pat, i));
                assert(s.len() > 0);
                assert(s.drop_first().len() == s.len() - 1);
                assert(s.drop_first() =~= s.subrange(1, s.len() as int));
                assert(s.subrange(i + 1, i + 1 + pat.len() as int).len() == pat.len());
                assert forall|k: int| 0 <= k < pat.len() implies s.subrange(
                    i + 1,
                    i + 1 + pat.len() as int,
                )[k] == pat[k] by {
                    assert(s.drop_first().subrange(i, i + pat.len() as int)[k] == pat[k]);
                }
                assert(s.subrange(i + 1, i + 1 + pat.len() as int) =~= pat);
                assert(match_at(s, pat, i + 1));
                assert forall|k: int| 0 <= k < i + 1 implies !match_at(s, pat, k) by {
                    if k == 0 {
                        assert(s.subrange(0, pat.len() as int) != pat);
                    } else {
                        assert(!match_at(s.drop_first(), pat, k - 1));
                        if k + pat.len() <= s.len() {
                            assert(s.drop_first().subrange(k - 1, k - 1 + pat.len() as int)
                                =~= s.subrange(k, k + pat.len() as int));
                        }
                    }
                }
            },
            None => {
                assert forall|k: int| !match_at(s, pat, k) by {
                    if k == 0 {
                        assert(s.subrange(0, pat.len() as int) != pat);
                    } else if k > 0 && k + pat.len() <= s.len() {
                        assert(!match_at(s.drop_first(), pat, k - 1));
                        assert(s.drop_first().subrange(k - 1, k - 1 + pat.len() as int)
                            =~= s.subrange(k, k + pat.len() as int));
                    }
                }
            },
        }
    }
}

/// The first match position determines `spec_find_sub` exactly.
pub proof fn lemma_find_sub_complete(s: Seq<char>, pat: Seq<char>, i: int)
    requires
        match_at(s, pat, i),
        forall|k: int| 0 <= k < i ==> !match_at(s, pat, k),
    ensures
        spec_find_sub(s, pat) == Some(i),
{
    lemma_find_sub_first_match(s, pat);
    match spec_find_sub(s, pat) {
        Some(j) => {
            if j < i {
                assert(!match_at(s, pat, j));
            } else if j > i {
                assert(!match_at(s, pat, i));
            }
        },
        None => {
            assert(!match_at(s, pat, i));
        },
    }
}

/// Whether `pat` occurs in `hay` starting at character index `i`.
fn match_at_exec(hay: &str, pat: &str, i: usize) -> (r: bool)
    requires
        i + pat@.len() <= hay@.len(),
        hay@.len() <= usize::MAX,
    ensures
        r == match_at(hay@, pat@, i as int),
{
    let m: usize = pat.unicode_len();
    let mut j: usize = 0;
    while j < m
        invariant
            j <= m,
            m == pat@.len(),
            i + m <= hay@.len(),
            hay@.len() <= usize::MAX,
            forall|k: int| 0 <= k < j ==> hay@[i + k] == pat@[k],
        decreases m - j,
    {
        if hay.get_char(i + j) != pat.get_char(j) {
            assert(hay@.subrange(i as int, i + m as int)[j as int] != pat@[j as int]);
            return false;
        }
        j = j + 1;
    }
    assert(hay@.subrange(i as int, i + m as int) =~= pat@);
    true
}

/// Character index of the first occurrence of `pat` in `hay`, if any.
pub fn find_sub(hay: &str, pat: &str) -> (r: Option<usize>)
    ensures
        match r {
            Some(i) => spec_find_sub(hay@, pat@) == Some(i as int),
            None => spec_find_sub(hay@, pat@) is None,
        },
{
    let n: usize = hay.unicode_len();
    let m: usize = pat.unicode_len();
    if m > n {
        proof {
            lemma_find_sub_first_match(hay@, pat@);
        }
        return None;
    }
    if m == 0 {
        proof {
            assert(hay@.subrange(0, 0) =~= pat@);
            lemma_find_sub_complete(hay@, pat@, 0);
        }
        return Some(0);
    }
    let mut i: usize = 0;
    while i <= n - m
        invariant
            n == hay@.len(),
            m == pat@.len(),
            0 < m <= n,
            i <= n - m + 1,
            forall|k: int| 0 <= k < i ==> !match_at(hay@, pat@, k),
        decreases n - i,
    {
        if match_at_exec(hay, pat, i) {
            proof {
                lemma_find_sub_complete(hay@, pat@, i as int);
            }
            return Some(i);
        }
        i = i + 1;
    }
    proof {
        lemma_find_sub_first_match(hay@, pat@);
        if spec_find_sub(hay@, pat@) is Some {
            let j = spec_find_sub(hay@, pat@)->Some_0;
            assert(!match_at(hay@, pat@, j));
        }
    }
    None
}

/// Whether `pat` occurs anywhere in `hay`.
pub fn contains_sub_exec(hay: &str, pat: &str) -> (r: bool)
    ensures
        r == contains_sub(hay@, pat@),
{
    match find_sub(hay, pat) {
        Some(_) => true,
        None => false,
    }
}

/// Whether two string slices hold the same characters.
pub fn str_eq(a: &str, b: &str) -> (r: bool)
    ensures
        r == (a@ == b@),
{
    let n: usize = a.unicode_len();
    if n != b.unicode_len() {
        return false;
    }
    let mut i: usize = 0;
    while i < n
        invariant
            n == a@.len(),
            n == b@.len(),
            i <= n,
            forall|k: int| 0 <= k < i ==> a@[k] == b@[k],
        decreases n - i,
    {
        if a.get_char(i) != b.get_char(i) {
            return false;
        }
        i = i + 1;
    }
    proof {
        assert(a@ =~= b@);
    }
    true
}

/// Drop one trailing carriage return, as a `\r\n` line ending leaves one.
pub open spec fn strip_cr(l: Seq<char>) -> Seq<char> {
    if l.len() > 0 && l.last() == '\r' {
        l.drop_last()
    } else {
        l
    }
}

/// Segments of `s` split at `'\n'` (with `'\r'` stripped just before each
/// split point); the final, possibly empty, segment is still open.
pub open spec fn raw_segments(s: Seq<char>) -> Seq<Seq<char>>
    decreases s.len(),
{
    if s.len() == 0 {
        seq![Seq::<char>::empty()]
    } else if s.last() == '\n' {
        let segs = raw_segments(s.drop_last());
        segs.update(segs.len() - 1, strip_cr(segs.last())).push(Seq::empty())
    } else {
        let segs = raw_segments(s.drop_last());
        segs.update(segs.len() - 1, segs.last().push(s.last()))
    }
}

/// The lines of `s`, as `str::lines` yields them: split at `'\n'`, a `\r\n`
/// ending stripped, and no empty line after a final newline.
pub open spec fn spec_lines(s: Seq<char>) -> Seq<Seq<char>> {
    if s.len() == 0 {
        Seq::empty()
    } else if s.last() == '\n' {
        raw_segments(s).drop_last()
    } else {
        raw_segments(s)
    }
}

/// Split `text` into lines, as `str::lines` does.
pub fn split_lines(text: &str) -> (r: Vec<String>)
    ensures
        r.deep_view() == spec_lines(text@),
{
    let n: usize = text.unicode_len();
    let mut lines: Vec<String> = Vec::new();
    let mut start: usize = 0;
    let mut i: usize = 0;
    proof {
        assert(text@.subrange(0, 0) =~= Seq::<char>::empty());
        assert(raw_segments(text@.subrange(0, 0)) =~~= lines.deep_view().push(
            text@.subrange(0, 0),
        ));
    }
    while i < n
        invariant
            n == text@.len(),
            start <= i <= n,
            raw_segments(text@.subrange(0, i as int)) == lines.deep_view().push(
                text@.subrange(start as int, i as int),
            ),
        decreases n - i,
    {
        let ghost pre = text@.subrange(0, i as int);
        let ghost cur = text@.subrange(start as int, i as int);
        let ghost dv = lines.deep_view();
        proof {
            assert(text@.subrange(0, i + 1).drop_last() =~= pre);
            assert(text@.subrange(0, i + 1).last() == text@[i as int]);
        }
        let c = text.get_char(i);
        if c == '\n' {
            let end: usize = if i > start && text.get_char(i - 1) == '\r' {
                i - 1
            } else {
                i
            };
            proof {
                if i > start && text@[i - 1] == '\r' {
                    assert(cur.len() > 0 && cur.last() == '\r');
                    assert(strip_cr(cur) =~= text@.subrange(start as int, i - 1));
                } else {
                    if cur.len() > 0 {
                        assert(cur.last() == text@[i - 1]);
                    }
                    assert(strip_cr(cur) =~= cur);
                }
            }
            let line = String::from_str(text.substring_char(start, end));
            lines.push(line);
            proof {
                assert(lines.deep_view() =~~= dv.push(strip_cr(cur)));
                assert(raw_segments(text@.subrange(0, i + 1)) =~~= lines.deep_view().push(
                    text@.subrange(i + 1, i + 1),
                ));
            }
            start = i + 1;
        } else {
            proof {
                assert(cur.push(text@[i as int]) =~= text@.subrange(start as int, i + 1));
                assert(raw_segments(text@.subrange(0, i + 1)) =~~= lines.deep_view().push(
                    text@.subrange(start as int, i + 1),
                ));
            }
        }
        i = i + 1;
    }
    proof {
        assert(text@.subrange(0, n as int) =~= text@);
    }
    if n > 0 && text.get_char(n - 1) != '\n' {
        let ghost dv = lines.deep_view();
        let last_line = String::from_str(text.substring_char(start, n));
        lines.push(last_line);
        proof {
            assert(lines.deep_view() =~~= dv.push(text@.subrange(start as int, n as int)));
            assert(lines.deep_view() =~~= spec_lines(text@));
        }
    } else {
        proof {
            if n > 0 {
                assert(spec_lines(text@) == raw_segments(text@).drop_last());
                assert(lines.deep_view() =~~= raw_segments(text@).drop_last());
            } else {
                assert(lines.deep_view() =~~= spec_lines(text@));
            }
        }
    }
    lines
}

/// `s` with every space character removed, as `str::replace(" ", "")` leaves it.
pub open spec fn without_spaces(s: Seq<char>) -> Seq<char>
    decreases s.len(),
{
    if s.len() == 0 {
        Seq::empty()
    } else if s.last() == ' ' {
        without_spaces(s.drop_last())
    } else {
        without_spaces(s.drop_last()).push(s.last())
    }
}

/// Remove every space character from `s`.
pub fn remove_spaces(s: &str) -> (r: String)
    ensures
        r@ == without_spaces(s@),
{
    let n: usize = s.unicode_len();
    let mut out = String::new();
    let mut i: usize = 0;
    proof {
        assert(s@.subrange(0, 0) =~= Seq::<char>::empty());
    }
    while i < n
        invariant
            n == s@.len(),
            i <= n,
            out@ == without_spaces(s@.subrange(0, i as int)),
        decreases n - i,
    {
        proof {
            assert(s@.subrange(0, i + 1).drop_last() =~= s@.subrange(0, i as int));
            assert(s@.subrange(0, i + 1).last() == s@[i as int]);
        }
        let c = s.get_char(i);
        if c != ' ' {
            let piece = s.substring_char(i, i + 1);
            proof {
                assert(piece@ =~= seq![s@[i as int]]);
                assert(out@ + piece@ =~= out@.push(s@[i as int]));
            }
            out.append(piece);
        }
        i = i + 1;
    }
    proof {
        assert(s@.subrange(0, n as int) =~= s@);
    }
    out
}

/// The decimal digit character for `d`.
pub open spec fn dec_digit(d: int) -> char {
    if d == 0 {
        '0'
    } else if d == 1 {
        '1'
    } else if d == 2 {
        '2'
    } else if d == 3 {
        '3'
    } else if d == 4 {
        '4'
    } else if d == 5 {
        '5'
    } else if d == 6 {
        '6'
    } else if d == 7 {
        '7'
    } else if d == 8 {
        '8'
    } else {
        '9'
    }
}

/// Decimal numeral of a nonnegative integer, most significant digit first.
pub open spec fn dec_str_nat(n: nat) -> Seq<char>
    decreases n,
{
    if n < 10 {
        seq![dec_digit(n as int)]
    } else {
        dec_str_nat(n / 10).push(dec_digit((n % 10) as int))
    }
}

/// Decimal numeral of an integer, with a leading minus sign when negative.
pub open spec fn dec_str_int(n: int) -> Seq<char> {
    if n < 0 {
        seq!['-'] + dec_str_nat((-n) as nat)
    } else {
        dec_str_nat(n as nat)
    }
}

fn digit_str(d: u64) -> (r: &'static str)
    requires
        d < 10,
    ensures
        r@ == seq![dec_digit(d as int)],
{
    proof {
        reveal_strlit("0");
        reveal_strlit("1");
        reveal_strlit("2");
        reveal_strlit("3");
        reveal_strlit("4");
        reveal_strlit("5");
        reveal_strlit("6");
        reveal_strlit("7");
        reveal_strlit("8");
        reveal_strlit("9");
    }
    let r = if d == 0 {
        "0"
    } else if d == 1 {
        "1"
    } else if d == 2 {
        "2"
    } else if d == 3 {
        "3"
    } else if d == 4 {
        "4"
    } else if d == 5 {
        "5"
    } else if d == 6 {
        "6"
    } else if d == 7 {
        "7"
    } else if d == 8 {
        "8"
    } else {
        "9"
    };
    proof {
        assert(r@ =~= seq![dec_digit(d as int)]);
    }
    r
}

/// Decimal rendering of `n`.
pub fn u64_to_string(n: u64) -> (r: String)
    ensures
        r@ == dec_str_nat(n as nat),
    decreases n,
{
    if n < 10 {
        String::from_str(digit_str(n))
    } else {
        let mut s = u64_to_string(n / 10);
        let d = digit_str(n % 10);
        proof {
            assert(s@ + d@ =~= s@.push(dec_digit((n % 10) as int)));
        }
        s.append(d);
        s
    }
}

/// Decimal rendering of `n`, signed.
pub fn i64_to_string(n: i64) -> (r: String)
    ensures
        r@ == dec_str_int(n as int),
{
    if n >= 0 {
        u64_to_string(n as u64)
    } else {
        let wide: i128 = -(n as i128);
        assert(0 < wide <= u64::MAX);
        let mag: u64 = wide as u64;
        let mut s = String::from_str("-");
        proof {
            reveal_strlit("-");
            assert(s@ =~= seq!['-']);
        }
        let rest = u64_to_string(mag);
        s.append(rest.as_str());
        s
    }
}

pub open spec fn is_dec_digit(c: char) -> bool {
    48 <= c as u32 <= 57
}

pub open spec fn digit_val(c: char) -> int {
    c as u32 - 48
}

pub open spec fn all_dec_digits(s: Seq<char>) -> bool {
    forall|i: int| 0 <= i < s.len() ==> is_dec_digit(s[i])
}

/// Value of a nonempty sequence of decimal digits.
pub open spec fn digits_val(s: Seq<char>) -> int
    decreases s.len(),
{
    if s.len() == 0 {
        0
    } else {
        digits_val(s.drop_last()) * 10 + digit_val(s.last())
    }
}

/// The integer a numeral denotes: an optional minus sign, then one or more
/// decimal digits; anything else denotes nothing.
pub open spec fn spec_parse_int(s: Seq<char>) -> Option<int> {
    if s.len() >= 2 && s[0] == '-' && all_dec_digits(s.subrange(1, s.len() as int)) {
        Some(-digits_val(s.subrange(1, s.len() as int)))
    } else if s.len() >= 1 && all_dec_digits(s) {
        Some(digits_val(s))
    } else {
        None
    }
}

/// `spec_parse_int`, restricted to values an `i64` can hold.
pub open spec fn spec_parse_i64(s: Seq<char>) -> Option<int> {
    match spec_parse_int(s) {
        Some(v) => if i64::MIN <= v <= i64::MAX {
            Some(v)
        } else {
            None
        },
        None => None,
    }
}

/// Parse a decimal `i64`; numerals out of the `i64` range fail like any
/// other malformed numeral.
pub fn parse_i64(s: &str) -> (r: Option<i64>)
    ensures
        match spec_parse_i64(s@) {
            Some(v) => r matches Some(x) && x as int == v,
            None => r is None,
        },
{
    let n: usize = s.unicode_len();
    if n == 0 {
        return None;
    }
    let neg: bool = s.get_char(0) == '-';
    let dstart: usize = if neg {
        1
    } else {
        0
    };
    if n <= dstart {
        return None;
    }
    let ghost digits = if neg {
        s@.subrange(1, n as int)
    } else {
        s@
    };
    proof {
        if !neg {
            assert(s@.subrange(0, n as int) =~= s@);
        }
    }
    let bound: u64 = 9223372036854775808u64;
    let mut acc: u64 = 0;
    let mut over: bool = false;
    let mut i: usize = dstart;
    proof {
        assert(digits.subrange(0, 0) =~= Seq::<char>::empty());
    }
    while i < n
        invariant
            n == s@.len(),
            dstart <= i <= n,
            dstart == if neg {
                1int
            } else {
                0int
            },
            digits == s@.subrange(dstart as int, n as int),
            n >= 1,
            neg ==> s@[0] == '-',
            !neg ==> s@[0] != '-',
            bound == 0x8000000000000000u64,
            forall|k: int| 0 <= k < i - dstart ==> is_dec_digit(digits[k]),
            !over ==> acc <= bound && acc == digits_val(
                digits.subrange(0, i - dstart as int),
            ),
            over ==> digits_val(digits.subrange(0, i - dstart as int)) > bound,
        decreases n - i,
    {
        let c = s.get_char(i);
        let cv: u32 = c as u32;
        proof {
            assert(digits[i - dstart as int] == s@[i as int]);
        }
        if cv < 48 || cv > 57 {
            proof {
                let j = i - dstart as int;
                assert(0 <= j < digits.len());
                assert(!is_dec_digit(digits[j]));
                assert(!all_dec_digits(digits));
                if neg {
                    assert(s@[0] == '-');
                    assert(!is_dec_digit(s@[0]));
                    assert(!all_dec_digits(s@));
                } else {
                    assert(!all_dec_digits(s@));
                }
                assert(spec_parse_int(s@) is None);
            }
            return None;
        }
        let d: u64 = (cv - 48) as u64;
        let ghost prefix = digits.subrange(0, i - dstart as int);
        proof {
            assert(digits.subrange(0, i + 1 - dstart as int).drop_last() =~= prefix);
            assert(digits.subrange(0, i + 1 - dstart as int).last() == digits[i - dstart as int]);
        }
        if over {
            proof {
                assert(digits_val(digits.subrange(0, i + 1 - dstart as int)) > bound);
            }
        } else {
            let wide: u128 = acc as u128 * 10 + d as u128;
            if wide > bound as u128 {
                over = true;
            } else {
                acc = wide as u64;
            }
        }
        i = i + 1;
    }
    proof {
        assert(digits.subrange(0, n - dstart as int) =~= digits);
        assert(all_dec_digits(digits));
        if neg {
            assert(spec_parse_int(s@) == Some(-digits_val(digits)));
        } else {
            assert(spec_parse_int(s@) == Some(digits_val(digits)));
        }
    }
    if over {
        return None;
    }
    if neg {
        let val: i64 = (-(acc as i128)) as i64;
        Some(val)
    } else {
        if acc == bound {
            return None;
        }
        Some(acc as i64)
    }
}

} // verus!
