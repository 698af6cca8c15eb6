use vstd::prelude::*;

verus! {

/// Whether `pat` occurs in `s` starting at position `i`.
pub open spec fn match_at(s: Seq<char>, pat: Seq<char>, i: int) -> bool {
    0 <= i && i + pat.len() <= s.len() && s.subrange(i, i + pat.len() as int) == pat
}

/// Position of the leftmost occurrence of `pat` in `s` at or after `from`.
pub open spec fn spec_find(s: Seq<char>, pat: Seq<char>, from: int) -> Option<int>
    decreases s.len() - from,
{
    if from < 0 || from + pat.len() > s.len() {
        None
    } else if pat.len() == 0 || s.subrange(from, from + pat.len() as int) == pat {
        Some(from)
    } else {
        spec_find(s, pat, from + 1)
    }
}

/// A found occurrence lies within the string.
pub proof fn lemma_find_range(s: Seq<char>, pat: Seq<char>, from: int)
    ensures
        spec_find(s, pat, from) is Some ==> {
            let i = spec_find(s, pat, from)->Some_0;
            from <= i && i + pat.len() <= s.len() && match_at(s, pat, i)
        },
    decreases s.len() - from,
{
    if !(from < 0 || from + pat.len() > s.len()) {
        if pat.len() == 0 || s.subrange(from, from + pat.len() as int) == pat {
            assert(s.subrange(from, from + pat.len() as int) =~= pat);
        } else {
            lemma_find_range(s, pat, from + 1);
        }
    }
}

/// Compare `pat` against the characters of `s` starting at `i`.
pub fn matches_at(s: &str, pat: &str, i: usize) -> (r: bool)
    requires
        i + pat@.len() <= s@.len(),
    ensures
        r == match_at(s@, pat@, i as int),
{
    let n = s.unicode_len();
    let m = pat.unicode_len();
    let mut j: usize = 0;
    while j < m
        invariant
            j <= m,
            n == s@.len(),
            m == pat@.len(),
            i + m <= n,
            forall|k: int| 0 <= k < j ==> s@[i + k] == pat@[k],
        decreases m - j,
    {
        if s.get_char(i + j) != pat.get_char(j) {
            proof {
                assert(s@.subrange(i as int, i + m) != pat@) by {
                    assert(s@.subrange(i as int, i + m)[j as int] != pat@[j as int]);
                }
            }
            return false;
        }
        j += 1;
    }
    proof {
        assert(s@.subrange(i as int, i + m) =~= pat@);
    }
    true
}

/// Leftmost occurrence of `pat` in `s` at or after `from`.
pub fn find_sub(s: &str, pat: &str, from: usize) -> (r: Option<usize>)
    requires
        from <= s@.len(),
    ensures
        match r {
            Some(i) => spec_find(s@, pat@, from as int) == Some(i as int),
            None => spec_find(s@, pat@, from as int) is None,
        },
{
    let n = s.unicode_len();
    let m = pat.unicode_len();
    if m > n {
        return None;
    }
    if m == 0 {
        proof {
            assert(s@.subrange(from as int, from as int) =~= pat@);
        }
        return Some(from);
    }
    let mut i = from;
    while i <= n - m
        invariant
            from <= i,
            1 <= m <= n,
            n == s@.len(),
            m == pat@.len(),
            spec_find(s@, pat@, from as int) == spec_find(s@, pat@, i as int),
        decreases n - i,
    {
        if matches_at(s, pat, i) {
            return Some(i);
        }
        i += 1;
    }
    None
}

/// Whether two strings hold the same characters.
pub fn str_eq(a: &str, b: &str) -> (r: bool)
    ensures
        r == (a@ == b@),
{
    let n = a.unicode_len();
    if n != b.unicode_len() {
        return false;
    }
    let mut i: usize = 0;
    while i < n
        invariant
            i <= n,
            n == a@.len(),
            n == b@.len(),
            forall|k: int| 0 <= k < i ==> a@[k] == b@[k],
        decreases n - i,
    {
        if a.get_char(i) != b.get_char(i) {
            return false;
        }
        i += 1;
    }
    proof {
        assert(a@ =~= b@);
    }
    true
}

/// Whether `p` is a prefix of `s`.
pub open spec fn has_prefix(s: Seq<char>, p: Seq<char>) -> bool {
    p.len() <= s.len() && s.subrange(0, p.len() as int) == p
}

/// Whether `p` is a suffix of `s`.
pub open spec fn has_suffix(s: Seq<char>, p: Seq<char>) -> bool {
    p.len() <= s.len() && s.subrange(s.len() - p.len(), s.len() as int) == p
}

/// The remainder of `s` after stripping the prefix `p`, when present.
pub fn strip_prefix<'a>(s: &'a str, p: &str) -> (r: Option<&'a str>)
    ensures
        has_prefix(s@, p@) ==> r is Some && r->Some_0@ == s@.subrange(
            p@.len() as int,
            s@.len() as int,
        ),
        !has_prefix(s@, p@) ==> r is None,
{
    let n = s.unicode_len();
    let m = p.unicode_len();
    if m > n {
        return None;
    }
    if matches_at(s, p, 0) {
        Some(s.substring_char(m, n))
    } else {
        None
    }
}

/// The front of `s` after stripping the suffix `p`, when present.
pub fn strip_suffix<'a>(s: &'a str, p: &str) -> (r: Option<&'a str>)
    ensures
        has_suffix(s@, p@) ==> r is Some && r->Some_0@ == s@.subrange(
            0,
            s@.len() - p@.len(),
        ),
        !has_suffix(s@, p@) ==> r is None,
{
    let n = s.unicode_len();
    let m = p.unicode_len();
    if m > n {
        return None;
    }
    if matches_at(s, p, n - m) {
        Some(s.substring_char(0, n - m))
    } else {
        None
    }
}

/// Pieces of `s[from..]` delimited by `pat`, leftmost occurrence first.
pub open spec fn spec_split_at(s: Seq<char>, pat: Seq<char>, from: int) -> Seq<Seq<char>>
    decreases s.len() - from,
    via spec_split_at_decreases
{
    if from < 0 || from > s.len() || pat.len() == 0 {
        seq![]
    } else {
        match spec_find(s, pat, from) {
            Some(i) => seq![s.subrange(from, i)] + spec_split_at(s, pat, i + pat.len()),
            None => seq![s.subrange(from, s.len() as int)],
        }
    }
}

#[via_fn]
proof fn spec_split_at_decreases(s: Seq<char>, pat: Seq<char>, from: int) {
    lemma_find_range(s, pat, from);
}

/// Pieces of `s` delimited by `pat`.
pub open spec fn spec_split(s: Seq<char>, pat: Seq<char>) -> Seq<Seq<char>> {
    spec_split_at(s, pat, 0)
}

/// Split `s` on every occurrence of `pat`, leftmost first.
pub fn split_str<'a>(s: &'a str, pat: &str) -> (r: Vec<&'a str>)
    requires
        pat@.len() >= 1,
    ensures
        r@.map_values(|t: &str| t@) == spec_split(s@, pat@),
{
    let n = s.unicode_len();
    let m = pat.unicode_len();
    let mut parts: Vec<&'a str> = Vec::new();
    let mut pos: usize = 0;
    loop
        invariant
            pos <= n,
            n == s@.len(),
            m == pat@.len(),
            1 <= m,
            spec_split(s@, pat@) == parts@.map_values(|t: &str| t@) + spec_split_at(
                s@,
                pat@,
                pos as int,
            ),
        decreases n - pos,
    {
        match find_sub(s, pat, pos) {
            Some(i) => {
                proof {
                    lemma_find_range(s@, pat@, pos as int);
                }
                let piece = s.substring_char(pos, i);
                proof {
                    let f = |t: &str| t@;
                    assert((parts@ + seq![piece]).map_values(f) =~= parts@.map_values(f) + seq![
                        piece@,
                    ]);
                    assert(parts@.map_values(f) + (seq![piece@] + spec_split_at(
                        s@,
                        pat@,
                        i + m,
                    )) =~= (parts@.map_values(f) + seq![piece@]) + spec_split_at(s@, pat@, i + m));
                }
                parts.push(piece);
                pos = i + m;
            },
            None => {
                let piece = s.substring_char(pos, n);
                proof {
                    let f = |t: &str| t@;
                    assert((parts@ + seq![piece]).map_values(f) =~= parts@.map_values(f) + seq![
                        piece@,
                    ]);
                }
                parts.push(piece);
                return parts;
            },
        }
    }
}

/// A line with a trailing carriage return shed.
pub open spec fn strip_cr(l: Seq<char>) -> Seq<char> {
    if l.len() > 0 && l[l.len() - 1] == '\r' {
        l.drop_last()
    } else {
        l
    }
}

/// The lines of `s`: pieces delimited by newlines, a final newline
/// closing the last line, each line shedding a trailing carriage return.
pub open spec fn spec_lines(s: Seq<char>) -> Seq<Seq<char>> {
    let base = if s.len() == 0 {
        seq![]
    } else if s[s.len() - 1] == '\n' {
        spec_split(s.drop_last(), seq!['\n'])
    } else {
        spec_split(s, seq!['\n'])
    };
    base.map_values(|l: Seq<char>| strip_cr(l))
}

/// Split `s` into its lines.
pub fn split_lines<'a>(s: &'a str) -> (r: Vec<&'a str>)
    ensures
        r@.map_values(|t: &str| t@) == spec_lines(s@),
{
    let nl = "\n";
    let cr = "\r";
    proof {
        reveal_strlit("\n");
        reveal_strlit("\r");
        assert(nl@ =~= seq!['\n']);
    }
    let n = s.unicode_len();
    if n == 0 {
        let r: Vec<&'a str> = Vec::new();
        proof {
            assert(r@.map_values(|t: &str| t@) =~= spec_lines(s@));
        }
        return r;
    }
    let t: &'a str = if s.get_char(n - 1) == '\n' {
        s.substring_char(0, n - 1)
    } else {
        s
    };
    proof {
        assert(t@ == if s@[s@.len() - 1] == '\n' {
            s@.drop_last()
        } else {
            s@
        });
    }
    let raw = split_str(t, nl);
    let mut out: Vec<&'a str> = Vec::new();
    let mut i: usize = 0;
    while i < raw.len()
        invariant
            i <= raw@.len(),
            raw@.map_values(|t: &str| t@) == spec_split(t@, seq!['\n']),
            t@ == (if s@.len() == 0 {
                s@
            } else if s@[s@.len() - 1] == '\n' {
                s@.drop_last()
            } else {
                s@
            }),
            s@.len() > 0,
            cr@ == seq!['\r'],
            out@.map_values(|t: &str| t@) =~= spec_lines(s@).take(i as int),
        decreases raw@.len() - i,
    {
        let line = raw[i];
        let ln = line.unicode_len();
        let stripped: &'a str = if ln > 0 && line.get_char(ln - 1) == '\r' {
            line.substring_char(0, ln - 1)
        } else {
            line
        };
        proof {
            assert(raw@.map_values(|t: &str| t@)[i as int] == line@);
            assert(stripped@ == strip_cr(line@));
            assert(spec_lines(s@)[i as int] == strip_cr(line@));
            let f = |t: &str| t@;
            assert((out@ + seq![stripped]).map_values(f) =~= out@.map_values(f) + seq![stripped@]);
            assert(out@.map_values(f) + seq![stripped@] =~= spec_lines(s@).take(i + 1));
        }
        out.push(stripped);
        i += 1;
    }
    proof {
        assert(spec_lines(s@).take(i as int) =~= spec_lines(s@));
    }
    out
}

/// ASCII whitespace.
pub open spec fn is_ws(c: char) -> bool {
    c == ' ' || c == '\t' || c == '\n' || c == '\r' || c == '\u{000C}'
}

/// First position at or after `from` holding a non-whitespace character.
pub open spec fn skip_ws(s: Seq<char>, from: int) -> int
    decreases s.len() - from,
{
    if from < 0 || from >= s.len() {
        s.len() as int
    } else if is_ws(s[from]) {
        skip_ws(s, from + 1)
    } else {
        from
    }
}

/// First position at or after `from` holding a whitespace character.
pub open spec fn scan_token(s: Seq<char>, from: int) -> int
    decreases s.len() - from,
{
    if from < 0 || from >= s.len() {
        s.len() as int
    } else if !is_ws(s[from]) {
        scan_token(s, from + 1)
    } else {
        from
    }
}

pub proof fn lemma_skip_ws_range(s: Seq<char>, from: int)
    requires
        0 <= from <= s.len(),
    ensures
        from <= skip_ws(s, from) <= s.len(),
        skip_ws(s, from) < s.len() ==> !is_ws(s[skip_ws(s, from)]),
    decreases s.len() - from,
{
    if from < s.len() && is_ws(s[from]) {
        lemma_skip_ws_range(s, from + 1);
    }
}

pub proof fn lemma_scan_token_range(s: Seq<char>, from: int)
    requires
        0 <= from <= s.len(),
    ensures
        from <= scan_token(s, from) <= s.len(),
    decreases s.len() - from,
{
    if from < s.len() && !is_ws(s[from]) {
        lemma_scan_token_range(s, from + 1);
    }
}

/// The whitespace-separated words of `s[from..]`, empties skipped.
pub open spec fn spec_tokens(s: Seq<char>, from: int) -> Seq<Seq<char>>
    decreases s.len() - from,
    via spec_tokens_decreases
{
    if from < 0 || from >= s.len() {
        seq![]
    } else {
        let a = skip_ws(s, from);
        if a >= s.len() {
            seq![]
        } else {
            seq![s.subrange(a, scan_token(s, a))] + spec_tokens(s, scan_token(s, a))
        }
    }
}

#[via_fn]
proof fn spec_tokens_decreases(s: Seq<char>, from: int) {
    if 0 <= from < s.len() {
        lemma_skip_ws_range(s, from);
        let a = skip_ws(s, from);
        if a < s.len() {
            lemma_scan_token_range(s, a + 1);
        }
    }
}

/// Whether the character is ASCII whitespace.
pub fn ws_char(c: char) -> (r: bool)
    ensures
        r == is_ws(c),
{
    c == ' ' || c == '\t' || c == '\n' || c == '\r' || c == '\u{000C}'
}

/// The whitespace-separated words of `s`.
pub fn split_tokens<'a>(s: &'a str) -> (r: Vec<&'a str>)
    ensures
        r@.map_values(|t: &str| t@) == spec_tokens(s@, 0),
{
    let n = s.unicode_len();
    let mut out: Vec<&'a str> = Vec::new();
    let mut pos: usize = 0;
    loop
        invariant
            pos <= n,
            n == s@.len(),
            spec_tokens(s@, 0) == out@.map_values(|t: &str| t@) + spec_tokens(s@, pos as int),
        decreases n - pos,
    {
        let ghost entry = pos as int;
        while pos < n && ws_char(s.get_char(pos))
            invariant
                entry <= pos <= n,
                n == s@.len(),
                skip_ws(s@, entry) == skip_ws(s@, pos as int),
            decreases n - pos,
        {
            pos += 1;
        }
        if pos == n {
            proof {
                assert(spec_tokens(s@, entry) =~= seq![]);
                assert(out@.map_values(|t: &str| t@) + spec_tokens(s@, entry)
                    =~= out@.map_values(|t: &str| t@));
            }
            return out;
        }
        proof {
            assert(skip_ws(s@, pos as int) == pos as int);
        }
        let start = pos;
        while pos < n && !ws_char(s.get_char(pos))
            invariant
                start <= pos <= n,
                n == s@.len(),
                scan_token(s@, start as int) == scan_token(s@, pos as int),
            decreases n - pos,
        {
            pos += 1;
        }
        proof {
            assert(scan_token(s@, start as int) == pos as int);
        }
        let tok = s.substring_char(start, pos);
        proof {
            let f = |t: &str| t@;
            assert(spec_tokens(s@, entry) == seq![tok@] + spec_tokens(s@, pos as int));
            assert((out@ + seq![tok]).map_values(f) =~= out@.map_values(f) + seq![tok@]);
            assert(out@.map_values(f) + (seq![tok@] + spec_tokens(s@, pos as int)) =~= (
            out@.map_values(f) + seq![tok@]) + spec_tokens(s@, pos as int));
        }
        out.push(tok);
    }
}

/// The value of one decimal digit character, `-1` for any other character.
pub open spec fn digit_val(c: char) -> int {
    if c == '0' {
        0
    } else if c == '1' {
        1
    } else if c == '2' {
        2
    } else if c == '3' {
        3
    } else if c == '4' {
        4
    } else if c == '5' {
        5
    } else if c == '6' {
        6
    } else if c == '7' {
        7
    } else if c == '8' {
        8
    } else if c == '9' {
        9
    } else {
        -1
    }
}

/// Whether every character of `s` is a decimal digit.
pub open spec fn all_digits(s: Seq<char>) -> bool {
    forall|i: int| 0 <= i < s.len() ==> digit_val(#[trigger] s[i]) >= 0
}

/// The number denoted by a digit string, most significant digit first.
pub open spec fn spec_digits_val(s: Seq<char>) -> int
    decreases s.len(),
{
    if s.len() == 0 {
        0
    } else {
        spec_digits_val(s.drop_last()) * 10 + digit_val(s[s.len() - 1])
    }
}

/// A digit string denotes a non-negative number.
pub proof fn lemma_digits_val_nonneg(s: Seq<char>)
    requires
        all_digits(s),
    ensures
        spec_digits_val(s) >= 0,
    decreases s.len(),
{
    if s.len() > 0 {
        assert(all_digits(s.drop_last())) by {
            assert(forall|i: int|
                0 <= i < s.len() - 1 ==> #[trigger] s.drop_last()[i] == s[i]);
        }
        lemma_digits_val_nonneg(s.drop_last());
    }
}

/// A digit string of at most nine digits denotes a number under a billion.
pub proof fn lemma_digits_val_bound(s: Seq<char>)
    requires
        all_digits(s),
        s.len() <= 9,
    ensures
        0 <= spec_digits_val(s) < 1000000000,
{
    lemma_digits_val_bound_to(s, 9);
    assert(pow10(9) == 1000000000) by {
        reveal_with_fuel(pow10, 10);
    }
}

/// A digit string of `n` digits denotes a number under the `n`-th power of ten.
pub proof fn lemma_digits_val_bound_to(s: Seq<char>, n: nat)
    requires
        all_digits(s),
        s.len() <= n,
        n <= 9,
    ensures
        0 <= spec_digits_val(s) < pow10(n),
    decreases s.len(),
{
    if s.len() == 0 {
        lemma_pow10_pos(n);
    } else {
        assert(all_digits(s.drop_last())) by {
            assert(forall|i: int|
                0 <= i < s.len() - 1 ==> #[trigger] s.drop_last()[i] == s[i]);
        }
        lemma_digits_val_bound_to(s.drop_last(), (n - 1) as nat);
        lemma_pow10_mono((n - 1) as nat, n);
        assert(digit_val(s[s.len() - 1]) <= 9);
        assert(spec_digits_val(s.drop_last()) * 10 + 9 < pow10((n - 1) as nat) * 10);
        assert(pow10(n) == pow10((n - 1) as nat) * 10);
    }
}

/// The `n`-th power of ten.
pub open spec fn pow10(n: nat) -> int
    decreases n,
{
    if n == 0 {
        1
    } else {
        pow10((n - 1) as nat) * 10
    }
}

proof fn lemma_pow10_pos(n: nat)
    ensures
        pow10(n) >= 1,
    decreases n,
{
    if n > 0 {
        lemma_pow10_pos((n - 1) as nat);
    }
}

proof fn lemma_pow10_mono(a: nat, b: nat)
    requires
        a <= b,
    ensures
        pow10(a) <= pow10(b),
    decreases b,
{
    if a < b {
        lemma_pow10_mono(a, (b - 1) as nat);
        lemma_pow10_pos((b - 1) as nat);
    }
}

/// The character for one decimal digit.
pub open spec fn dec_digit(d: int) -> char {
    if d == 0 {
        '0'
    } else if d == 1 {
        '1'
    } else if d == 2 {
        '2'
    } else if d == 3 {
        '3'
    } else if d == 4 {
        '4'
    } else if d == 5 {
        '5'
    } else if d == 6 {
        '6'
    } else if d == 7 {
        '7'
    } else if d == 8 {
        '8'
    } else {
        '9'
    }
}

/// The decimal digits of `n`, most significant first.
pub open spec fn dec_str(n: int) -> Seq<char>
    decreases n,
{
    if n < 10 {
        seq![dec_digit(n)]
    } else {
        dec_str(n / 10).push(dec_digit(n % 10))
    }
}

/// `n` in decimal, padded with zeroes to at least two digits.
pub open spec fn padded2(n: int) -> Seq<char> {
    if 0 <= n < 10 {
        seq!['0'] + dec_str(n)
    } else {
        dec_str(n)
    }
}

/// `n` in decimal, padded with zeroes to at least four digits.
pub open spec fn padded4(n: int) -> Seq<char> {
    if 0 <= n < 10 {
        seq!['0', '0', '0'] + dec_str(n)
    } else if 10 <= n < 100 {
        seq!['0', '0'] + dec_str(n)
    } else if 100 <= n < 1000 {
        seq!['0'] + dec_str(n)
    } else {
        dec_str(n)
    }
}

fn digit_str(d: u32) -> (r: &'static str)
    requires
        d <= 9,
    ensures
        r@ == seq![dec_digit(d as int)],
{
    let r: &'static str = if d == 0 {
        "0"
    } else if d == 1 {
        "1"
    } else if d == 2 {
        "2"
    } else if d == 3 {
        "3"
    } else if d == 4 {
        "4"
    } else if d == 5 {
        "5"
    } else if d == 6 {
        "6"
    } else if d == 7 {
        "7"
    } else if d == 8 {
        "8"
    } else {
        "9"
    };
    proof {
        reveal_strlit("0");
        reveal_strlit("1");
        reveal_strlit("2");
        reveal_strlit("3");
        reveal_strlit("4");
        reveal_strlit("5");
        reveal_strlit("6");
        reveal_strlit("7");
        reveal_strlit("8");
        reveal_strlit("9");
        assert(r@ =~= seq![dec_digit(d as int)]);
    }
    r
}

/// `n` written in decimal.
pub fn u32_string(n: u32) -> (r: String)
    ensures
        r@ == dec_str(n as int),
    decreases n,
{
    if n < 10 {
        String::from_str(digit_str(n))
    } else {
        let mut s = u32_string(n / 10);
        s.append(digit_str(n % 10));
        proof {
            assert(s@ =~= dec_str(n as int));
        }
        s
    }
}

/// `n` in decimal, padded with zeroes to at least two digits.
pub fn u32_string_pad2(n: u32) -> (r: String)
    ensures
        r@ == padded2(n as int),
{
    let mut s = String::new();
    if n < 10 {
        let z = "0";
        proof {
            reveal_strlit("0");
        }
        s.append(z);
    }
    let d = u32_string(n);
    s.append(d.as_str());
    proof {
        assert(s@ =~= padded2(n as int));
    }
    s
}

/// `n` in decimal, padded with zeroes to at least four digits.
pub fn u32_string_pad4(n: u32) -> (r: String)
    ensures
        r@ == padded4(n as int),
{
    let mut s = String::new();
    if n < 10 {
        let z = "000";
        proof {
            reveal_strlit("000");
        }
        s.append(z);
    } else if n < 100 {
        let z = "00";
        proof {
            reveal_strlit("00");
        }
        s.append(z);
    } else if n < 1000 {
        let z = "0";
        proof {
            reveal_strlit("0");
        }
        s.append(z);
    }
    let d = u32_string(n);
    s.append(d.as_str());
    proof {
        assert(s@ =~= padded4(n as int));
    }
    s
}

/// A date written as `yyyy-mm-dd`.
pub open spec fn spec_date_str(d: crate::calendar::Date) -> Seq<char> {
    padded4(d.year as int) + seq!['-'] + padded2(d.month as int) + seq!['-'] + padded2(d.day as int)
}

/// Write a date as `yyyy-mm-dd`.
pub fn date_string(d: &crate::calendar::Date) -> (r: String)
    ensures
        r@ == spec_date_str(*d),
{
    let dash = "-";
    proof {
        reveal_strlit("-");
    }
    let mut s = u32_string_pad4(d.year);
    s.append(dash);
    let m = u32_string_pad2(d.month);
    s.append(m.as_str());
    s.append(dash);
    let dd = u32_string_pad2(d.day);
    s.append(dd.as_str());
    proof {
        assert(s@ =~= spec_date_str(*d));
    }
    s
}

} // verus!
