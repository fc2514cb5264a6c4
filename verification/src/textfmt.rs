//! Character-level text helpers shared by the expression parser and the
//! message formatting: decimal digits, string equality, ASCII case folding
//! and word joining, all specified over sequences of characters.

use vstd::prelude::*;

verus! {

/// Whether a character is a decimal digit.
pub open spec fn is_digit(c: char) -> bool {
    48 <= c as u32 <= 57
}

/// Numeric value of a decimal digit character.
pub open spec fn digit_of(c: char) -> int {
    c as u32 - 48
}

/// Value of a string of decimal digits, most significant first.
pub open spec fn digits_val(s: Seq<char>) -> int
    decreases s.len(),
{
    if s.len() == 0 {
        0
    } else {
        digits_val(s.drop_last()) * 10 + digit_of(s.last())
    }
}

/// Whether every character of the string is a decimal digit.
pub open spec fn all_digits(s: Seq<char>) -> bool {
    forall|i: int| 0 <= i < s.len() ==> is_digit(#[trigger] s[i])
}

/// Length of the run of decimal digits starting at `i`.
pub open spec fn digit_run(s: Seq<char>, i: int) -> int
    decreases s.len() - i,
{
    if i < 0 || i >= s.len() || !is_digit(s[i]) {
        0
    } else {
        1 + digit_run(s, i + 1)
    }
}

/// The digit character for a value in 0..10.
pub open spec fn digit_char(d: int) -> char {
    if d == 0 {
        '0'
    } else if d == 1 {
        '1'
    } else if d == 2 {
        '2'
    } else if d == 3 {
        '3'
    } else if d == 4 {
        '4'
    } else if d == 5 {
        '5'
    } else if d == 6 {
        '6'
    } else if d == 7 {
        '7'
    } else if d == 8 {
        '8'
    } else {
        '9'
    }
}

/// Decimal notation of a number, without leading zeroes (a lone zero for 0).
pub open spec fn dec_digits(n: int) -> Seq<char>
    decreases n,
{
    if n < 10 {
        seq![digit_char(n)]
    } else {
        dec_digits(n / 10).push(digit_char(n % 10))
    }
}

/// Numeric value of one digit character, or none for any other character.
pub fn digit_value(c: char) -> (r: Option<u64>)
    ensures
        r is Some <==> is_digit(c),
        r is Some ==> r->Some_0 == digit_of(c),
{
    let u = c as u32;
    if 48 <= u && u <= 57 {
        Some((u - 48) as u64)
    } else {
        None
    }
}

/// The one-character string for a digit value in 0..10.
pub fn digit_str_of(d: u64) -> (r: &'static str)
    requires
        d < 10,
    ensures
        r@ =~= seq![digit_char(d as int)],
{
    proof {
        reveal_strlit("0");
        reveal_strlit("1");
        reveal_strlit("2");
        reveal_strlit("3");
        reveal_strlit("4");
        reveal_strlit("5");
        reveal_strlit("6");
        reveal_strlit("7");
        reveal_strlit("8");
        reveal_strlit("9");
    }
    match d {
        0 => "0",
        1 => "1",
        2 => "2",
        3 => "3",
        4 => "4",
        5 => "5",
        6 => "6",
        7 => "7",
        8 => "8",
        _ => "9",
    }
}

/// Decimal notation of a number, without leading zeroes.
pub fn u64_to_string(n: u64) -> (r: String)
    ensures
        r@ == dec_digits(n as int),
    decreases n,
{
    if n < 10 {
        let mut s = String::new();
        s.append(digit_str_of(n));
        assert(s@ =~= dec_digits(n as int));
        s
    } else {
        let mut s = u64_to_string(n / 10);
        s.append(digit_str_of(n % 10));
        assert(s@ =~= dec_digits(n as int));
        s
    }
}

/// Whether two strings hold the same characters.
pub fn str_eq(a: &str, b: &str) -> (r: bool)
    ensures
        r == (a@ == b@),
{
    let na = a.unicode_len();
    let nb = b.unicode_len();
    if na != nb {
        return false;
    }
    let mut i: usize = 0;
    while i < na
        invariant
            na == a@.len(),
            na == b@.len(),
            0 <= i <= na,
            forall|j: int| 0 <= j < i ==> a@[j] == b@[j],
        decreases na - i,
    {
        if a.get_char(i) != b.get_char(i) {
            return false;
        }
        i = i + 1;
    }
    proof {
        assert(a@ =~= b@);
    }
    true
}

/// ASCII case folding of one character: uppercase letters are lowered,
/// everything else is kept.
pub open spec fn lower_char(c: char) -> char {
    if 65 <= c as u32 <= 90 {
        ((c as u32 + 32) as u8) as char
    } else {
        c
    }
}

/// ASCII case folding of a string.
pub open spec fn lower_seq(s: Seq<char>) -> Seq<char> {
    s.map_values(|c: char| lower_char(c))
}

/// ASCII case folding of one character.
pub fn lower_char_of(c: char) -> (r: char)
    ensures
        r == lower_char(c),
{
    let u = c as u32;
    if 65 <= u && u <= 90 {
        ((u + 32) as u8) as char
    } else {
        c
    }
}

/// The characters of a word, folded to ASCII lowercase.
pub fn chars_of_lower(w: &str) -> (r: Vec<char>)
    ensures
        r@ == lower_seq(w@),
{
    let n = w.unicode_len();
    let mut r: Vec<char> = Vec::new();
    let mut i: usize = 0;
    while i < n
        invariant
            n == w@.len(),
            0 <= i <= n,
            r@.len() == i,
            forall|j: int| 0 <= j < i ==> r@[j] == lower_char(w@[j]),
        decreases n - i,
    {
        r.push(lower_char_of(w.get_char(i)));
        i = i + 1;
    }
    proof {
        assert(r@ =~= lower_seq(w@));
    }
    r
}

/// The characters of a word, unchanged.
pub fn chars_of(w: &str) -> (r: Vec<char>)
    ensures
        r@ == w@,
{
    let n = w.unicode_len();
    let mut r: Vec<char> = Vec::new();
    let mut i: usize = 0;
    while i < n
        invariant
            n == w@.len(),
            0 <= i <= n,
            r@.len() == i,
            forall|j: int| 0 <= j < i ==> r@[j] == w@[j],
        decreases n - i,
    {
        r.push(w.get_char(i));
        i = i + 1;
    }
    proof {
        assert(r@ =~= w@);
    }
    r
}

/// Whether a character vector holds exactly the characters of a string.
pub fn chars_eq_str(cs: &Vec<char>, lit: &str) -> (r: bool)
    ensures
        r == (cs@ == lit@),
{
    let n = lit.unicode_len();
    if cs.len() != n {
        return false;
    }
    let mut i: usize = 0;
    while i < n
        invariant
            n == lit@.len(),
            n == cs@.len(),
            0 <= i <= n,
            forall|j: int| 0 <= j < i ==> cs@[j] == lit@[j],
        decreases n - i,
    {
        if cs[i] != lit.get_char(i) {
            return false;
        }
        i = i + 1;
    }
    proof {
        assert(cs@ =~= lit@);
    }
    true
}

/// Length of the run of decimal digits starting at position `from`.
pub fn digit_run_chars(cs: &Vec<char>, from: usize) -> (r: usize)
    requires
        from <= cs@.len(),
    ensures
        r == digit_run(cs@, from as int),
        from + r <= cs@.len(),
    decreases cs@.len() - from,
{
    if from == cs.len() {
        return 0;
    }
    if digit_value(cs[from]).is_some() {
        1 + digit_run_chars(cs, from + 1)
    } else {
        0
    }
}

/// Value of the digit run `cs[from..to]`, or none when it overflows `u64`.
pub fn digits_value_chars(cs: &Vec<char>, from: usize, to: usize) -> (r: Option<u64>)
    requires
        from <= to <= cs@.len(),
        all_digits(cs@.subrange(from as int, to as int)),
    ensures
        r is Some <==> digits_val(cs@.subrange(from as int, to as int)) <= u64::MAX,
        r is Some ==> r->Some_0 == digits_val(cs@.subrange(from as int, to as int)),
{
    let mut i = from;
    let mut acc: u64 = 0;
    let mut over = false;
    while i < to
        invariant
            from <= i <= to <= cs@.len(),
            all_digits(cs@.subrange(from as int, to as int)),
            !over ==> acc == digits_val(cs@.subrange(from as int, i as int)),
            over ==> digits_val(cs@.subrange(from as int, i as int)) > u64::MAX,
        decreases to - i,
    {
        let c = cs[i];
        assert(cs@.subrange(from as int, to as int)[i - from] == cs@[i as int]);
        let d = digit_value(c).unwrap();
        assert(cs@.subrange(from as int, i + 1 as int).drop_last() =~= cs@.subrange(
            from as int,
            i as int,
        ));
        assert(digits_val(cs@.subrange(from as int, i + 1 as int)) == digits_val(
            cs@.subrange(from as int, i as int),
        ) * 10 + digit_of(cs@[i as int]));
        if over {
            proof {
                let v = digits_val(cs@.subrange(from as int, i as int));
                assert(v * 10 + digit_of(cs@[i as int]) > u64::MAX) by (nonlinear_arith)
                    requires
                        v > u64::MAX,
                        digit_of(cs@[i as int]) >= 0,
                ;
            }
        } else {
            if acc > (u64::MAX - d) / 10 {
                proof {
                    let m = u64::MAX as int;
                    let dd = d as int;
                    assert(acc * 10 + dd > m) by (nonlinear_arith)
                        requires
                            acc > (m - dd) / 10,
                            0 <= dd <= 9,
                            m == 0xffff_ffff_ffff_ffff,
                            acc >= 0,
                    ;
                }
                over = true;
            } else {
                proof {
                    let m = u64::MAX as int;
                    let dd = d as int;
                    assert(acc * 10 + dd <= m) by (nonlinear_arith)
                        requires
                            acc <= (m - dd) / 10,
                            0 <= dd <= 9,
                            m == 0xffff_ffff_ffff_ffff,
                            acc >= 0,
                    ;
                }
                acc = acc * 10 + d;
            }
        }
        i = i + 1;
    }
    proof {
        assert(cs@.subrange(from as int, to as int) =~= cs@.subrange(from as int, i as int));
    }
    if over {
        None
    } else {
        Some(acc)
    }
}

/// Whether the characters from `from` on equal the given string.
pub fn chars_range_eq_str(cs: &Vec<char>, from: usize, lit: &str) -> (r: bool)
    requires
        from <= cs@.len(),
    ensures
        r == (cs@.skip(from as int) == lit@),
{
    let n = lit.unicode_len();
    let clen = cs.len();
    if clen - from != n {
        proof {
            assert(cs@.skip(from as int).len() != lit@.len());
        }
        return false;
    }
    let mut i: usize = 0;
    while i < n
        invariant
            n == lit@.len(),
            from + n == clen,
            clen == cs@.len(),
            0 <= i <= n,
            forall|j: int| 0 <= j < i ==> cs@[from + j] == lit@[j],
        decreases n - i,
    {
        if cs[from + i] != lit.get_char(i) {
            proof {
                assert(cs@.skip(from as int)[i as int] == cs@[from + i]);
            }
            return false;
        }
        i = i + 1;
    }
    proof {
        assert(cs@.skip(from as int) =~= lit@);
    }
    true
}

/// The characters of a digit run are digits, and the run is maximal.
pub proof fn lemma_digit_run_facts(s: Seq<char>, from: int)
    requires
        0 <= from <= s.len(),
    ensures
        digit_run(s, from) >= 0,
        from + digit_run(s, from) <= s.len(),
        all_digits(s.subrange(from, from + digit_run(s, from))),
        from + digit_run(s, from) < s.len() ==> !is_digit(s[from + digit_run(s, from)]),
    decreases s.len() - from,
{
    if from < s.len() && is_digit(s[from]) {
        lemma_digit_run_facts(s, from + 1);
        let k = digit_run(s, from);
        let k2 = digit_run(s, from + 1);
        assert(k == 1 + k2);
        assert forall|i: int| 0 <= i < k implies is_digit(
            #[trigger] s.subrange(from, from + k)[i],
        ) by {
            if i > 0 {
                assert(is_digit(s.subrange(from + 1, from + 1 + k2)[i - 1]));
                assert(s.subrange(from + 1, from + 1 + k2)[i - 1] == s[from + i]);
            }
            assert(s.subrange(from, from + k)[i] == s[from + i]);
        }
    }
}

/// A digit run of at most four digits has a small value.
pub proof fn lemma_short_digits_val(s: Seq<char>)
    requires
        all_digits(s),
        s.len() <= 4,
    ensures
        0 <= digits_val(s),
        s.len() <= 1 ==> digits_val(s) <= 9,
        s.len() <= 2 ==> digits_val(s) <= 99,
        s.len() <= 3 ==> digits_val(s) <= 999,
        digits_val(s) <= 9999,
    decreases s.len(),
{
    if s.len() == 0 {
    } else {
        assert(is_digit(s.last()));
        assert(all_digits(s.drop_last())) by {
            assert(forall|i: int|
                0 <= i < s.drop_last().len() ==> s.drop_last()[i] == #[trigger] s[i]);
        }
        lemma_short_digits_val(s.drop_last());
    }
}

/// The same character `k` times over.
pub open spec fn repeat_char(c: char, k: int) -> Seq<char>
    decreases k,
{
    if k <= 0 {
        Seq::empty()
    } else {
        repeat_char(c, k - 1).push(c)
    }
}

/// Decimal notation of a number, left-padded with zeroes to the width
/// (never truncated).
pub open spec fn zero_pad(n: int, width: int) -> Seq<char> {
    if dec_digits(n).len() >= width {
        dec_digits(n)
    } else {
        repeat_char('0', width - dec_digits(n).len()) + dec_digits(n)
    }
}

/// Decimal notation of a number, left-padded with zeroes to the width.
pub fn pad_num(n: u64, width: usize) -> (r: String)
    ensures
        r@ == zero_pad(n as int, width as int),
{
    proof {
        reveal_strlit("0");
    }
    let s = u64_to_string(n);
    let l = s.unicode_len();
    if l >= width {
        proof {
            assert(s@ =~= zero_pad(n as int, width as int));
        }
        return s;
    }
    let mut r = String::new();
    let mut k = l;
    while k < width
        invariant
            l <= k <= width,
            r@ == repeat_char('0', k - l),
        decreases width - k,
    {
        r.append("0");
        proof {
            reveal_strlit("0");
            assert(r@ =~= repeat_char('0', k + 1 - l));
        }
        k = k + 1;
    }
    r.append(s.as_str());
    proof {
        assert(r@ =~= zero_pad(n as int, width as int));
    }
    r
}

/// The lines from `from` on, joined with single newlines.
pub open spec fn join_lines(ws: Seq<Seq<char>>, from: int) -> Seq<char>
    decreases ws.len() - from,
{
    if from < 0 || from >= ws.len() {
        Seq::empty()
    } else if from == ws.len() - 1 {
        ws[from]
    } else {
        ws[from] + seq!['\n'] + join_lines(ws, from + 1)
    }
}

/// Joins the lines from `from` on with single newlines.
pub fn join_lines_from(lines: &Vec<String>, from: usize) -> (r: String)
    requires
        from <= lines@.len(),
    ensures
        r@ == join_lines(lines.deep_view(), from as int),
    decreases lines@.len() - from,
{
    if from >= lines.len() {
        let r = String::new();
        assert(r@ =~= join_lines(lines.deep_view(), from as int));
        r
    } else if from == lines.len() - 1 {
        let r = lines[from].clone();
        assert(r@ =~= join_lines(lines.deep_view(), from as int));
        r
    } else {
        let mut r = lines[from].clone();
        proof {
            reveal_strlit("\n");
        }
        r.append("\n");
        let rest = join_lines_from(lines, from + 1);
        r.append(rest.as_str());
        assert(r@ =~= join_lines(lines.deep_view(), from as int));
        r
    }
}

/// The words from `from` on, joined with single spaces.
pub open spec fn join_words(ws: Seq<Seq<char>>, from: int) -> Seq<char>
    decreases ws.len() - from,
{
    if from < 0 || from >= ws.len() {
        Seq::empty()
    } else if from == ws.len() - 1 {
        ws[from]
    } else {
        ws[from] + seq![' '] + join_words(ws, from + 1)
    }
}

/// Joins the words from `from` on with single spaces.
pub fn join_from(words: &Vec<String>, from: usize) -> (r: String)
    requires
        from <= words@.len(),
    ensures
        r@ == join_words(words.deep_view(), from as int),
    decreases words@.len() - from,
{
    if from >= words.len() {
        let r = String::new();
        assert(r@ =~= join_words(words.deep_view(), from as int));
        r
    } else if from == words.len() - 1 {
        let r = words[from].clone();
        assert(r@ =~= join_words(words.deep_view(), from as int));
        r
    } else {
        let mut r = words[from].clone();
        proof {
            reveal_strlit(" ");
        }
        r.append(" ");
        let rest = join_from(words, from + 1);
        r.append(rest.as_str());
        assert(r@ =~= join_words(words.deep_view(), from as int));
        r
    }
}

} // verus!
