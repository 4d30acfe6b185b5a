//! Character-level text utilities: whitespace classification, trimming,
//! decimal rendering and parsing, and plain string equality. The probe
//! parsers and the supervisor's diagnostic messages are built on these.

use vstd::prelude::*;

verus! {

/// The whitespace characters the OS listings are split on.
pub open spec fn is_space(c: char) -> bool {
    c == ' ' || c == '\t' || c == '\r' || c == '\n'
}

pub fn is_space_char(c: char) -> (r: bool)
    ensures
        r == is_space(c),
{
    c == ' ' || c == '\t' || c == '\r' || c == '\n'
}

/// The text with its leading whitespace removed.
pub open spec fn trim_start(s: Seq<char>) -> Seq<char>
    decreases s.len(),
{
    if s.len() == 0 {
        s
    } else if is_space(s[0]) {
        trim_start(s.drop_first())
    } else {
        s
    }
}

/// The text with its trailing whitespace removed.
pub open spec fn trim_end(s: Seq<char>) -> Seq<char>
    decreases s.len(),
{
    if s.len() == 0 {
        s
    } else if is_space(s.last()) {
        trim_end(s.drop_last())
    } else {
        s
    }
}

/// The text with whitespace removed at both ends.
pub open spec fn trimmed(s: Seq<char>) -> Seq<char> {
    trim_end(trim_start(s))
}

proof fn lemma_trim_start_skip(s: Seq<char>, i: int)
    requires
        0 <= i <= s.len(),
        forall|j: int| 0 <= j < i ==> is_space(s[j]),
        i < s.len() ==> !is_space(s[i]),
    ensures
        trim_start(s) == s.skip(i),
    decreases i,
{
    if i == 0 {
        assert(s.skip(0) =~= s);
    } else {
        lemma_trim_start_skip(s.drop_first(), i - 1);
        assert(s.drop_first().skip(i - 1) =~= s.skip(i));
    }
}

proof fn lemma_trim_end_take(s: Seq<char>, k: int)
    requires
        0 <= k <= s.len(),
        forall|j: int| k <= j < s.len() ==> is_space(s[j]),
        k > 0 ==> !is_space(s[k - 1]),
    ensures
        trim_end(s) == s.take(k),
    decreases s.len(),
{
    if k == s.len() {
        assert(s.take(k) =~= s);
    } else {
        lemma_trim_end_take(s.drop_last(), k);
        assert(s.drop_last().take(k) =~= s.take(k));
    }
}

/// Copy of `s` with whitespace removed at both ends.
pub fn trim(s: &str) -> (r: String)
    ensures
        r@ == trimmed(s@),
{
    let n = s.unicode_len();
    let mut a: usize = 0;
    while a < n && is_space_char(s.get_char(a))
        invariant
            0 <= a <= n,
            n == s@.len(),
            forall|j: int| 0 <= j < a ==> is_space(s@[j]),
        decreases n - a,
    {
        a = a + 1;
    }
    proof {
        lemma_trim_start_skip(s@, a as int);
    }
    let mut b: usize = n;
    while b > a && is_space_char(s.get_char(b - 1))
        invariant
            a <= b <= n,
            n == s@.len(),
            forall|j: int| b <= j < n ==> is_space(s@[j]),
        decreases b,
    {
        b = b - 1;
    }
    proof {
        let t = s@.skip(a as int);
        assert(forall|j: int| b - a <= j < t.len() ==> is_space(#[trigger] t[j]));
        if b > a {
            assert(t[b - a - 1] == s@[b - 1]);
        }
        lemma_trim_end_take(t, b - a);
        assert(t.take(b - a) =~= s@.subrange(a as int, b as int));
    }
    let piece = s.substring_char(a, b);
    piece.to_owned()
}

/// The character for one decimal digit.
pub open spec fn digit_char(d: int) -> char {
    if d == 0 {
        '0'
    } else if d == 1 {
        '1'
    } else if d == 2 {
        '2'
    } else if d == 3 {
        '3'
    } else if d == 4 {
        '4'
    } else if d == 5 {
        '5'
    } else if d == 6 {
        '6'
    } else if d == 7 {
        '7'
    } else if d == 8 {
        '8'
    } else {
        '9'
    }
}

/// The decimal rendering of a number, most significant digit first,
/// without leading zeros (a single `'0'` for zero).
pub open spec fn dec_seq(n: nat) -> Seq<char>
    decreases n,
{
    if n < 10 {
        seq![digit_char(n as int)]
    } else {
        dec_seq(n / 10).push(digit_char((n % 10) as int))
    }
}

fn digit_str(d: u64) -> (r: &'static str)
    requires
        d < 10,
    ensures
        r@ =~= seq![digit_char(d as int)],
{
    proof {
        reveal_strlit("0");
        reveal_strlit("1");
        reveal_strlit("2");
        reveal_strlit("3");
        reveal_strlit("4");
        reveal_strlit("5");
        reveal_strlit("6");
        reveal_strlit("7");
        reveal_strlit("8");
        reveal_strlit("9");
    }
    if d == 0 {
        "0"
    } else if d == 1 {
        "1"
    } else if d == 2 {
        "2"
    } else if d == 3 {
        "3"
    } else if d == 4 {
        "4"
    } else if d == 5 {
        "5"
    } else if d == 6 {
        "6"
    } else if d == 7 {
        "7"
    } else if d == 8 {
        "8"
    } else {
        "9"
    }
}

/// Decimal rendering of `n`.
pub fn render_u64(n: u64) -> (s: String)
    ensures
        s@ == dec_seq(n as nat),
    decreases n,
{
    if n < 10 {
        digit_str(n).to_owned()
    } else {
        let mut s = render_u64(n / 10);
        s.append(digit_str(n % 10));
        proof {
            assert(s@ =~= dec_seq((n / 10) as nat).push(digit_char((n % 10) as int)));
        }
        s
    }
}

/// The ten decimal digit characters.
pub open spec fn is_digit(c: char) -> bool {
    c == '0' || c == '1' || c == '2' || c == '3' || c == '4' || c == '5' || c == '6' || c == '7'
        || c == '8' || c == '9'
}

/// The value of one decimal digit character.
pub open spec fn digit_val(c: char) -> int {
    if c == '0' {
        0
    } else if c == '1' {
        1
    } else if c == '2' {
        2
    } else if c == '3' {
        3
    } else if c == '4' {
        4
    } else if c == '5' {
        5
    } else if c == '6' {
        6
    } else if c == '7' {
        7
    } else if c == '8' {
        8
    } else {
        9
    }
}

/// Every character of `s` is a decimal digit.
pub open spec fn all_digits(s: Seq<char>) -> bool {
    forall|i: int| 0 <= i < s.len() ==> is_digit(s[i])
}

/// The number written by a digit sequence, leading zeros allowed.
pub open spec fn dec_val(s: Seq<char>) -> int
    decreases s.len(),
{
    if s.len() == 0 {
        0
    } else {
        dec_val(s.drop_last()) * 10 + digit_val(s.last())
    }
}

proof fn lemma_dec_val_nonneg(s: Seq<char>)
    requires
        all_digits(s),
    ensures
        dec_val(s) >= 0,
    decreases s.len(),
{
    if s.len() > 0 {
        assert(all_digits(s.drop_last()));
        lemma_dec_val_nonneg(s.drop_last());
        assert(is_digit(s.last()));
    }
}

proof fn lemma_dec_val_take_succ(s: Seq<char>, i: int)
    requires
        0 <= i < s.len(),
    ensures
        dec_val(s.take(i + 1)) == dec_val(s.take(i)) * 10 + digit_val(s[i]),
{
    assert(s.take(i + 1).drop_last() =~= s.take(i));
    assert(s.take(i + 1).last() == s[i]);
}

proof fn lemma_dec_val_grows(s: Seq<char>, i: int)
    requires
        all_digits(s),
        0 <= i <= s.len(),
    ensures
        dec_val(s) >= dec_val(s.take(i)),
    decreases s.len() - i,
{
    if i == s.len() {
        assert(s.take(i) =~= s);
    } else {
        lemma_dec_val_take_succ(s, i);
        assert(all_digits(s.take(i))) by {
            assert(forall|j: int| 0 <= j < i ==> s.take(i)[j] == s[j]);
        }
        lemma_dec_val_nonneg(s.take(i));
        assert(is_digit(s[i]));
        lemma_dec_val_grows(s, i + 1);
    }
}

fn is_digit_char(c: char) -> (r: bool)
    ensures
        r == is_digit(c),
{
    c == '0' || c == '1' || c == '2' || c == '3' || c == '4' || c == '5' || c == '6' || c == '7'
        || c == '8' || c == '9'
}

fn digit_val_char(c: char) -> (r: u64)
    requires
        is_digit(c),
    ensures
        r < 10,
        r as int == digit_val(c),
{
    if c == '0' {
        0
    } else if c == '1' {
        1
    } else if c == '2' {
        2
    } else if c == '3' {
        3
    } else if c == '4' {
        4
    } else if c == '5' {
        5
    } else if c == '6' {
        6
    } else if c == '7' {
        7
    } else if c == '8' {
        8
    } else {
        9
    }
}

/// Parse an unsigned decimal number. The parse succeeds exactly on a
/// non-empty all-digit text whose value fits in 32 bits, and then
/// returns that value.
pub fn parse_u32(s: &str) -> (r: Option<u32>)
    ensures
        match r {
            Some(v) => s@.len() > 0 && all_digits(s@) && dec_val(s@) == v as int,
            None => s@.len() == 0 || !all_digits(s@) || dec_val(s@) > u32::MAX,
        },
{
    let n = s.unicode_len();
    if n == 0 {
        return None;
    }
    let mut i: usize = 0;
    while i < n
        invariant
            0 <= i <= n,
            n == s@.len(),
            forall|j: int| 0 <= j < i ==> is_digit(s@[j]),
        decreases n - i,
    {
        if !is_digit_char(s.get_char(i)) {
            return None;
        }
        i = i + 1;
    }
    assert(all_digits(s@));
    let mut acc: u64 = 0;
    let mut k: usize = 0;
    while k < n
        invariant
            0 <= k <= n,
            n == s@.len(),
            all_digits(s@),
            acc as int == dec_val(s@.take(k as int)),
            acc <= u32::MAX as u64,
        decreases n - k,
    {
        let d = digit_val_char(s.get_char(k));
        proof {
            lemma_dec_val_take_succ(s@, k as int);
        }
        acc = acc * 10 + d;
        k = k + 1;
        if acc > u32::MAX as u64 {
            proof {
                lemma_dec_val_grows(s@, k as int);
            }
            return None;
        }
    }
    proof {
        assert(s@.take(n as int) =~= s@);
    }
    Some(acc as u32)
}

/// An upper-case ASCII letter folded to lower case; anything else kept.
pub open spec fn lower_char(c: char) -> char {
    if c == 'A' {
        'a'
    } else if c == 'B' {
        'b'
    } else if c == 'C' {
        'c'
    } else if c == 'D' {
        'd'
    } else if c == 'E' {
        'e'
    } else if c == 'F' {
        'f'
    } else if c == 'G' {
        'g'
    } else if c == 'H' {
        'h'
    } else if c == 'I' {
        'i'
    } else if c == 'J' {
        'j'
    } else if c == 'K' {
        'k'
    } else if c == 'L' {
        'l'
    } else if c == 'M' {
        'm'
    } else if c == 'N' {
        'n'
    } else if c == 'O' {
        'o'
    } else if c == 'P' {
        'p'
    } else if c == 'Q' {
        'q'
    } else if c == 'R' {
        'r'
    } else if c == 'S' {
        's'
    } else if c == 'T' {
        't'
    } else if c == 'U' {
        'u'
    } else if c == 'V' {
        'v'
    } else if c == 'W' {
        'w'
    } else if c == 'X' {
        'x'
    } else if c == 'Y' {
        'y'
    } else if c == 'Z' {
        'z'
    } else {
        c
    }
}

fn lower_char_x(c: char) -> (r: char)
    ensures
        r == lower_char(c),
{
    match c {
        'A' => 'a',
        'B' => 'b',
        'C' => 'c',
        'D' => 'd',
        'E' => 'e',
        'F' => 'f',
        'G' => 'g',
        'H' => 'h',
        'I' => 'i',
        'J' => 'j',
        'K' => 'k',
        'L' => 'l',
        'M' => 'm',
        'N' => 'n',
        'O' => 'o',
        'P' => 'p',
        'Q' => 'q',
        'R' => 'r',
        'S' => 's',
        'T' => 't',
        'U' => 'u',
        'V' => 'v',
        'W' => 'w',
        'X' => 'x',
        'Y' => 'y',
        'Z' => 'z',
        _ => c,
    }
}

/// The text folded to lower case, character by character.
pub open spec fn lower_of(s: Seq<char>) -> Seq<char> {
    s.map_values(|c: char| lower_char(c))
}

/// The pattern `p` stands at position `i` of `s`.
pub open spec fn contains_at(s: Seq<char>, p: Seq<char>, i: int) -> bool {
    0 <= i && i + p.len() <= s.len() && forall|j: int| 0 <= j < p.len() ==> s[i + j] == p[j]
}

/// The pattern `p` occurs somewhere in `s`.
pub open spec fn contains_seq(s: Seq<char>, p: Seq<char>) -> bool {
    exists|i: int| contains_at(s, p, i)
}

/// Whether two pieces of text hold the same characters.
pub fn str_eq(a: &str, b: &str) -> (r: bool)
    ensures
        r == (a@ == b@),
{
    let n = a.unicode_len();
    if n != b.unicode_len() {
        return false;
    }
    let mut i: usize = 0;
    while i < n
        invariant
            0 <= i <= n,
            n == a@.len() == b@.len(),
            forall|j: int| 0 <= j < i ==> a@[j] == b@[j],
        decreases n - i,
    {
        if a.get_char(i) != b.get_char(i) {
            return false;
        }
        i = i + 1;
    }
    proof {
        assert(a@ =~= b@);
    }
    true
}

/// The views of a list of owned strings.
pub open spec fn views_of(v: Seq<String>) -> Seq<Seq<char>> {
    v.map_values(|t: String| t@)
}

/// Index of the first whitespace character, or the length when none.
pub open spec fn first_break(s: Seq<char>) -> int
    decreases s.len(),
{
    if s.len() == 0 {
        0
    } else if is_space(s[0]) {
        0
    } else {
        1 + first_break(s.drop_first())
    }
}

proof fn lemma_first_break_bounds(s: Seq<char>)
    ensures
        0 <= first_break(s) <= s.len(),
        s.len() > 0 && !is_space(s[0]) ==> 1 <= first_break(s),
    decreases s.len(),
{
    if s.len() > 0 && !is_space(s[0]) {
        lemma_first_break_bounds(s.drop_first());
    }
}

proof fn lemma_first_break_is(s: Seq<char>, k: int)
    requires
        0 <= k <= s.len(),
        forall|m: int| 0 <= m < k ==> !is_space(s[m]),
        k < s.len() ==> is_space(s[k]),
    ensures
        first_break(s) == k,
    decreases k,
{
    if s.len() == 0 {
    } else if is_space(s[0]) {
        assert(k == 0);
    } else {
        assert(k >= 1);
        assert forall|m: int| 0 <= m < k - 1 implies !is_space(s.drop_first()[m]) by {
            assert(s.drop_first()[m] == s[m + 1]);
        }
        if k - 1 < s.drop_first().len() {
            assert(s.drop_first()[k - 1] == s[k]);
        }
        lemma_first_break_is(s.drop_first(), k - 1);
    }
}

/// The whitespace-separated tokens of a line, in order.
pub open spec fn ws_tokens(s: Seq<char>) -> Seq<Seq<char>>
    decreases s.len(),
    via ws_tokens_dec
{
    if s.len() == 0 {
        Seq::empty()
    } else if is_space(s[0]) {
        ws_tokens(s.drop_first())
    } else {
        seq![s.take(first_break(s))] + ws_tokens(s.skip(first_break(s)))
    }
}

#[via_fn]
proof fn ws_tokens_dec(s: Seq<char>) {
    if s.len() > 0 && !is_space(s[0]) {
        lemma_first_break_bounds(s);
    }
}

/// The whitespace-separated tokens of `s`, in order.
pub fn split_ws(s: &str) -> (r: Vec<String>)
    ensures
        views_of(r@) == ws_tokens(s@),
{
    let n = s.unicode_len();
    let mut r: Vec<String> = Vec::new();
    let mut i: usize = 0;
    proof {
        assert(s@.skip(0) =~= s@);
        assert(views_of(r@) + ws_tokens(s@) =~= ws_tokens(s@));
    }
    while i < n
        invariant
            0 <= i <= n,
            n == s@.len(),
            ws_tokens(s@) == views_of(r@) + ws_tokens(s@.skip(i as int)),
        decreases n - i,
    {
        if is_space_char(s.get_char(i)) {
            proof {
                let t = s@.skip(i as int);
                assert(is_space(t[0]));
                assert(t.drop_first() =~= s@.skip(i as int + 1));
            }
            i = i + 1;
        } else {
            let start = i;
            let mut j = i + 1;
            while j < n && !is_space_char(s.get_char(j))
                invariant
                    start < j <= n,
                    n == s@.len(),
                    !is_space(s@[start as int]),
                    forall|l: int| start <= l < j ==> !is_space(s@[l]),
                decreases n - j,
            {
                j = j + 1;
            }
            let tok = s.substring_char(start, j).to_owned();
            let ghost pre = r@;
            r.push(tok);
            proof {
                let t = s@.skip(start as int);
                assert forall|m: int| 0 <= m < j - start implies !is_space(t[m]) by {
                    assert(t[m] == s@[start + m]);
                }
                if j < n {
                    assert(t[j - start] == s@[j as int]);
                }
                lemma_first_break_is(t, j - start);
                assert(t.take(j - start) =~= s@.subrange(start as int, j as int));
                assert(t.skip(j - start) =~= s@.skip(j as int));
                assert(views_of(r@) =~= views_of(pre) + seq![
                    s@.subrange(start as int, j as int),
                ]);
                assert(views_of(pre) + (seq![s@.subrange(start as int, j as int)] + ws_tokens(
                    s@.skip(j as int),
                )) =~= views_of(r@) + ws_tokens(s@.skip(j as int)));
            }
            i = j;
        }
    }
    proof {
        assert(s@.skip(n as int) =~= Seq::<char>::empty());
        assert(views_of(r@) + Seq::<Seq<char>>::empty() =~= views_of(r@));
    }
    r
}

/// Index of the first newline, or the length when none.
pub open spec fn line_break(s: Seq<char>) -> int
    decreases s.len(),
{
    if s.len() == 0 {
        0
    } else if s[0] == '\n' {
        0
    } else {
        1 + line_break(s.drop_first())
    }
}

proof fn lemma_line_break_bounds(s: Seq<char>)
    ensures
        0 <= line_break(s) <= s.len(),
    decreases s.len(),
{
    if s.len() > 0 && s[0] != '\n' {
        lemma_line_break_bounds(s.drop_first());
    }
}

proof fn lemma_line_break_is(s: Seq<char>, k: int)
    requires
        0 <= k <= s.len(),
        forall|m: int| 0 <= m < k ==> s[m] != '\n',
        k < s.len() ==> s[k] == '\n',
    ensures
        line_break(s) == k,
    decreases k,
{
    if s.len() == 0 {
    } else if s[0] == '\n' {
        assert(k == 0);
    } else {
        assert(k >= 1);
        assert forall|m: int| 0 <= m < k - 1 implies s.drop_first()[m] != '\n' by {
            assert(s.drop_first()[m] == s[m + 1]);
        }
        if k - 1 < s.drop_first().len() {
            assert(s.drop_first()[k - 1] == s[k]);
        }
        lemma_line_break_is(s.drop_first(), k - 1);
    }
}

/// A line with one carriage return stripped from its end.
pub open spec fn strip_cr(l: Seq<char>) -> Seq<char> {
    if l.len() > 0 && l.last() == '\r' {
        l.drop_last()
    } else {
        l
    }
}

/// The lines of a text: split at each newline, with a carriage return
/// standing before the newline stripped; a last line without terminator
/// kept as it stands; no final empty line.
pub open spec fn lines_of(s: Seq<char>) -> Seq<Seq<char>>
    decreases s.len(),
    via lines_of_dec
{
    if s.len() == 0 {
        Seq::empty()
    } else if line_break(s) == s.len() {
        seq![s]
    } else {
        seq![strip_cr(s.take(line_break(s)))] + lines_of(s.skip(line_break(s) + 1))
    }
}

#[via_fn]
proof fn lines_of_dec(s: Seq<char>) {
    lemma_line_break_bounds(s);
}

/// The lines of `s`, in order.
pub fn split_lines(s: &str) -> (r: Vec<String>)
    ensures
        views_of(r@) == lines_of(s@),
{
    let n = s.unicode_len();
    let mut r: Vec<String> = Vec::new();
    let mut i: usize = 0;
    proof {
        assert(s@.skip(0) =~= s@);
        assert(views_of(r@) + lines_of(s@) =~= lines_of(s@));
    }
    while i < n
        invariant
            0 <= i <= n,
            n == s@.len(),
            lines_of(s@) == views_of(r@) + lines_of(s@.skip(i as int)),
        decreases n - i,
    {
        let start = i;
        let mut j = i;
        while j < n && s.get_char(j) != '\n'
            invariant
                start <= j <= n,
                n == s@.len(),
                forall|l: int| start <= l < j ==> s@[l] != '\n',
            decreases n - j,
        {
            j = j + 1;
        }
        let ghost t = s@.skip(start as int);
        proof {
            assert forall|m: int| 0 <= m < j - start implies t[m] != '\n' by {
                assert(t[m] == s@[start + m]);
            }
            if j < n {
                assert(t[j - start] == s@[j as int]);
            }
            lemma_line_break_is(t, j - start);
        }
        if j == n {
            let tok = s.substring_char(start, n).to_owned();
            let ghost pre = r@;
            r.push(tok);
            proof {
                assert(t =~= s@.subrange(start as int, n as int));
                assert(line_break(t) == t.len());
                assert(lines_of(t) == seq![t]);
                assert(views_of(r@) =~= views_of(pre) + seq![t]);
                assert(s@.skip(n as int) =~= Seq::<char>::empty());
                assert(views_of(pre) + seq![t] + lines_of(Seq::<char>::empty()) =~= views_of(
                    r@,
                ) + lines_of(s@.skip(n as int)));
            }
            i = n;
        } else {
            let endx = if j > start && s.get_char(j - 1) == '\r' {
                j - 1
            } else {
                j
            };
            let tok = s.substring_char(start, endx).to_owned();
            let ghost pre = r@;
            r.push(tok);
            proof {
                let k = j - start;
                assert(t.take(k) =~= s@.subrange(start as int, j as int));
                if j > start && s@[j - 1] == '\r' {
                    assert(t.take(k).len() > 0 && t.take(k).last() == '\r');
                    assert(strip_cr(t.take(k)) =~= s@.subrange(start as int, j - 1));
                } else {
                    if k > 0 {
                        assert(t.take(k).last() == s@[j - 1]);
                    }
                    assert(strip_cr(t.take(k)) =~= s@.subrange(start as int, j as int));
                }
                assert(tok@ == strip_cr(t.take(k)));
                assert(t.skip(k + 1) =~= s@.skip(j + 1));
                assert(lines_of(t) == seq![strip_cr(t.take(k))] + lines_of(s@.skip(j + 1)));
                assert(views_of(r@) =~= views_of(pre) + seq![tok@]);
                assert(views_of(pre) + (seq![tok@] + lines_of(s@.skip(j + 1))) =~= views_of(r@)
                    + lines_of(s@.skip(j + 1)));
            }
            i = j + 1;
        }
    }
    proof {
        assert(s@.skip(n as int) =~= Seq::<char>::empty());
        assert(views_of(r@) + Seq::<Seq<char>>::empty() =~= views_of(r@));
    }
    r
}

/// Whether the pattern occurs in the text, exactly.
pub fn contains_text(s: &str, p: &str) -> (r: bool)
    ensures
        r == contains_seq(s@, p@),
{
    let n = s.unicode_len();
    let m = p.unicode_len();
    if m > n {
        proof {
            assert(forall|i: int| !contains_at(s@, p@, i));
        }
        return false;
    }
    let limit = n - m;
    let mut i: usize = 0;
    while i <= limit
        invariant
            0 <= i <= limit + 1,
            limit == n - m,
            m <= n,
            n == s@.len(),
            m == p@.len(),
            forall|k: int| 0 <= k < i ==> !contains_at(s@, p@, k),
        decreases limit + 1 - i,
    {
        let mut j: usize = 0;
        while j < m && s.get_char(i + j) == p.get_char(j)
            invariant
                0 <= j <= m,
                i + m <= n,
                n == s@.len(),
                m == p@.len(),
                forall|l: int| 0 <= l < j ==> s@[i + l] == p@[l],
            decreases m - j,
        {
            j = j + 1;
        }
        if j == m {
            assert(contains_at(s@, p@, i as int));
            return true;
        }
        assert(!contains_at(s@, p@, i as int));
        i = i + 1;
    }
    proof {
        assert forall|k: int| !contains_at(s@, p@, k) by {
            if contains_at(s@, p@, k) {
                assert(0 <= k <= limit);
            }
        }
    }
    false
}

/// Whether the (lower-case) pattern occurs in the text once the text is
/// folded to lower case.
pub fn contains_text_ci(s: &str, p: &str) -> (r: bool)
    ensures
        r == contains_seq(lower_of(s@), p@),
{
    let n = s.unicode_len();
    let m = p.unicode_len();
    proof {
        assert(lower_of(s@).len() == s@.len());
    }
    if m > n {
        proof {
            assert(forall|i: int| !contains_at(lower_of(s@), p@, i));
        }
        return false;
    }
    let limit = n - m;
    let mut i: usize = 0;
    while i <= limit
        invariant
            0 <= i <= limit + 1,
            limit == n - m,
            m <= n,
            n == s@.len(),
            m == p@.len(),
            forall|k: int| 0 <= k < i ==> !contains_at(lower_of(s@), p@, k),
        decreases limit + 1 - i,
    {
        let mut j: usize = 0;
        while j < m && lower_char_x(s.get_char(i + j)) == p.get_char(j)
            invariant
                0 <= j <= m,
                i + m <= n,
                n == s@.len(),
                m == p@.len(),
                forall|l: int| 0 <= l < j ==> lower_of(s@)[i + l] == p@[l],
            decreases m - j,
        {
            j = j + 1;
        }
        if j == m {
            assert(contains_at(lower_of(s@), p@, i as int));
            return true;
        }
        assert(!contains_at(lower_of(s@), p@, i as int));
        i = i + 1;
    }
    proof {
        assert forall|k: int| !contains_at(lower_of(s@), p@, k) by {
            if contains_at(lower_of(s@), p@, k) {
                assert(0 <= k <= limit);
            }
        }
    }
    false
}

} // verus!
