//! The persisted high-score format: two lines, each a list of integers
//! separated by single spaces. This module holds the verified text work —
//! rendering number lists and reading them back, token by token, the way the
//! standard integer parser would: an optional leading plus sign, then
//! decimal digits, rejected on overflow. The file reads and writes
//! themselves belong to the surrounding application.
use vstd::prelude::*;

verus! {

/// The digit character for a value 0 through 9.
pub open spec fn dec_digit(d: int) -> char {
    if d == 0 {
        '0'
    } else if d == 1 {
        '1'
    } else if d == 2 {
        '2'
    } else if d == 3 {
        '3'
    } else if d == 4 {
        '4'
    } else if d == 5 {
        '5'
    } else if d == 6 {
        '6'
    } else if d == 7 {
        '7'
    } else if d == 8 {
        '8'
    } else {
        '9'
    }
}

/// The decimal representation of a non-negative number, most significant
/// digit first, without sign or leading zeros.
pub open spec fn dec_rep(n: int) -> Seq<char>
    decreases n,
{
    if n < 10 {
        seq![dec_digit(n)]
    } else {
        dec_rep(n / 10).push(dec_digit(n % 10))
    }
}

/// The numbers' decimal representations joined by single spaces.
pub open spec fn joined_nums(nums: Seq<u32>) -> Seq<char>
    decreases nums.len(),
{
    if nums.len() == 0 {
        Seq::empty()
    } else if nums.len() == 1 {
        dec_rep(nums[0] as int)
    } else {
        joined_nums(nums.drop_last()) + seq![' '] + dec_rep(nums.last() as int)
    }
}

/// The text split at every occurrence of `sep`: always one more piece than
/// separators, empty pieces included.
pub open spec fn split_at(s: Seq<char>, sep: char) -> Seq<Seq<char>>
    decreases s.len(),
{
    if s.len() == 0 {
        seq![Seq::empty()]
    } else {
        let rest = split_at(s.drop_last(), sep);
        if s.last() == sep {
            rest.push(Seq::empty())
        } else {
            rest.update(rest.len() - 1, rest.last().push(s.last()))
        }
    }
}

/// A split is never empty.
pub proof fn lemma_split_nonempty(s: Seq<char>, sep: char)
    ensures
        split_at(s, sep).len() >= 1,
    decreases s.len(),
{
    if s.len() > 0 {
        lemma_split_nonempty(s.drop_last(), sep);
    }
}

/// Whether `c` is a decimal digit.
pub open spec fn is_digit(c: char) -> bool {
    48 <= c as u32 <= 57
}

/// The numeric value of a digit string, most significant digit first.
pub open spec fn digits_val(ds: Seq<char>) -> int
    decreases ds.len(),
{
    if ds.len() == 0 {
        0
    } else {
        digits_val(ds.drop_last()) * 10 + (ds.last() as u32 - 48)
    }
}

/// The digit part of a token: everything after one optional leading plus
/// sign.
pub open spec fn token_digits(t: Seq<char>) -> Seq<char> {
    if t.len() >= 1 && t[0] == '+' {
        t.skip(1)
    } else {
        t
    }
}

/// What the standard parser makes of one token as an unsigned 32-bit
/// number: at least one digit, digits only, value within range — or nothing.
pub open spec fn parse_u32(t: Seq<char>) -> Option<int> {
    let ds = token_digits(t);
    if ds.len() >= 1 && (forall|i: int| 0 <= i < ds.len() ==> is_digit(#[trigger] ds[i]))
        && digits_val(ds) <= u32::MAX {
        Some(digits_val(ds))
    } else {
        None
    }
}

/// The values of the tokens that parse, in order, the rest dropped.
pub open spec fn parsed_tokens(tokens: Seq<Seq<char>>) -> Seq<int> {
    tokens.filter_map(|t: Seq<char>| parse_u32(t))
}

/// One more token either appends its value or changes nothing.
pub proof fn lemma_parsed_tokens_step(tokens: Seq<Seq<char>>)
    requires
        tokens.len() > 0,
    ensures
        parsed_tokens(tokens) == match parse_u32(tokens.last()) {
            Some(v) => parsed_tokens(tokens.drop_last()).push(v),
            None => parsed_tokens(tokens.drop_last()),
        },
{
    match parse_u32(tokens.last()) {
        Some(v) => {
            assert(parsed_tokens(tokens) =~= parsed_tokens(tokens.drop_last()).push(v));
        },
        None => {},
    }
}

/// The numbers hidden in a line: each space-separated token that parses,
/// in order, the rest dropped.
pub open spec fn parsed_nums(s: Seq<char>) -> Seq<int> {
    parsed_tokens(split_at(s, ' '))
}

/// Unsigned numbers as their mathematical values.
pub open spec fn u32s_as_ints(vs: Seq<u32>) -> Seq<int> {
    vs.map_values(|v: u32| v as int)
}

/// A digit string never shrinks in value as it grows.
pub proof fn lemma_digits_val_prefix(ds: Seq<char>, i: int)
    requires
        0 <= i <= ds.len(),
        forall|j: int| 0 <= j < ds.len() ==> is_digit(#[trigger] ds[j]),
    ensures
        0 <= digits_val(ds.take(i)) <= digits_val(ds),
    decreases ds.len() - i,
{
    lemma_digits_val_nonneg(ds.take(i));
    if i < ds.len() {
        lemma_digits_val_prefix(ds, i + 1);
        assert(ds.take(i + 1).drop_last() =~= ds.take(i));
        lemma_digits_val_nonneg(ds.take(i));
    } else {
        assert(ds.take(i) =~= ds);
    }
}

/// A digit string's value is never negative.
pub proof fn lemma_digits_val_nonneg(ds: Seq<char>)
    requires
        forall|j: int| 0 <= j < ds.len() ==> is_digit(#[trigger] ds[j]),
    ensures
        digits_val(ds) >= 0,
    decreases ds.len(),
{
    if ds.len() > 0 {
        lemma_digits_val_nonneg(ds.drop_last());
    }
}

/// The single-character string of a digit value.
fn digit_str(d: u32) -> (r: &'static str)
    requires
        d < 10,
    ensures
        r@ == seq![dec_digit(d as int)],
{
    proof {
        reveal_strlit("0");
        reveal_strlit("1");
        reveal_strlit("2");
        reveal_strlit("3");
        reveal_strlit("4");
        reveal_strlit("5");
        reveal_strlit("6");
        reveal_strlit("7");
        reveal_strlit("8");
        reveal_strlit("9");
    }
    if d == 0 {
        "0"
    } else if d == 1 {
        "1"
    } else if d == 2 {
        "2"
    } else if d == 3 {
        "3"
    } else if d == 4 {
        "4"
    } else if d == 5 {
        "5"
    } else if d == 6 {
        "6"
    } else if d == 7 {
        "7"
    } else if d == 8 {
        "8"
    } else {
        "9"
    }
}

/// Digit values, least significant first, read back most significant first.
spec fn rev_digit_chars(ds: Seq<u32>) -> Seq<char> {
    Seq::new(ds.len(), |i: int| dec_digit(ds[ds.len() - 1 - i] as int))
}

/// One number rendered in decimal.
fn u32_to_string(n: u32) -> (r: String)
    ensures
        r@ == dec_rep(n as int),
{
    let mut digits: Vec<u32> = Vec::new();
    let mut v = n;
    while v >= 10
        invariant
            dec_rep(n as int) == dec_rep(v as int) + rev_digit_chars(digits@),
            forall|i: int| 0 <= i < digits@.len() ==> #[trigger] digits@[i] < 10,
        decreases v,
    {
        let ghost pre = digits@;
        digits.push(v % 10);
        proof {
            assert(rev_digit_chars(digits@) =~= seq![dec_digit((v % 10) as int)] + rev_digit_chars(
                pre,
            ));
        }
        v = v / 10;
    }
    let ghost pre = digits@;
    digits.push(v);
    proof {
        assert(rev_digit_chars(digits@) =~= seq![dec_digit(v as int)] + rev_digit_chars(pre));
        assert(dec_rep(v as int) == seq![dec_digit(v as int)]);
    }
    let mut s = String::new();
    let mut i = digits.len();
    while i > 0
        invariant
            i <= digits@.len(),
            forall|k: int| 0 <= k < digits@.len() ==> #[trigger] digits@[k] < 10,
            dec_rep(n as int) == rev_digit_chars(digits@),
            s@ == rev_digit_chars(digits@).take(digits@.len() - i),
        decreases i,
    {
        i = i - 1;
        let ghost before = s@;
        s.append(digit_str(digits[i]));
        proof {
            let ds = digits@;
            let done = ds.len() - i;
            assert(rev_digit_chars(ds)[done - 1] == dec_digit(ds[i as int] as int));
            assert(rev_digit_chars(ds).take(done) =~= rev_digit_chars(ds).take(done - 1).push(
                rev_digit_chars(ds)[done - 1],
            ));
        }
    }
    proof {
        assert(rev_digit_chars(digits@).take(digits@.len() as int) =~= rev_digit_chars(digits@));
    }
    s
}

/// The numbers' decimal forms joined by single spaces; what one leaderboard
/// line of the score file holds.
pub fn nums_to_string(nums: &Vec<u32>) -> (r: String)
    ensures
        r@ == joined_nums(nums@),
{
    let mut s = String::new();
    let n = nums.len();
    for i in 0..n
        invariant
            n == nums@.len(),
            s@ == joined_nums(nums@.take(i as int)),
    {
        if i > 0 {
            proof {
                reveal_strlit(" ");
            }
            s.append(" ");
        }
        let d = u32_to_string(nums[i]);
        s.append(d.as_str());
        proof {
            assert(nums@.take(i + 1).drop_last() =~= nums@.take(i as int));
            assert(nums@.take(i + 1).last() == nums@[i as int]);
            if i == 0 {
                assert(joined_nums(nums@.take(1)) == dec_rep(nums@[0] as int));
            }
        }
    }
    proof {
        assert(nums@.take(n as int) =~= nums@);
    }
    s
}

/// One token parsed the way the standard unsigned parser would: an optional
/// leading plus sign, then decimal digits, `None` on anything else or on
/// overflow.
fn parse_token(t: &Vec<char>) -> (r: Option<u32>)
    ensures
        match r {
            Some(v) => parse_u32(t@) == Some(v as int),
            None => parse_u32(t@) is None,
        },
{
    let mut start: usize = 0;
    if t.len() >= 1 && t[0] == '+' {
        start = 1;
    }
    let ghost ds = token_digits(t@);
    proof {
        assert(ds =~= t@.skip(start as int));
    }
    if t.len() == start {
        return None;
    }
    let mut acc: u64 = 0;
    let mut i = start;
    while i < t.len()
        invariant
            start <= i <= t@.len(),
            start <= 1,
            ds == token_digits(t@),
            ds =~= t@.skip(start as int),
            t@.len() > start,
            acc as int == digits_val(ds.take(i - start)),
            acc <= u32::MAX,
            forall|j: int| 0 <= j < i - start ==> is_digit(#[trigger] ds[j]),
        decreases t@.len() - i,
    {
        let c = t[i];
        let cv = c as u32;
        if cv < 48 || cv > 57 {
            proof {
                assert(ds[i - start] == c);
                assert(!is_digit(ds[i - start]));
            }
            return None;
        }
        let d = (cv - 48) as u64;
        let next: u64 = acc * 10 + d;
        proof {
            assert(ds[i - start] == c);
            assert(is_digit(ds[i - start]));
            assert(ds.take(i - start + 1).drop_last() =~= ds.take(i - start));
            assert(ds.take(i - start + 1).last() == ds[i - start]);
            assert(digits_val(ds.take(i - start + 1)) == acc as int * 10 + (cv - 48));
        }
        if next > u32::MAX as u64 {
            proof {
                lemma_digits_val_prefix_overflow(ds, i - start + 1, next as int);
            }
            return None;
        }
        acc = next;
        i = i + 1;
    }
    proof {
        assert(ds.take(t@.len() - start) =~= ds);
    }
    Some(acc as u32)
}

/// A digit string worth more than a prefix already over the limit is over
/// the limit too.
proof fn lemma_digits_val_prefix_overflow(ds: Seq<char>, i: int, v: int)
    requires
        0 <= i <= ds.len(),
        digits_val(ds.take(i)) == v,
        v > u32::MAX,
        forall|j: int| 0 <= j < i ==> is_digit(#[trigger] ds[j]),
    ensures
        parse_u32_digits_over(ds),
{
    if !(ds.len() >= 1 && (forall|j: int| 0 <= j < ds.len() ==> is_digit(#[trigger] ds[j]))) {
    } else {
        lemma_digits_val_prefix(ds, i);
    }
}

/// Either the digit string is malformed or its value is over the 32-bit
/// limit: in both cases the parse yields nothing.
pub open spec fn parse_u32_digits_over(ds: Seq<char>) -> bool {
    !(ds.len() >= 1 && (forall|i: int| 0 <= i < ds.len() ==> is_digit(#[trigger] ds[i]))
        && digits_val(ds) <= u32::MAX)
}

/// Index of the first line break at or after `from`, or the text's length
/// when no line break follows.
pub open spec fn line_end(s: Seq<char>, from: int) -> int
    decreases s.len() - from,
{
    if from < 0 || from >= s.len() {
        s.len() as int
    } else if s[from] == '\n' {
        from
    } else {
        line_end(s, from + 1)
    }
}

/// The first line break lies between `from` and the end of the text.
pub proof fn lemma_line_end_bounds(s: Seq<char>, from: int)
    requires
        0 <= from,
    ensures
        line_end(s, from) <= s.len(),
        from <= s.len() ==> from <= line_end(s, from),
    decreases s.len() - from,
{
    if from < s.len() && s[from] != '\n' {
        lemma_line_end_bounds(s, from + 1);
    }
}

/// The two leaderboard lines rendered for the score file, each closed by a
/// line break.
pub fn format_score_content(highscores: &Vec<u32>, max_lines: &Vec<u32>) -> (r: String)
    ensures
        r@ == joined_nums(highscores@) + seq!['\n'] + joined_nums(max_lines@) + seq!['\n'],
{
    proof {
        reveal_strlit("\n");
    }
    let mut s = nums_to_string(highscores);
    s.append("\n");
    let second = nums_to_string(max_lines);
    s.append(second.as_str());
    s.append("\n");
    s
}

/// The two leaderboards read back from the score file's text: the first two
/// lines, each parsed for numbers — and nothing at all unless there are two
/// lines and each yields at least one number. A malformed file is no saved
/// data, never an error.
pub fn parse_score_content(content: &str) -> (r: Option<(Vec<u32>, Vec<u32>)>)
    ensures
        ({
            let s = content@;
            let e1 = line_end(s, 0);
            let l1 = s.subrange(0, e1);
            let e2 = line_end(s, e1 + 1);
            let l2 = s.subrange(e1 + 1, e2);
            match r {
                Some(lists) => {
                    &&& e1 < s.len()
                    &&& parsed_nums(l1).len() > 0
                    &&& parsed_nums(l2).len() > 0
                    &&& u32s_as_ints(lists.0@) == parsed_nums(l1)
                    &&& u32s_as_ints(lists.1@) == parsed_nums(l2)
                },
                None => !(e1 < s.len() && parsed_nums(l1).len() > 0 && parsed_nums(l2).len() > 0),
            }
        }),
{
    let ghost s = content@;
    let n = content.unicode_len();
    let mut i: usize = 0;
    proof {
        lemma_line_end_bounds(s, 0);
    }
    while i < n
        invariant
            n == s.len(),
            s == content@,
            i <= n,
            line_end(s, 0) == line_end(s, i as int),
            i as int <= line_end(s, 0),
        ensures
            i as int == line_end(s, 0),
            i <= n,
            n == s.len(),
            s == content@,
        decreases n - i,
    {
        proof {
            lemma_line_end_bounds(s, i + 1);
        }
        let c = content.get_char(i);
        if c == '\n' {
            break ;
        }
        i = i + 1;
    }
    let e1 = i;
    if e1 == n {
        return None;
    }
    let line1 = content.substring_char(0, e1);
    let nums1 = string_to_nums(line1);

    let mut j: usize = e1 + 1;
    proof {
        lemma_line_end_bounds(s, e1 + 1);
    }
    while j < n
        invariant
            n == s.len(),
            s == content@,
            e1 < n,
            e1 + 1 <= j <= n,
            line_end(s, e1 + 1) == line_end(s, j as int),
            j as int <= line_end(s, e1 + 1),
        ensures
            j as int == line_end(s, e1 + 1),
            e1 + 1 <= j <= n,
            n == s.len(),
            s == content@,
            e1 < n,
        decreases n - j,
    {
        proof {
            lemma_line_end_bounds(s, j + 1);
        }
        let c = content.get_char(j);
        if c == '\n' {
            break ;
        }
        j = j + 1;
    }
    let line2 = content.substring_char(e1 + 1, j);
    let nums2 = string_to_nums(line2);

    if nums1.len() == 0 || nums2.len() == 0 {
        proof {
            if nums1@.len() == 0 {
                assert(parsed_nums(s.subrange(0, e1 as int)).len() == 0);
            }
        }
        return None;
    }
    Some((nums1, nums2))
}

/// The numbers found in one line: every space-separated token that parses
/// as an unsigned 32-bit number, in order; malformed tokens are dropped.
pub fn string_to_nums(string: &str) -> (r: Vec<u32>)
    ensures
        u32s_as_ints(r@) == parsed_nums(string@),
{
    let n = string.unicode_len();
    let mut out: Vec<u32> = Vec::new();
    let mut cur: Vec<char> = Vec::new();
    for i in 0..n
        invariant
            n == string@.len(),
            ({
                let sp = split_at(string@.take(i as int), ' ');
                &&& sp.len() >= 1
                &&& cur@ == sp.last()
                &&& u32s_as_ints(out@) == parsed_tokens(sp.drop_last())
            }),
    {
        let ghost sp = split_at(string@.take(i as int), ' ');
        proof {
            assert(string@.take(i + 1).drop_last() =~= string@.take(i as int));
            assert(string@.take(i + 1).last() == string@[i as int]);
            lemma_split_nonempty(string@.take(i as int), ' ');
        }
        let c = string.get_char(i);
        if c == ' ' {
            let parsed = parse_token(&cur);
            let ghost preout = out@;
            match parsed {
                Some(v) => out.push(v),
                None => {},
            }
            cur = Vec::new();
            proof {
                let sp1 = split_at(string@.take(i + 1), ' ');
                assert(sp1 =~= sp.push(Seq::empty()));
                assert(sp1.drop_last() =~= sp);
                lemma_parsed_tokens_step(sp);
                match parsed {
                    Some(v) => {
                        assert(u32s_as_ints(out@) =~= u32s_as_ints(preout).push(v as int));
                    },
                    None => {},
                }
            }
        } else {
            let ghost precur = cur@;
            cur.push(c);
            proof {
                let sp1 = split_at(string@.take(i + 1), ' ');
                assert(sp1 =~= sp.update(sp.len() - 1, sp.last().push(string@[i as int])));
                assert(sp1.drop_last() =~= sp.drop_last());
            }
        }
    }
    let parsed = parse_token(&cur);
    let ghost preout = out@;
    match parsed {
        Some(v) => out.push(v),
        None => {},
    }
    proof {
        assert(string@.take(n as int) =~= string@);
        let sp = split_at(string@, ' ');
        lemma_split_nonempty(string@, ' ');
        lemma_parsed_tokens_step(sp);
        match parsed {
            Some(v) => {
                assert(u32s_as_ints(out@) =~= u32s_as_ints(preout).push(v as int));
            },
            None => {},
        }
    }
    out
}

} // verus!
