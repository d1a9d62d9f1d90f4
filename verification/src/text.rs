//! Character-level helpers shared by the wire codec: decimal numbers,
//! whitespace tokenizing, and the byte-stuffing of multi-line responses.

use vstd::prelude::*;
use vstd::string::StrSliceExecFns;
use vstd::string::StringExecFns;

verus! {

// ---------------------------------------------------------------------------
// Decimal digits
// ---------------------------------------------------------------------------

/// Is `c` an ASCII decimal digit?
pub open spec fn is_digit(c: char) -> bool {
    '0' <= c && c <= '9'
}

/// Every character of `s` is a decimal digit.
pub open spec fn all_digits(s: Seq<char>) -> bool {
    forall|i: int| 0 <= i < s.len() ==> is_digit(s[i])
}

/// Numeric value of a single digit character.
pub open spec fn digit_val(c: char) -> nat {
    (c as nat - '0' as nat) as nat
}

/// Value of a digit string, most significant digit first.
pub open spec fn dec_val(s: Seq<char>) -> nat
    decreases s.len(),
{
    if s.len() == 0 {
        0
    } else {
        dec_val(s.drop_last()) * 10 + digit_val(s.last())
    }
}

/// What a non-negative integer argument means: a non-empty run of digits
/// whose value fits in `usize`; anything else is rejected.
pub open spec fn num_of(s: Seq<char>) -> Option<nat> {
    if s.len() > 0 && all_digits(s) && dec_val(s) <= usize::MAX {
        Some(dec_val(s))
    } else {
        None
    }
}

/// A digit string's value only grows as more digits follow.
proof fn lemma_dec_val_prefix(s: Seq<char>, i: int)
    requires
        0 <= i <= s.len(),
    ensures
        dec_val(s.take(i)) <= dec_val(s),
    decreases s.len() - i,
{
    if i < s.len() {
        assert(s.take(i + 1).drop_last() =~= s.take(i));
        assert(dec_val(s.take(i)) <= dec_val(s.take(i + 1)));
        lemma_dec_val_prefix(s, i + 1);
    } else {
        assert(s.take(i) =~= s);
    }
}

/// Parse a non-negative decimal integer, exactly as [`num_of`] describes.
pub fn parse_usize(s: &str) -> (r: Option<usize>)
    ensures
        match r {
            Some(n) => num_of(s@) == Some(n as nat),
            None => num_of(s@) is None,
        },
{
    let n = s.unicode_len();
    if n == 0 {
        return None;
    }
    let mut acc: usize = 0;
    let mut i: usize = 0;
    while i < n
        invariant
            0 < n == s@.len(),
            0 <= i <= n,
            all_digits(s@.take(i as int)),
            acc == dec_val(s@.take(i as int)),
        decreases n - i,
    {
        let c = s.get_char(i);
        if c < '0' || c > '9' {
            assert(!is_digit(s@[i as int]));
            return None;
        }
        let d: usize = (c as u32 as usize) - 0x30;
        assert(d == digit_val(s@[i as int]));
        if acc > (usize::MAX - d) / 10 {
            proof {
                assert(s@.take(i + 1).drop_last() =~= s@.take(i as int));
                assert(dec_val(s@.take(i + 1)) == acc * 10 + d);
                assert(acc * 10 + d > usize::MAX) by (nonlinear_arith)
                    requires
                        acc > (usize::MAX - d) / 10,
                        0 <= d <= 9,
                ;
                lemma_dec_val_prefix(s@, i + 1);
            }
            return None;
        }
        proof {
            assert(acc * 10 + d <= usize::MAX) by (nonlinear_arith)
                requires
                    acc <= (usize::MAX - d) / 10,
                    0 <= d <= 9,
            ;
            assert(s@.take(i + 1).drop_last() =~= s@.take(i as int));
        }
        acc = acc * 10 + d;
        i = i + 1;
    }
    assert(s@.take(n as int) =~= s@);
    Some(acc)
}

/// Decimal rendering of a natural number, without leading zeros.
pub open spec fn dec_str(n: nat) -> Seq<char>
    decreases n,
{
    if n < 10 {
        seq![digit_char(n)]
    } else {
        dec_str(n / 10) + seq![digit_char(n % 10)]
    }
}

/// The digit character for a value below ten.
pub open spec fn digit_char(n: nat) -> char {
    if n == 0 {
        '0'
    } else if n == 1 {
        '1'
    } else if n == 2 {
        '2'
    } else if n == 3 {
        '3'
    } else if n == 4 {
        '4'
    } else if n == 5 {
        '5'
    } else if n == 6 {
        '6'
    } else if n == 7 {
        '7'
    } else if n == 8 {
        '8'
    } else {
        '9'
    }
}

/// One digit as a borrowed string.
fn digit_str(d: usize) -> (r: &'static str)
    requires
        d < 10,
    ensures
        r@ == seq![digit_char(d as nat)],
{
    proof {
        reveal_strlit("0");
        reveal_strlit("1");
        reveal_strlit("2");
        reveal_strlit("3");
        reveal_strlit("4");
        reveal_strlit("5");
        reveal_strlit("6");
        reveal_strlit("7");
        reveal_strlit("8");
        reveal_strlit("9");
    }
    let r = match d {
        0 => "0",
        1 => "1",
        2 => "2",
        3 => "3",
        4 => "4",
        5 => "5",
        6 => "6",
        7 => "7",
        8 => "8",
        _ => "9",
    };
    proof {
        assert(r@ =~= seq![digit_char(d as nat)]);
    }
    r
}

/// Render `n` in decimal, exactly as [`dec_str`] describes.
pub fn usize_to_string(n: usize) -> (r: String)
    ensures
        r@ == dec_str(n as nat),
    decreases n,
{
    if n < 10 {
        let mut s = String::new();
        s.append(digit_str(n));
        proof {
            assert(s@ =~= dec_str(n as nat));
        }
        s
    } else {
        let mut s = usize_to_string(n / 10);
        s.append(digit_str(n % 10));
        proof {
            assert(s@ =~= dec_str(n as nat));
        }
        s
    }
}

// ---------------------------------------------------------------------------
// Tokenizing
// ---------------------------------------------------------------------------

/// Index of the first space in `s`, or `s.len()` when there is none.
pub open spec fn first_space(s: Seq<char>) -> int
    decreases s.len(),
{
    if s.len() == 0 {
        0
    } else if s[0] == ' ' {
        0
    } else {
        1 + first_space(s.skip(1))
    }
}

pub proof fn lemma_first_space(s: Seq<char>)
    ensures
        0 <= first_space(s) <= s.len(),
        forall|j: int| 0 <= j < first_space(s) ==> s[j] != ' ',
        first_space(s) < s.len() ==> s[first_space(s)] == ' ',
    decreases s.len(),
{
    if s.len() == 0 {
    } else if s[0] == ' ' {
    } else {
        lemma_first_space(s.skip(1));
        assert forall|j: int| 0 <= j < first_space(s) implies s[j] != ' ' by {
            if j > 0 {
                assert(s.skip(1)[j - 1] != ' ');
            }
        }
    }
}

/// The one index that looks like the first space really is it.
proof fn lemma_first_space_is(s: Seq<char>, i: int)
    requires
        0 <= i <= s.len(),
        forall|j: int| 0 <= j < i ==> s[j] != ' ',
        i < s.len() ==> s[i] == ' ',
    ensures
        first_space(s) == i,
    decreases s.len(),
{
    if s.len() == 0 {
    } else if s[0] == ' ' {
        assert(i == 0);
    } else {
        assert forall|j: int| 0 <= j < i - 1 implies s.skip(1)[j] != ' ' by {
            assert(s[j + 1] != ' ');
        }
        lemma_first_space_is(s.skip(1), i - 1);
    }
}

/// The words of `s`: maximal runs of non-space characters, in order,
/// with all spaces discarded.
pub open spec fn tokens_of(s: Seq<char>) -> Seq<Seq<char>>
    decreases s.len(),
    via tokens_of_dec
{
    if s.len() == 0 {
        Seq::empty()
    } else if s[0] == ' ' {
        tokens_of(s.skip(1))
    } else {
        seq![s.take(first_space(s))] + tokens_of(s.skip(first_space(s)))
    }
}

#[via_fn]
proof fn tokens_of_dec(s: Seq<char>) {
    if s.len() > 0 && s[0] != ' ' {
        lemma_first_space(s);
    }
}

fn find_first_space(s: &str) -> (r: usize)
    ensures
        r as int == first_space(s@),
{
    let n = s.unicode_len();
    let mut i: usize = 0;
    while i < n
        invariant
            0 <= i <= n == s@.len(),
            forall|j: int| 0 <= j < i ==> s@[j] != ' ',
        decreases n - i,
    {
        if s.get_char(i) == ' ' {
            proof {
                lemma_first_space_is(s@, i as int);
            }
            return i;
        }
        i = i + 1;
    }
    proof {
        lemma_first_space_is(s@, n as int);
    }
    n
}

/// Split `s` into its space-separated words, exactly as [`tokens_of`] describes.
pub fn split_tokens(s: &str) -> (r: Vec<String>)
    ensures
        r.deep_view() == tokens_of(s@),
    decreases s@.len(),
{
    let n = s.unicode_len();
    if n == 0 {
        let r: Vec<String> = Vec::new();
        proof {
            assert(r.deep_view() =~= tokens_of(s@));
        }
        r
    } else if s.get_char(0) == ' ' {
        let rest = s.substring_char(1, n);
        let r = split_tokens(rest);
        proof {
            assert(rest@ =~= s@.skip(1));
        }
        r
    } else {
        let e = find_first_space(s);
        proof {
            lemma_first_space(s@);
        }
        let tok = s.substring_char(0, e);
        let rest = s.substring_char(e, n);
        let tail = split_tokens(rest);
        let mut r = tail;
        r.insert(0, tok.to_owned());
        proof {
            assert(rest@ =~= s@.skip(e as int));
            assert(tok@ =~= s@.take(first_space(s@)));
            assert(r.deep_view() =~= tokens_of(s@));
        }
        r
    }
}

// ---------------------------------------------------------------------------
// Byte-stuffing
// ---------------------------------------------------------------------------

/// Transmit form of multi-line data: every line that begins with `.` gets a
/// second `.` prepended, so that no data line reads as the terminator.
/// `at_start` says whether the first character of `s` begins a line.
pub open spec fn stuff_from(s: Seq<char>, at_start: bool) -> Seq<char>
    decreases s.len(),
{
    if s.len() == 0 {
        Seq::empty()
    } else {
        let head: Seq<char> = if at_start && s[0] == '.' {
            seq!['.', '.']
        } else {
            seq![s[0]]
        };
        head + stuff_from(s.skip(1), s[0] == '\n')
    }
}

/// Byte-stuffing of a whole body.
pub open spec fn stuff_text(s: Seq<char>) -> Seq<char> {
    stuff_from(s, true)
}

/// Receive form: one leading `.` of every stuffed line is stripped again.
pub open spec fn unstuff_from(s: Seq<char>, at_start: bool) -> Seq<char>
    decreases s.len(),
{
    if s.len() == 0 {
        Seq::empty()
    } else if at_start && s[0] == '.' {
        unstuff_from(s.skip(1), false)
    } else {
        seq![s[0]] + unstuff_from(s.skip(1), s[0] == '\n')
    }
}

/// Unstuffing of a whole body.
pub open spec fn unstuff_text(s: Seq<char>) -> Seq<char> {
    unstuff_from(s, true)
}

/// Byte-stuffing round-trip: whatever body is stuffed for transmission is
/// recovered exactly by the receiving unstuff pass.
pub proof fn lemma_stuff_roundtrip(s: Seq<char>, at_start: bool)
    ensures
        unstuff_from(stuff_from(s, at_start), at_start) == s,
    decreases s.len(),
{
    if s.len() == 0 {
        assert(unstuff_from(stuff_from(s, at_start), at_start) =~= s);
    } else {
        let rest = stuff_from(s.skip(1), s[0] == '\n');
        lemma_stuff_roundtrip(s.skip(1), s[0] == '\n');
        if at_start && s[0] == '.' {
            assert(stuff_from(s, at_start) =~= seq!['.', '.'] + rest);
            assert((seq!['.', '.'] + rest).skip(1) =~= seq!['.'] + rest);
            assert((seq!['.'] + rest).skip(1) =~= rest);
            assert(unstuff_from(seq!['.'] + rest, false) =~= seq!['.'] + unstuff_from(rest, false));
            assert(unstuff_from(stuff_from(s, at_start), at_start) =~= s);
        } else {
            assert(stuff_from(s, at_start) =~= seq![s[0]] + rest);
            assert((seq![s[0]] + rest).skip(1) =~= rest);
            assert(unstuff_from(stuff_from(s, at_start), at_start) =~= s);
        }
    }
}

/// Stuff a body for transmission, exactly as [`stuff_text`] describes.
pub fn stuff(s: &str) -> (r: String)
    ensures
        r@ == stuff_text(s@),
{
    let n = s.unicode_len();
    let mut out = String::new();
    let mut at_start: bool = true;
    let mut i: usize = 0;
    proof {
        assert(s@.skip(0) =~= s@);
    }
    while i < n
        invariant
            0 <= i <= n == s@.len(),
            stuff_text(s@) == out@ + stuff_from(s@.skip(i as int), at_start),
        decreases n - i,
    {
        let ghost pre = out@;
        let c = s.get_char(i);
        if at_start && c == '.' {
            out.append(".");
        }
        let cs = s.substring_char(i, i + 1);
        out.append(cs);
        proof {
            reveal_strlit(".");
            assert(s@.skip(i as int)[0] == s@[i as int]);
            assert(s@.skip(i as int).skip(1) =~= s@.skip(i + 1));
            assert(cs@ =~= seq![s@[i as int]]);
            if at_start && c == '.' {
                assert(out@ =~= pre + seq!['.', '.']);
            } else {
                assert(out@ =~= pre + seq![s@[i as int]]);
            }
            assert(stuff_text(s@) == out@ + stuff_from(s@.skip(i + 1), c == '\n'));
        }
        at_start = c == '\n';
        i = i + 1;
    }
    proof {
        assert(stuff_from(s@.skip(n as int), at_start) =~= Seq::<char>::empty());
        assert(out@ =~= stuff_text(s@));
    }
    out
}

/// Strip the stuffing from received multi-line data, exactly as
/// [`unstuff_text`] describes.
pub fn unstuff(s: &str) -> (r: String)
    ensures
        r@ == unstuff_text(s@),
{
    let n = s.unicode_len();
    let mut out = String::new();
    let mut at_start: bool = true;
    let mut i: usize = 0;
    proof {
        assert(s@.skip(0) =~= s@);
    }
    while i < n
        invariant
            0 <= i <= n == s@.len(),
            unstuff_text(s@) == out@ + unstuff_from(s@.skip(i as int), at_start),
        decreases n - i,
    {
        let ghost pre = out@;
        let c = s.get_char(i);
        proof {
            assert(s@.skip(i as int)[0] == s@[i as int]);
            assert(s@.skip(i as int).skip(1) =~= s@.skip(i + 1));
        }
        if at_start && c == '.' {
            at_start = false;
        } else {
            let cs = s.substring_char(i, i + 1);
            out.append(cs);
            proof {
                assert(cs@ =~= seq![s@[i as int]]);
                assert(out@ =~= pre + seq![s@[i as int]]);
            }
            at_start = c == '\n';
        }
        proof {
            assert(unstuff_text(s@) == out@ + unstuff_from(s@.skip(i + 1), at_start));
        }
        i = i + 1;
    }
    proof {
        assert(unstuff_from(s@.skip(n as int), at_start) =~= Seq::<char>::empty());
        assert(out@ =~= unstuff_text(s@));
    }
    out
}

// ---------------------------------------------------------------------------
// Words on the wire
// ---------------------------------------------------------------------------

/// A word fit for one line: non-empty and free of spaces.
pub open spec fn token_wf(t: Seq<char>) -> bool {
    t.len() > 0 && forall|i: int| 0 <= i < t.len() ==> t[i] != ' '
}

/// A single word tokenizes to itself.
pub proof fn lemma_tokens_single(a: Seq<char>)
    requires
        token_wf(a),
    ensures
        tokens_of(a) == seq![a],
{
    assert(a[0] != ' ');
    lemma_first_space_is(a, a.len() as int);
    assert(a.take(a.len() as int) =~= a);
    assert(a.skip(a.len() as int) =~= Seq::<char>::empty());
    assert(tokens_of(Seq::<char>::empty()) =~= Seq::<Seq<char>>::empty());
    assert(tokens_of(a) == seq![a.take(first_space(a))] + tokens_of(a.skip(first_space(a))));
    assert(tokens_of(a) =~= seq![a]);
}

/// Two words joined by one space tokenize to exactly those words.
pub proof fn lemma_tokens_pair(a: Seq<char>, b: Seq<char>)
    requires
        token_wf(a),
        token_wf(b),
    ensures
        tokens_of(a + seq![' '] + b) == seq![a, b],
{
    let s = a + seq![' '] + b;
    assert forall|j: int| 0 <= j < a.len() implies s[j] != ' ' by {
        assert(s[j] == a[j]);
    }
    assert(s[a.len() as int] == ' ');
    assert(s[0] == a[0] && a[0] != ' ');
    lemma_first_space_is(s, a.len() as int);
    assert(s.take(a.len() as int) =~= a);
    assert(s.skip(a.len() as int) =~= seq![' '] + b);
    assert(tokens_of(s) == seq![s.take(first_space(s))] + tokens_of(s.skip(first_space(s))));
    assert((seq![' '] + b)[0] == ' ');
    assert((seq![' '] + b).skip(1) =~= b);
    assert(tokens_of(seq![' '] + b) == tokens_of(b));
    lemma_tokens_single(b);
    assert(tokens_of(s) =~= seq![a, b]);
}

/// Three words joined by single spaces tokenize to exactly those words.
pub proof fn lemma_tokens_triple(a: Seq<char>, b: Seq<char>, c: Seq<char>)
    requires
        token_wf(a),
        token_wf(b),
        token_wf(c),
    ensures
        tokens_of(a + seq![' '] + b + seq![' '] + c) == seq![a, b, c],
{
    let rest = b + seq![' '] + c;
    let s = a + seq![' '] + b + seq![' '] + c;
    assert(s =~= a + seq![' '] + rest);
    assert forall|j: int| 0 <= j < a.len() implies s[j] != ' ' by {
        assert(s[j] == a[j]);
    }
    assert(s[a.len() as int] == ' ');
    assert(s[0] == a[0] && a[0] != ' ');
    lemma_first_space_is(s, a.len() as int);
    assert(s.take(a.len() as int) =~= a);
    assert(s.skip(a.len() as int) =~= seq![' '] + rest);
    assert(tokens_of(s) == seq![s.take(first_space(s))] + tokens_of(s.skip(first_space(s))));
    assert((seq![' '] + rest)[0] == ' ');
    assert((seq![' '] + rest).skip(1) =~= rest);
    assert(tokens_of(seq![' '] + rest) == tokens_of(rest));
    lemma_tokens_pair(b, c);
    assert(tokens_of(s) =~= seq![a, b, c]);
}

/// A rendered number is a non-empty run of digits reading back to the
/// number itself.
pub proof fn lemma_dec_str_digits(n: nat)
    ensures
        all_digits(dec_str(n)),
        dec_str(n).len() >= 1,
        dec_val(dec_str(n)) == n,
    decreases n,
{
    if n < 10 {
        let s = seq![digit_char(n)];
        assert(dec_str(n) == s);
        assert(is_digit(digit_char(n)));
        assert(s.drop_last() =~= Seq::<char>::empty());
        assert(dec_val(Seq::<char>::empty()) == 0);
        assert(s.last() == digit_char(n));
        assert(dec_val(s) == dec_val(s.drop_last()) * 10 + digit_val(s.last()));
        assert(digit_val(digit_char(n)) == n);
    } else {
        lemma_dec_str_digits(n / 10);
        let s = dec_str(n);
        assert(s =~= dec_str(n / 10) + seq![digit_char(n % 10)]);
        assert(s.drop_last() =~= dec_str(n / 10));
        assert(s.last() == digit_char(n % 10));
        assert(digit_val(digit_char(n % 10)) == n % 10);
        assert(dec_val(s) == dec_val(dec_str(n / 10)) * 10 + n % 10);
        assert((n / 10) * 10 + n % 10 == n) by {
            vstd::arithmetic::div_mod::lemma_fundamental_div_mod(n as int, 10);
        }
        assert forall|i: int| 0 <= i < s.len() implies is_digit(s[i]) by {
            if i < s.len() - 1 {
                assert(s[i] == dec_str(n / 10)[i]);
            } else {
                assert(s[i] == digit_char(n % 10));
            }
        }
    }
}

/// A rendered number is a word the decoder reads back as that number.
pub proof fn lemma_num_of_dec_str(n: nat)
    requires
        n <= usize::MAX,
    ensures
        num_of(dec_str(n)) == Some(n),
        token_wf(dec_str(n)),
{
    lemma_dec_str_digits(n);
    assert forall|i: int| 0 <= i < dec_str(n).len() implies dec_str(n)[i] != ' ' by {
        assert(is_digit(dec_str(n)[i]));
    }
}

// ---------------------------------------------------------------------------
// Lines: the TOP command's view of a message
// ---------------------------------------------------------------------------

/// Length of the first line of `s`, counting its terminating line feed;
/// the whole of `s` when it holds no line feed.
pub open spec fn first_line_len(s: Seq<char>) -> int
    decreases s.len(),
{
    if s.len() == 0 {
        0
    } else if s[0] == '\n' {
        1
    } else {
        1 + first_line_len(s.skip(1))
    }
}

/// `first_line_len` is exactly one past the first line feed found by a
/// forward scan, or the whole length without one.
proof fn lemma_first_line_is(s: Seq<char>, i: int)
    requires
        0 <= i <= s.len(),
        forall|j: int| 0 <= j < i ==> s[j] != '\n',
        i < s.len() ==> s[i] == '\n',
    ensures
        first_line_len(s) == if i == s.len() {
            i
        } else {
            i + 1
        },
    decreases s.len(),
{
    if s.len() == 0 {
    } else if s[0] == '\n' {
        assert(i == 0);
    } else {
        assert forall|j: int| 0 <= j < i - 1 implies s.skip(1)[j] != '\n' by {
            assert(s[j + 1] != '\n');
        }
        lemma_first_line_is(s.skip(1), i - 1);
    }
}

/// The first `n` lines of `s`; all of it when it has fewer.
pub open spec fn take_lines(s: Seq<char>, n: nat) -> Seq<char>
    decreases n,
{
    if n == 0 || s.len() == 0 {
        Seq::empty()
    } else {
        s.take(first_line_len(s)) + take_lines(s.skip(first_line_len(s)), (n - 1) as nat)
    }
}

fn first_line_end(s: &str) -> (r: usize)
    ensures
        r as int == first_line_len(s@),
        r <= s@.len(),
        s@.len() > 0 ==> r >= 1,
{
    let n = s.unicode_len();
    let mut i: usize = 0;
    while i < n
        invariant
            0 <= i <= n == s@.len(),
            forall|j: int| 0 <= j < i ==> s@[j] != '\n',
        decreases n - i,
    {
        if s.get_char(i) == '\n' {
            proof {
                lemma_first_line_is(s@, i as int);
            }
            return i + 1;
        }
        i = i + 1;
    }
    proof {
        lemma_first_line_is(s@, n as int);
    }
    n
}

/// The first `n` lines of `s`, exactly as [`take_lines`] describes.
pub fn take_lines_exec(s: &str, n: usize) -> (r: String)
    ensures
        r@ == take_lines(s@, n as nat),
    decreases n,
{
    if n == 0 {
        return String::new();
    }
    let len = s.unicode_len();
    if len == 0 {
        return String::new();
    }
    let e = first_line_end(s);
    let head = s.substring_char(0, e);
    let rest = s.substring_char(e, len);
    let mut out = head.to_owned();
    let tail = take_lines_exec(rest, n - 1);
    out.append(tail.as_str());
    proof {
        assert(head@ =~= s@.take(first_line_len(s@)));
        assert(rest@ =~= s@.skip(first_line_len(s@)));
        assert(out@ =~= take_lines(s@, n as nat));
    }
    out
}

/// Is `s` a blank line boundary at `j`: CRLF immediately followed by CRLF?
pub open spec fn blank_at(s: Seq<char>, j: int) -> bool {
    &&& 0 <= j && j + 4 <= s.len()
    &&& s[j] == '\r'
    &&& s[j + 1] == '\n'
    &&& s[j + 2] == '\r'
    &&& s[j + 3] == '\n'
}

/// Length of the header section of a message: everything up to and
/// including the first blank line; the whole message without one.
pub open spec fn header_len(s: Seq<char>) -> int
    decreases s.len(),
{
    if s.len() < 4 {
        s.len() as int
    } else if s[0] == '\r' && s[1] == '\n' && s[2] == '\r' && s[3] == '\n' {
        4
    } else {
        1 + header_len(s.skip(1))
    }
}

/// `header_len` is exactly what a forward scan for the first blank line
/// finds.
proof fn lemma_header_len_is(s: Seq<char>, i: int)
    requires
        0 <= i <= s.len(),
        forall|j: int| 0 <= j < i ==> !blank_at(s, j),
        blank_at(s, i) || i + 4 > s.len(),
    ensures
        header_len(s) == if blank_at(s, i) {
            i + 4
        } else {
            s.len() as int
        },
    decreases s.len(),
{
    if s.len() < 4 {
    } else if s[0] == '\r' && s[1] == '\n' && s[2] == '\r' && s[3] == '\n' {
        assert(blank_at(s, 0));
        assert(i == 0);
    } else {
        assert(!blank_at(s, 0));
        assert(i >= 1) by {
            if i == 0 {
                assert(blank_at(s, 0) || 4 > s.len());
            }
        }
        assert forall|j: int| 0 <= j < i - 1 implies !blank_at(s.skip(1), j) by {
            assert(!blank_at(s, j + 1));
            if blank_at(s.skip(1), j) {
                assert(s[j + 1] == '\r' && s[j + 2] == '\n' && s[j + 3] == '\r' && s[j + 4]
                    == '\n');
            }
        }
        if blank_at(s, i) {
            assert(blank_at(s.skip(1), i - 1));
        } else {
            assert(!blank_at(s.skip(1), i - 1));
        }
        lemma_header_len_is(s.skip(1), i - 1);
    }
}

fn header_split(s: &str) -> (r: usize)
    ensures
        r as int == header_len(s@),
        r <= s@.len(),
{
    let n = s.unicode_len();
    if n < 4 {
        proof {
            lemma_header_len_is(s@, 0);
        }
        return n;
    }
    let mut i: usize = 0;
    while i <= n - 4
        invariant
            4 <= n == s@.len(),
            0 <= i <= n,
            forall|j: int| 0 <= j < i ==> !blank_at(s@, j),
        decreases n - i,
    {
        if s.get_char(i) == '\r' && s.get_char(i + 1) == '\n' && s.get_char(i + 2) == '\r'
            && s.get_char(i + 3) == '\n' {
            proof {
                assert(blank_at(s@, i as int));
                lemma_header_len_is(s@, i as int);
            }
            return i + 4;
        }
        proof {
            assert(!blank_at(s@, i as int));
        }
        i = i + 1;
    }
    proof {
        lemma_header_len_is(s@, i as int);
    }
    n
}

/// The headers, the blank separator line, and the first `n` lines of the
/// body of a message.
pub open spec fn top_text(s: Seq<char>, n: nat) -> Seq<char> {
    s.take(header_len(s)) + take_lines(s.skip(header_len(s)), n)
}

/// What TOP sends of a message, exactly as [`top_text`] describes: the
/// whole message when the body has no more than `n` lines.
pub fn top_of(s: &str, n: usize) -> (r: String)
    ensures
        r@ == top_text(s@, n as nat),
{
    let len = s.unicode_len();
    let h = header_split(s);
    let head = s.substring_char(0, h);
    let rest = s.substring_char(h, len);
    let tail = take_lines_exec(rest, n);
    let mut out = head.to_owned();
    out.append(tail.as_str());
    proof {
        assert(head@ =~= s@.take(header_len(s@)));
        assert(rest@ =~= s@.skip(header_len(s@)));
        assert(out@ =~= top_text(s@, n as nat));
    }
    out
}

// ---------------------------------------------------------------------------
// String comparison
// ---------------------------------------------------------------------------

/// Character-for-character equality of two string slices.
pub fn str_eq(a: &str, b: &str) -> (r: bool)
    ensures
        r == (a@ == b@),
{
    let na = a.unicode_len();
    let nb = b.unicode_len();
    if na != nb {
        return false;
    }
    let mut i: usize = 0;
    while i < na
        invariant
            na == a@.len() == b@.len(),
            0 <= i <= na,
            forall|j: int| 0 <= j < i ==> a@[j] == b@[j],
        decreases na - i,
    {
        if a.get_char(i) != b.get_char(i) {
            return false;
        }
        i = i + 1;
    }
    proof {
        assert(a@ =~= b@);
    }
    true
}

} // verus!
