//! Text helpers shared by the process registry and the log writer.
use vstd::prelude::*;

verus! {

broadcast use vstd::string::group_string_axioms;

/// Number of line feeds in `s`.
pub open spec fn newline_count(s: Seq<char>) -> nat
    decreases s.len(),
{
    if s.len() == 0 {
        0
    } else {
        newline_count(s.drop_last()) + if s.last() == '\n' { 1nat } else { 0nat }
    }
}

/// Line feeds of a concatenation are those of its parts.
pub proof fn lemma_newline_count_concat(a: Seq<char>, b: Seq<char>)
    ensures
        newline_count(a + b) == newline_count(a) + newline_count(b),
    decreases b.len(),
{
    if b.len() == 0 {
        assert(a + b =~= a);
    } else {
        lemma_newline_count_concat(a, b.drop_last());
        assert((a + b).drop_last() =~= a + b.drop_last());
    }
}

/// Extending a prefix by one character adds one line feed exactly when
/// that character is a line feed.
proof fn lemma_newline_count_prefix_step(s: Seq<char>, i: int)
    requires
        0 <= i < s.len(),
    ensures
        newline_count(s.subrange(0, i + 1)) == newline_count(s.subrange(0, i)) + if s[i] == '\n' { 1nat } else { 0nat },
{
    assert(s.subrange(0, i + 1).drop_last() =~= s.subrange(0, i));
}

/// Collects the positions of all line feeds of `s`, in increasing order,
/// together with the number of characters of `s`.
fn newline_positions(s: &str) -> (r: (Vec<usize>, usize))
    ensures
        r.1 == s@.len(),
        r.0.len() == newline_count(s@),
        forall|j: int|
            0 <= j < r.0.len() ==> #[trigger] r.0@[j] < s@.len() && s@[r.0@[j] as int] == '\n'
                && newline_count(s@.subrange(0, r.0@[j] as int)) == j,
{
    let len = s.unicode_len();
    let mut positions: Vec<usize> = Vec::new();
    let mut i: usize = 0;
    for c in it: s.chars()
        invariant
            i == it.index(),
            it.seq() == s@,
            len == s@.len(),
            positions.len() == newline_count(s@.subrange(0, i as int)),
            forall|j: int|
                0 <= j < positions.len() ==> #[trigger] positions@[j] < i && s@[positions@[j] as int]
                    == '\n' && newline_count(s@.subrange(0, positions@[j] as int)) == j,
    {
        proof {
            lemma_newline_count_prefix_step(s@, i as int);
        }
        if c == '\n' {
            positions.push(i);
        }
        i = i + 1;
    }
    assert(s@.subrange(0, i as int) =~= s@);
    (positions, i)
}

/// `start` begins the last `n` lines of `s`: it follows a line feed and
/// what comes after it holds `n - 1` line feeds.
pub open spec fn is_line_tail_start(s: Seq<char>, n: nat, start: int) -> bool {
    &&& 0 < start <= s.len()
    &&& s[start - 1] == '\n'
    &&& newline_count(s.subrange(start, s.len() as int)) == n - 1
}

/// The last `n` lines of `s`: the part after its `n`-th line feed counted
/// from the end; all of `s` when `n` is zero or `s` holds fewer than `n`
/// line feeds.
pub open spec fn last_lines(s: Seq<char>, n: nat) -> Seq<char> {
    if n == 0 || newline_count(s) < n {
        s
    } else {
        s.subrange(choose|start: int| is_line_tail_start(s, n, start), s.len() as int)
    }
}

/// The start of the last `n` lines is unique.
pub proof fn lemma_line_tail_start_unique(s: Seq<char>, n: nat, a: int, b: int)
    requires
        n > 0,
        is_line_tail_start(s, n, a),
        is_line_tail_start(s, n, b),
    ensures
        a == b,
{
    if a < b {
        lemma_line_tail_start_unique_ordered(s, n, a, b);
    } else if b < a {
        lemma_line_tail_start_unique_ordered(s, n, b, a);
    }
}

proof fn lemma_line_tail_start_unique_ordered(s: Seq<char>, n: nat, a: int, b: int)
    requires
        n > 0,
        a < b,
        is_line_tail_start(s, n, b),
    ensures
        !is_line_tail_start(s, n, a),
{
    if 0 < a {
        let len = s.len() as int;
        lemma_newline_count_concat(s.subrange(a, b), s.subrange(b, len));
        assert(s.subrange(a, b) + s.subrange(b, len) =~= s.subrange(a, len));
        lemma_newline_count_concat(s.subrange(a, b - 1), seq!['\n']);
        assert(s.subrange(a, b - 1) + seq!['\n'] =~= s.subrange(a, b));
        assert(seq!['\n'].drop_last() =~= Seq::<char>::empty());
    }
}

/// Where `s` holds at least `n` line feeds, its last `n` lines begin
/// somewhere.
pub proof fn lemma_line_tail_start_exists(s: Seq<char>, n: nat)
    requires
        1 <= n <= newline_count(s),
    ensures
        exists|start: int| is_line_tail_start(s, n, start),
    decreases s.len(),
{
    let len = s.len() as int;
    let d = s.drop_last();
    if s.last() == '\n' && n == 1 {
        assert(s.subrange(len, len) =~= Seq::<char>::empty());
        assert(is_line_tail_start(s, n, len));
    } else {
        let k: nat = if s.last() == '\n' { (n - 1) as nat } else { n };
        lemma_line_tail_start_exists(d, k);
        let start = choose|start: int| is_line_tail_start(d, k, start);
        lemma_newline_count_concat(d.subrange(start, len - 1), seq![s.last()]);
        assert(d.subrange(start, len - 1) + seq![s.last()] =~= s.subrange(start, len));
        assert(seq![s.last()].drop_last() =~= Seq::<char>::empty());
        assert(seq![s.last()].last() == s.last());
        assert(newline_count(Seq::<char>::empty()) == 0);
        assert(newline_count(seq![s.last()]) == newline_count(seq![s.last()].drop_last()) + if s.last() == '\n' { 1nat } else { 0nat });
        assert(newline_count(seq![s.last()]) == if s.last() == '\n' { 1nat } else { 0nat });
        assert(s[start - 1] == d[start - 1]);
        assert(is_line_tail_start(s, n, start));
    }
}

/// A line feed inside `s[a..b]` (its last character) makes it count at
/// least one.
proof fn lemma_count_split_at_line_feed(s: Seq<char>, a: int, b: int)
    requires
        0 <= a < b <= s.len(),
        s[b - 1] == '\n',
    ensures
        newline_count(s.subrange(a, s.len() as int)) >= newline_count(s.subrange(b, s.len() as int)) + 1,
{
    let len = s.len() as int;
    lemma_newline_count_concat(s.subrange(a, b), s.subrange(b, len));
    assert(s.subrange(a, b) + s.subrange(b, len) =~= s.subrange(a, len));
    lemma_newline_count_concat(s.subrange(a, b - 1), seq!['\n']);
    assert(s.subrange(a, b - 1) + seq!['\n'] =~= s.subrange(a, b));
    assert(seq!['\n'].drop_last() =~= Seq::<char>::empty());
}

/// Fewer lines are a tail of more lines, and taking the last `n` lines of
/// the last `n` lines changes nothing.
pub proof fn lemma_last_lines_nested(s: Seq<char>, n: nat, m: nat)
    requires
        1 <= n <= m,
    ensures
        last_lines(s, n).len() <= last_lines(s, m).len(),
        last_lines(s, n) == last_lines(s, m).subrange(
            last_lines(s, m).len() - last_lines(s, n).len(),
            last_lines(s, m).len() as int,
        ),
        last_lines(last_lines(s, n), n) == last_lines(s, n),
{
    let len = s.len() as int;
    let c = newline_count(s);
    assert(s.subrange(0, len) =~= s);
    if c < n {
        assert(s.subrange(0, len) =~= s);
    } else {
        lemma_line_tail_start_exists(s, n);
        let b = choose|start: int| is_line_tail_start(s, n, start);
        let a = if c < m {
            0
        } else {
            lemma_line_tail_start_exists(s, m);
            choose|start: int| is_line_tail_start(s, m, start)
        };
        assert(last_lines(s, m) == s.subrange(a, len));
        if a > b {
            lemma_count_split_at_line_feed(s, b, a);
        }
        assert(a <= b);
        assert(s.subrange(b, len) =~= s.subrange(a, len).subrange(b - a, len - a));
        assert(newline_count(last_lines(s, n)) == n - 1);
    }
}

/// The shape of the last `n` lines: a suffix of `s`; all of `s` when
/// `n` is zero or `s` holds fewer than `n` line feeds; otherwise the part
/// after a line feed, holding exactly `n - 1` line feeds.
pub proof fn lemma_last_lines_shape(s: Seq<char>, n: nat)
    ensures
        last_lines(s, n).len() <= s.len(),
        last_lines(s, n) == s.subrange(s.len() - last_lines(s, n).len(), s.len() as int),
        n == 0 || newline_count(s) < n ==> last_lines(s, n) == s,
        n > 0 && newline_count(s) >= n ==> {
            &&& newline_count(last_lines(s, n)) == n - 1
            &&& last_lines(s, n).len() < s.len()
            &&& s[s.len() - last_lines(s, n).len() - 1] == '\n'
        },
{
    if n == 0 || newline_count(s) < n {
        assert(s.subrange(0, s.len() as int) =~= s);
    } else {
        lemma_line_tail_start_exists(s, n);
        let start = choose|start: int| is_line_tail_start(s, n, start);
        assert(last_lines(s, n) == s.subrange(start, s.len() as int));
    }
}

/// The last `n` lines of `s`: the part of `s` after its `n`-th line feed
/// counted from the end. When `n` is zero or `s` holds fewer than `n`
/// line feeds, all of `s`.
pub fn last_n_lines(s: &str, n: usize) -> (r: &str)
    ensures
        r@ == last_lines(s@, n as nat),
        r@ == s@.subrange(s@.len() - r@.len(), s@.len() as int),
        n == 0 || newline_count(s@) < n ==> r@ == s@,
        n > 0 && newline_count(s@) >= n ==> {
            &&& newline_count(r@) == n - 1
            &&& r@.len() < s@.len()
            &&& s@[s@.len() - r@.len() - 1] == '\n'
        },
{
    if s.is_empty() || n == 0 {
        assert(s@.subrange(0, s@.len() as int) =~= s@);
        return s;
    }
    let (positions, len) = newline_positions(s);
    let k = positions.len();
    if k < n {
        assert(s@.subrange(0, s@.len() as int) =~= s@);
        return s;
    }
    let p = positions[k - n];
    let start = p + 1;
    let r = s.substring_char(start, len);
    proof {
        let j = (k - n) as int;
        assert(positions@[j] == p);
        lemma_newline_count_prefix_step(s@, p as int);
        lemma_newline_count_concat(s@.subrange(0, start as int), r@);
        assert(s@.subrange(0, start as int) + r@ =~= s@);
        assert(is_line_tail_start(s@, n as nat, start as int));
        let c = choose|st: int| is_line_tail_start(s@, n as nat, st);
        lemma_line_tail_start_unique(s@, n as nat, c, start as int);
    }
    r
}

/// The character of the decimal digit `d`.
pub open spec fn digit_char(d: nat) -> char {
    (48 + d) as char
}

/// The decimal representation of `n`, without leading zeros.
pub open spec fn decimal_digits(n: nat) -> Seq<char>
    decreases n,
{
    if n < 10 {
        seq![digit_char(n)]
    } else {
        decimal_digits(n / 10).push(digit_char(n % 10))
    }
}

/// The text of the decimal digit `d`.
fn digit_str(d: u64) -> (r: &'static str)
    requires
        d < 10,
    ensures
        r@ == seq![digit_char(d as nat)],
{
    proof {
        reveal_strlit("0");
        reveal_strlit("1");
        reveal_strlit("2");
        reveal_strlit("3");
        reveal_strlit("4");
        reveal_strlit("5");
        reveal_strlit("6");
        reveal_strlit("7");
        reveal_strlit("8");
        reveal_strlit("9");
    }
    if d == 0 {
        "0"
    } else if d == 1 {
        "1"
    } else if d == 2 {
        "2"
    } else if d == 3 {
        "3"
    } else if d == 4 {
        "4"
    } else if d == 5 {
        "5"
    } else if d == 6 {
        "6"
    } else if d == 7 {
        "7"
    } else if d == 8 {
        "8"
    } else {
        "9"
    }
}

/// The decimal text of `n`, as `format!("{}", n)` writes it.
pub fn decimal_text(n: u64) -> (r: String)
    ensures
        r@ == decimal_digits(n as nat),
    decreases n,
{
    if n < 10 {
        digit_str(n).to_string()
    } else {
        let mut r = decimal_text(n / 10);
        r.append(digit_str(n % 10));
        r
    }
}

/// The decimal representation of the integer `i`, with a leading `-`
/// when it is negative.
pub open spec fn signed_decimal_digits(i: int) -> Seq<char> {
    if i < 0 {
        "-"@ + decimal_digits((-i) as nat)
    } else {
        decimal_digits(i as nat)
    }
}

/// The decimal text of `n`, as `format!("{}", n)` writes it.
pub fn signed_decimal_text(n: i64) -> (r: String)
    ensures
        r@ == signed_decimal_digits(n as int),
{
    if n < 0 {
        let magnitude = (0i128 - n as i128) as u64;
        let mut r = "-".to_string();
        let digits = decimal_text(magnitude);
        r.append(digits.as_str());
        r
    } else {
        decimal_text(n as u64)
    }
}

/// Characters with the Unicode `White_Space` property, the set that
/// `char::is_whitespace` and `str::trim` use.
pub open spec fn is_unicode_whitespace(c: char) -> bool {
    let u = c as u32;
    ||| 0x09 <= u <= 0x0D
    ||| u == 0x20
    ||| u == 0x85
    ||| u == 0xA0
    ||| u == 0x1680
    ||| 0x2000 <= u <= 0x200A
    ||| u == 0x2028
    ||| u == 0x2029
    ||| u == 0x202F
    ||| u == 0x205F
    ||| u == 0x3000
}

/// A text is blank when trimming its white space leaves nothing.
pub open spec fn is_blank(s: Seq<char>) -> bool {
    forall|i: int| 0 <= i < s.len() ==> is_unicode_whitespace(#[trigger] s[i])
}

/// Whether `c` is a Unicode white-space character.
pub fn is_whitespace_char(c: char) -> (r: bool)
    ensures
        r == is_unicode_whitespace(c),
{
    let u = c as u32;
    (0x09 <= u && u <= 0x0D) || u == 0x20 || u == 0x85 || u == 0xA0 || u == 0x1680 || (0x2000 <= u
        && u <= 0x200A) || u == 0x2028 || u == 0x2029 || u == 0x202F || u == 0x205F || u == 0x3000
}

/// Whether `s` is empty once its leading and trailing white space is
/// trimmed, that is, whether every character of `s` is white space.
pub fn is_blank_str(s: &str) -> (r: bool)
    ensures
        r == is_blank(s@),
{
    for c in it: s.chars()
        invariant
            it.seq() == s@,
            forall|j: int| 0 <= j < it.index() ==> is_unicode_whitespace(#[trigger] s@[j]),
    {
        if !is_whitespace_char(c) {
            return false;
        }
    }
    true
}

} // verus!
