//! Text building blocks: decimal numbers, joined lists, `/`-separated paths and `:`-separated
//! identifiers, each as a function on character sequences and its executable counterpart.

use vstd::prelude::*;
use vstd::string::*;

verus! {

/// The character of a decimal digit.
pub open spec fn digit_char(d: nat) -> char
    recommends
        d < 10,
{
    ('0' as u8 + d) as char
}

/// The decimal notation of a natural number, without leading zeros.
pub open spec fn decimal(n: nat) -> Seq<char>
    decreases n,
{
    if n < 10 {
        seq![digit_char(n)]
    } else {
        decimal(n / 10).push(digit_char(n % 10))
    }
}

/// Whether `c` is one of the ten decimal digits.
pub open spec fn is_digit(c: char) -> bool {
    '0' <= c && c <= '9'
}

/// The number that a digit character stands for.
pub open spec fn digit_value(c: char) -> int {
    c as int - '0' as int
}

/// Whether every character of `s` is a decimal digit.
pub open spec fn all_digits(s: Seq<char>) -> bool {
    forall|i: int| 0 <= i < s.len() ==> is_digit(#[trigger] s[i])
}

/// The number that a sequence of digits stands for.
pub open spec fn digits_value(s: Seq<char>) -> int
    decreases s.len(),
{
    if s.len() == 0 {
        0
    } else {
        10 * digits_value(s.drop_last()) + digit_value(s.last())
    }
}

/// The integer that `s` denotes: an optional sign followed by at least one digit.
pub open spec fn parsed_integer(s: Seq<char>) -> Option<int> {
    let signed = s.len() > 0 && (s[0] == '-' || s[0] == '+');
    let digits = if signed {
        s.skip(1)
    } else {
        s
    };
    if digits.len() == 0 || !all_digits(digits) {
        None
    } else if signed && s[0] == '-' {
        Some(-digits_value(digits))
    } else {
        Some(digits_value(digits))
    }
}

/// The elements of `parts`, separated by `separator`.
pub open spec fn joined(parts: Seq<Seq<char>>, separator: Seq<char>) -> Seq<char>
    decreases parts.len(),
{
    if parts.len() == 0 {
        Seq::empty()
    } else if parts.len() == 1 {
        parts[0]
    } else {
        joined(parts.drop_last(), separator) + separator + parts.last()
    }
}

/// The text of an optional string.
pub open spec fn option_text(s: Option<String>) -> Option<Seq<char>> {
    match s {
        Some(s) => Some(s@),
        None => None,
    }
}

/// The texts of a list of strings.
pub open spec fn texts(strings: Seq<String>) -> Seq<Seq<char>> {
    Seq::new(strings.len(), |i: int| strings[i]@)
}

/// The path that `path` denotes when it is resolved against the directory `base`: an absolute
/// `path` stands for itself, a relative one is appended behind a single separator.
pub open spec fn joined_path(base: Seq<char>, path: Seq<char>) -> Seq<char> {
    if path.len() > 0 && path[0] == '/' {
        path
    } else if base.len() == 0 || base.last() == '/' {
        base + path
    } else {
        base.push('/') + path
    }
}

/// The position of the last occurrence of `c` in `s`.
pub open spec fn last_position(s: Seq<char>, c: char) -> Option<int>
    decreases s.len(),
{
    if s.len() == 0 {
        None
    } else if s.last() == c {
        Some(s.len() - 1)
    } else {
        last_position(s.drop_last(), c)
    }
}

/// The part of `s` in front of its last `/`.
pub open spec fn before_last_slash(s: Seq<char>) -> Option<Seq<char>> {
    match last_position(s, '/') {
        Some(p) => Some(s.take(p)),
        None => None,
    }
}

/// How many characters at the beginning of a path stand for the root or for the current directory.
pub open spec fn body_start(path: Seq<char>) -> nat {
    if path.len() > 0 && (path[0] == '/' || (path[0] == '.' && (path.len() == 1 || path[1]
        == '/'))) {
        1
    } else {
        0
    }
}

/// Where the last segment of a path begins, and where what stands in front of it and of its
/// separator ends. The first `start` characters belong to no segment.
pub open spec fn last_segment(path: Seq<char>, start: nat) -> (int, int) {
    match last_position(path, '/') {
        Some(p) if p >= start => (p + 1, p),
        _ => (start as int, start as int),
    }
}

/// A path without empty segments and segments for the current directory at its end.
pub open spec fn trimmed_path(path: Seq<char>, start: nat) -> Seq<char>
    decreases path.len(),
{
    if path.len() <= start {
        path
    } else {
        proof {
            lemma_last_position(path, '/');
        }
        let (from, end) = last_segment(path, start);
        let segment = path.skip(from);
        if segment.len() == 0 || segment == seq!['.'] {
            trimmed_path(path.take(end), start)
        } else {
            path
        }
    }
}

/// The file called `name` next to the file `path`: its last segment is replaced. A path that does
/// not end in the name of a file is the directory that `name` is resolved against.
pub open spec fn sibling_path(path: Seq<char>, name: Seq<char>) -> Seq<char> {
    let start = body_start(path);
    let whole = trimmed_path(path, start);
    let (from, end) = last_segment(whole, start);
    if whole.len() <= start || whole.skip(from) == seq!['.', '.'] {
        joined_path(path, name)
    } else {
        joined_path(trimmed_path(whole.take(end), start), name)
    }
}

/// A found position is in range, holds `c`, and no later position does; without one, `c` does
/// not occur.
pub proof fn lemma_last_position(s: Seq<char>, c: char)
    ensures
        match last_position(s, c) {
            Some(p) => 0 <= p < s.len() && s[p] == c && (forall|i: int|
                p < i < s.len() ==> s[i] != c),
            None => !s.contains(c),
        },
    decreases s.len(),
{
    if s.len() > 0 && s.last() != c {
        lemma_last_position(s.drop_last(), c);
        match last_position(s.drop_last(), c) {
            Some(p) => {
                assert forall|i: int| p < i < s.len() implies s[i] != c by {
                    if i < s.len() - 1 {
                        assert(s.drop_last()[i] != c);
                    }
                }
            },
            None => {
                assert forall|i: int| 0 <= i < s.len() implies s[i] != c by {
                    if i < s.len() - 1 {
                        assert(s.drop_last().contains(s.drop_last()[i]));
                    }
                }
            },
        }
    }
}

/// The position is determined by what `lemma_last_position` says of it.
pub proof fn lemma_last_position_unique(s: Seq<char>, c: char, p: int)
    requires
        0 <= p < s.len(),
        s[p] == c,
        forall|i: int| p < i < s.len() ==> s[i] != c,
    ensures
        last_position(s, c) == Some(p),
{
    lemma_last_position(s, c);
    assert(s.contains(s[p]));
}

/// Joining one more part appends it behind a separator.
pub proof fn lemma_joined_push(parts: Seq<Seq<char>>, separator: Seq<char>, part: Seq<char>)
    ensures
        joined(parts.push(part), separator) == if parts.len() == 0 {
            part
        } else {
            joined(parts, separator) + separator + part
        },
{
    assert(parts.push(part).drop_last() =~= parts);
}

/// The parts of `s` between the occurrences of `c`.
pub open spec fn split(s: Seq<char>, c: char) -> Seq<Seq<char>>
    decreases s.len(),
{
    proof {
        lemma_last_position(s, c);
    }
    match last_position(s, c) {
        Some(p) => split(s.take(p), c).push(s.skip(p + 1)),
        None => seq![s],
    }
}

/// What follows the last occurrence of `c` in `s`, or all of `s` if there is none.
pub open spec fn after_last(s: Seq<char>, c: char) -> Seq<char> {
    match last_position(s, c) {
        Some(p) => s.skip(p + 1),
        None => s,
    }
}

/// A text without `c` has one part, and follows the last `c` where it stands behind one.
pub proof fn lemma_last_part(head: Seq<char>, c: char, tail: Seq<char>)
    requires
        !tail.contains(c),
    ensures
        last_position(tail, c) is None,
        split(tail, c) == seq![tail],
        after_last(tail, c) == tail,
        last_position(head.push(c) + tail, c) == Some(head.len() as int),
        (head.push(c) + tail).take(head.len() as int) == head,
        split(head.push(c) + tail, c) == split(head, c).push(tail),
        after_last(head.push(c) + tail, c) == tail,
{
    lemma_last_position(tail, c);
    if let Some(p) = last_position(tail, c) {
        assert(tail.contains(tail[p]));
    }
    let whole = head.push(c) + tail;
    let p = head.len() as int;
    assert forall|i: int| p < i < whole.len() implies whole[i] != c by {
        assert(whole[i] == tail[i - p - 1]);
        assert(tail.contains(tail[i - p - 1]));
    }
    lemma_last_position_unique(whole, c, p);
    assert(whole.take(p) =~= head);
    assert(whole.skip(p + 1) =~= tail);
}

/// Joined parts can be told apart again: cut at every separator, the text gives the parts back,
/// all of them and in their order.
pub proof fn law_joined_parts_split(parts: Seq<Seq<char>>, c: char)
    requires
        parts.len() > 0,
        forall|i: int| 0 <= i < parts.len() ==> !(#[trigger] parts[i]).contains(c),
    ensures
        split(joined(parts, seq![c]), c) == parts,
    decreases parts.len(),
{
    let last = parts.last();
    assert(!parts[parts.len() - 1].contains(c));
    if parts.len() == 1 {
        lemma_last_part(Seq::empty(), c, last);
        assert(seq![last] =~= parts);
    } else {
        let front = parts.drop_last();
        assert forall|i: int| 0 <= i < front.len() implies !(#[trigger] front[i]).contains(c) by {
            assert(front[i] == parts[i]);
        }
        law_joined_parts_split(front, c);
        let head = joined(front, seq![c]);
        lemma_last_part(head, c, last);
        assert(head + seq![c] + last =~= head.push(c) + last);
        assert(front.push(last) =~= parts);
    }
}

/// The decimal notation of a number consists of digits, is not empty, and denotes the number.
pub proof fn lemma_decimal_denotes(n: nat)
    ensures
        decimal(n).len() > 0,
        all_digits(decimal(n)),
        digits_value(decimal(n)) == n,
    decreases n,
{
    if n < 10 {
        assert(decimal(n).drop_last() =~= Seq::<char>::empty());
        assert(digits_value(decimal(n).drop_last()) == 0);
    } else {
        lemma_decimal_denotes(n / 10);
        assert(decimal(n).drop_last() =~= decimal(n / 10));
    }
}

/// The decimal notation of a number has no leading zeros, and longer notations belong to larger
/// numbers.
pub proof fn law_decimal_shortest(n: nat)
    ensures
        n > 0 ==> decimal(n)[0] != '0',
        n < 10 <==> decimal(n).len() == 1,
        decimal(10 * n).len() == if n == 0 {
            1
        } else {
            decimal(n).len() + 1
        },
    decreases n,
{
    if n >= 10 {
        law_decimal_shortest(n / 10);
        lemma_decimal_denotes(n / 10);
        assert(decimal(n)[0] == decimal(n / 10)[0]);
    }
    if n > 0 {
        assert((10 * n) / 10 == n);
    }
}

/// The decimal notation of a number parses as that number.
pub proof fn lemma_decimal_parses(n: nat)
    ensures
        parsed_integer(decimal(n)) == Some(n as int),
{
    lemma_decimal_denotes(n);
    assert(is_digit(decimal(n)[0]));
}

/// A sign in front of the decimal notation of a number decides on the sign of the integer.
pub proof fn law_signs_parse(n: nat)
    ensures
        parsed_integer(seq!['-'] + decimal(n)) == Some(-(n as int)),
        parsed_integer(seq!['+'] + decimal(n)) == Some(n as int),
        parsed_integer(seq!['-', '-'] + decimal(n)) is None,
{
    lemma_decimal_denotes(n);
    assert((seq!['-'] + decimal(n)).skip(1) =~= decimal(n));
    assert((seq!['+'] + decimal(n)).skip(1) =~= decimal(n));
    let twice = seq!['-', '-'] + decimal(n);
    assert(!is_digit(twice.skip(1)[0]));
}

/// Numbers with the same decimal notation are the same.
pub proof fn lemma_decimal_injective(m: nat, n: nat)
    requires
        decimal(m) == decimal(n),
    ensures
        m == n,
{
    lemma_decimal_denotes(m);
    lemma_decimal_denotes(n);
}

/// More digits denote no smaller a number.
proof fn lemma_digits_value_prefix(s: Seq<char>, k: int)
    requires
        all_digits(s),
        0 <= k <= s.len(),
    ensures
        0 <= digits_value(s.take(k)) <= digits_value(s),
    decreases s.len(),
{
    if s.len() == 0 {
        assert(s.take(k) =~= s);
    } else if k == s.len() {
        assert(s.take(k) =~= s);
        lemma_digits_value_prefix(s.drop_last(), 0);
        assert(s.drop_last().take(0) =~= Seq::<char>::empty());
        assert(is_digit(s.last()));
    } else {
        lemma_digits_value_prefix(s.drop_last(), k);
        assert(s.drop_last().take(k) =~= s.take(k));
        assert(is_digit(s.last()));
    }
}

fn digit_text(d: usize) -> (r: &'static str)
    requires
        d < 10,
    ensures
        r@ == seq![digit_char(d as nat)],
{
    proof {
        reveal_strlit("0");
        reveal_strlit("1");
        reveal_strlit("2");
        reveal_strlit("3");
        reveal_strlit("4");
        reveal_strlit("5");
        reveal_strlit("6");
        reveal_strlit("7");
        reveal_strlit("8");
        reveal_strlit("9");
    }
    let r = match d {
        0 => "0",
        1 => "1",
        2 => "2",
        3 => "3",
        4 => "4",
        5 => "5",
        6 => "6",
        7 => "7",
        8 => "8",
        _ => "9",
    };
    assert(r@ =~= seq![digit_char(d as nat)]);
    r
}

/// Writes `n` in decimal notation.
pub fn decimal_text(n: usize) -> (r: String)
    ensures
        r@ == decimal(n as nat),
    decreases n,
{
    if n < 10 {
        digit_text(n).to_string()
    } else {
        let mut r = decimal_text(n / 10);
        r.append(digit_text(n % 10));
        assert(r@ =~= decimal(n as nat));
        r
    }
}

/// The characters of a text.
pub fn chars_of(s: &str) -> (r: Vec<char>)
    ensures
        r@ == s@,
{
    let mut r: Vec<char> = Vec::new();
    for c in it: s.chars()
        invariant
            r@ == s@.take(it.index() as int),
            it.seq() == s@,
    {
        assert(s@.take(it.index() + 1) =~= s@.take(it.index() as int).push(c));
        r.push(c);
    }
    assert(s@.take(s@.len() as int) =~= s@);
    r
}

/// Copies strings.
pub fn clone_strings(strings: &Vec<String>) -> (r: Vec<String>)
    ensures
        r@ == strings@,
{
    let r = strings.clone();
    assert(r@ =~= strings@);
    r
}

/// Joins the parts with the separator between them.
pub fn join(parts: &Vec<String>, separator: &str) -> (r: String)
    ensures
        r@ == joined(texts(parts@), separator@),
{
    let mut r = String::new();
    let ghost all = texts(parts@);
    for i in 0..parts.len()
        invariant
            all == texts(parts@),
            r@ == joined(all.take(i as int), separator@),
    {
        proof {
            lemma_joined_push(all.take(i as int), separator@, all[i as int]);
            assert(all.take(i + 1) =~= all.take(i as int).push(all[i as int]));
        }
        if i > 0 {
            r.append(separator);
        }
        r.append(parts[i].as_str());
        assert(r@ =~= joined(all.take(i + 1), separator@));
    }
    assert(all.take(parts@.len() as int) =~= all);
    r
}

/// Resolves `path` against the directory `base`.
pub fn join_path(base: &str, path: &str) -> (r: String)
    ensures
        r@ == joined_path(base@, path@),
{
    proof {
        reveal_strlit("/");
    }
    if !path.is_empty() && path.get_char(0) == '/' {
        return path.to_string();
    }
    let mut r = base.to_string();
    let n: usize = base.unicode_len();
    if n > 0 && base.get_char(n - 1) != '/' {
        r.append("/");
        assert(r@ =~= base@.push('/'));
    }
    r.append(path);
    r
}

/// Finds the last occurrence of a character.
pub fn find_last(s: &str, c: char) -> (r: Option<usize>)
    ensures
        match r {
            Some(p) => last_position(s@, c) == Some(p as int),
            None => last_position(s@, c) is None,
        },
        r matches Some(p) ==> p < s@.len(),
{
    let chars = chars_of(s);
    let mut n: usize = chars.len();
    proof {
        lemma_last_position(s@, c);
    }
    while n > 0
        invariant
            n <= chars.len(),
            chars@ == s@,
            forall|i: int| n <= i < s@.len() ==> s@[i] != c,
        decreases n,
    {
        if chars[n - 1] == c {
            proof {
                lemma_last_position_unique(s@, c, n - 1);
            }
            return Some(n - 1);
        }
        n = n - 1;
    }
    None
}

/// Cuts `s` off in front of its last `/`.
pub fn cut_last_slash(s: &str) -> (r: Option<String>)
    ensures
        match r {
            Some(head) => before_last_slash(s@) == Some(head@),
            None => before_last_slash(s@) is None,
        },
{
    match find_last(s, '/') {
        Some(p) => {
            let head = s.substring_char(0, p).to_string();
            assert(s@.subrange(0, p as int) =~= s@.take(p as int));
            Some(head)
        },
        None => None,
    }
}

/// Finds the last segment of the path that the first `len` characters are.
fn find_segment(chars: &Vec<char>, start: usize, len: usize) -> (r: (usize, usize))
    requires
        start < len <= chars@.len(),
    ensures
        last_segment(chars@.take(len as int), start as nat) == (r.0 as int, r.1 as int),
        start <= r.1 <= r.0 <= len,
        r.1 < len,
{
    let ghost path = chars@.take(len as int);
    let mut n: usize = len;
    proof {
        lemma_last_position(path, '/');
    }
    while n > start
        invariant
            start <= n <= len <= chars@.len(),
            path == chars@.take(len as int),
            forall|i: int| n <= i < len ==> path[i] != '/',
        decreases n,
    {
        if chars[n - 1] == '/' {
            proof {
                lemma_last_position_unique(path, '/', n - 1);
            }
            return (n, n - 1);
        }
        n = n - 1;
    }
    (start, start)
}

/// Finds the end of a path without empty segments and segments for the current directory at its
/// end.
fn find_trimmed(chars: &Vec<char>, start: usize, len: usize) -> (r: usize)
    requires
        len <= chars@.len(),
    ensures
        r <= len,
        trimmed_path(chars@.take(len as int), start as nat) == chars@.take(r as int),
{
    let ghost whole = trimmed_path(chars@.take(len as int), start as nat);
    let mut n: usize = len;
    while n > start
        invariant
            n <= len <= chars@.len(),
            whole == trimmed_path(chars@.take(len as int), start as nat),
            trimmed_path(chars@.take(n as int), start as nat) == whole,
        decreases n,
    {
        let (from, end) = find_segment(chars, start, n);
        let ghost path = chars@.take(n as int);
        assert(path.skip(from as int).len() == n - from);
        if from < n && !(from + 1 == n && chars[from] == '.') {
            assert(path.skip(from as int)[0] == chars@[from as int]);
            return n;
        }
        if from < n {
            assert(path.skip(from as int) =~= seq!['.']);
        }
        assert(path.take(end as int) =~= chars@.take(end as int));
        n = end;
    }
    n
}

/// Replaces the file name at the end of `path`.
pub fn sibling(path: &str, name: &str) -> (r: String)
    ensures
        r@ == sibling_path(path@, name@),
{
    let chars = chars_of(path);
    let n: usize = chars.len();
    let start: usize = if n > 0 && (chars[0] == '/' || (chars[0] == '.' && (n == 1 || chars[1]
        == '/'))) {
        1
    } else {
        0
    };
    assert(chars@.take(n as int) =~= path@);
    let whole: usize = find_trimmed(&chars, start, n);
    if whole <= start {
        return join_path(path, name);
    }
    let (from, end) = find_segment(&chars, start, whole);
    let ghost segment = chars@.take(whole as int).skip(from as int);
    if whole - from == 2 && chars[from] == '.' && chars[from + 1] == '.' {
        assert(segment =~= seq!['.', '.']);
        return join_path(path, name);
    }
    assert(segment != seq!['.', '.']) by {
        if segment == seq!['.', '.'] {
            assert(segment.len() == 2 && segment[0] == '.' && segment[1] == '.');
        }
    }
    let parent: usize = find_trimmed(&chars, start, end);
    assert(chars@.take(whole as int).take(end as int) =~= chars@.take(end as int));
    let directory = path.substring_char(0, parent);
    assert(directory@ =~= chars@.take(parent as int));
    join_path(directory, name)
}

/// Parses a signed decimal number that fits into `isize`.
#[verifier::spinoff_prover]
#[verifier::rlimit(40)]
pub fn parse_isize(s: &str) -> (r: Option<isize>)
    ensures
        r == match parsed_integer(s@) {
            Some(v) => if isize::MIN <= v <= isize::MAX {
                Some(v as isize)
            } else {
                None
            },
            None => None,
        },
{
    let chars = chars_of(s);
    let signed = chars.len() > 0 && (chars[0] == '-' || chars[0] == '+');
    let negative = signed && chars[0] == '-';
    let start: usize = if signed {
        1
    } else {
        0
    };
    let ghost digits = if signed {
        s@.skip(1)
    } else {
        s@
    };
    if chars.len() == start {
        return None;
    }
    let mut i: usize = start;
    while i < chars.len()
        invariant
            start <= i <= chars.len(),
            start <= 1,
            chars@ == s@,
            digits == s@.skip(start as int),
            forall|j: int| 0 <= j < i - start ==> is_digit(#[trigger] digits[j]),
            signed == (s@.len() > 0 && (s@[0] == '-' || s@[0] == '+')),
            digits == if signed {
                s@.skip(1)
            } else {
                s@
            },
        decreases chars.len() - i,
    {
        assert(digits[i - start] == chars@[i as int]);
        if !(chars[i] >= '0' && chars[i] <= '9') {
            assert(!is_digit(digits[i - start]));
            return None;
        }
        i = i + 1;
    }
    assert(all_digits(digits));
    let limit: i128 = isize::MAX as i128 + 1;
    let mut value: i128 = 0;
    let mut j: usize = start;
    assert(digits.take(0) =~= Seq::<char>::empty());
    while j < chars.len()
        invariant
            start <= j <= chars.len(),
            start <= 1,
            chars@ == s@,
            digits == s@.skip(start as int),
            all_digits(digits),
            limit == isize::MAX + 1,
            0 <= value <= limit,
            value == digits_value(digits.take(j - start)),
            digits.len() == chars.len() - start,
            digits.len() > 0,
            signed == (s@.len() > 0 && (s@[0] == '-' || s@[0] == '+')),
            negative == (signed && s@[0] == '-'),
            digits == if signed {
                s@.skip(1)
            } else {
                s@
            },
        decreases chars.len() - j,
    {
        let c: char = chars[j];
        assert(is_digit(digits[j - start]));
        let d: i128 = c as u32 as i128 - '0' as u32 as i128;
        let next: i128 = 10 * value + d;
        proof {
            assert(digits.take(j + 1 - start).drop_last() =~= digits.take(j - start));
            lemma_digits_value_prefix(digits, j + 1 - start);
        }
        if next > limit {
            return None;
        }
        value = next;
        j = j + 1;
    }
    assert(digits.take(digits.len() as int) =~= digits);
    if negative {
        Some((-value) as isize)
    } else if value < limit {
        Some(value as isize)
    } else {
        None
    }
}

/// Whether `a` comes before `b` in lexicographic order of the characters' code points.
pub open spec fn precedes(a: Seq<char>, b: Seq<char>) -> bool
    decreases a.len(),
{
    if b.len() == 0 {
        false
    } else if a.len() == 0 {
        true
    } else if a[0] == b[0] {
        precedes(a.skip(1), b.skip(1))
    } else {
        a[0] < b[0]
    }
}

/// No text comes before itself.
pub proof fn lemma_precedes_irreflexive(a: Seq<char>)
    ensures
        !precedes(a, a),
    decreases a.len(),
{
    if a.len() > 0 {
        lemma_precedes_irreflexive(a.skip(1));
    }
}

/// The order is transitive.
pub proof fn lemma_precedes_transitive(a: Seq<char>, b: Seq<char>, c: Seq<char>)
    requires
        precedes(a, b),
        precedes(b, c),
    ensures
        precedes(a, c),
    decreases a.len(),
{
    if a.len() > 0 && a[0] == b[0] && b[0] == c[0] {
        lemma_precedes_transitive(a.skip(1), b.skip(1), c.skip(1));
    }
}

/// Of two different texts one comes before the other.
pub proof fn lemma_precedes_total(a: Seq<char>, b: Seq<char>)
    ensures
        a == b || precedes(a, b) || precedes(b, a),
    decreases a.len(),
{
    if a.len() > 0 && b.len() > 0 && a[0] == b[0] {
        lemma_precedes_total(a.skip(1), b.skip(1));
        if a.skip(1) == b.skip(1) {
            assert(a =~= seq![a[0]] + a.skip(1));
            assert(b =~= seq![b[0]] + b.skip(1));
        }
    } else if a.len() == 0 && b.len() == 0 {
        assert(a =~= b);
    }
}

/// The order is that of the first difference: behind equal beginnings the smaller character comes
/// first, and a text comes before those that it begins.
pub proof fn law_first_difference_orders(
    common: Seq<char>,
    a: char,
    b: char,
    rest_a: Seq<char>,
    rest_b: Seq<char>,
)
    requires
        a < b,
    ensures
        precedes(common.push(a) + rest_a, common.push(b) + rest_b),
        !precedes(common.push(b) + rest_b, common.push(a) + rest_a),
        precedes(common, common.push(a) + rest_a),
        !precedes(common.push(a) + rest_a, common),
    decreases common.len(),
{
    let left = common.push(a) + rest_a;
    let right = common.push(b) + rest_b;
    if common.len() > 0 {
        let tail = common.skip(1);
        law_first_difference_orders(tail, a, b, rest_a, rest_b);
        assert(left.skip(1) =~= tail.push(a) + rest_a);
        assert(right.skip(1) =~= tail.push(b) + rest_b);
        assert(left[0] == common[0] && right[0] == common[0]);
    } else {
        assert(left[0] == a && right[0] == b);
    }
}

/// Tells whether `a` comes before `b`.
pub fn text_precedes(a: &str, b: &str) -> (r: bool)
    ensures
        r == precedes(a@, b@),
{
    let left = chars_of(a);
    let right = chars_of(b);
    let mut i: usize = 0;
    assert(a@.skip(0) =~= a@);
    assert(b@.skip(0) =~= b@);
    while i < left.len() && i < right.len()
        invariant
            left@ == a@,
            right@ == b@,
            i <= left.len(),
            i <= right.len(),
            precedes(a@, b@) == precedes(a@.skip(i as int), b@.skip(i as int)),
        decreases left.len() - i,
    {
        if left[i] != right[i] {
            return left[i] < right[i];
        }
        assert(a@.skip(i as int).skip(1) =~= a@.skip(i + 1));
        assert(b@.skip(i as int).skip(1) =~= b@.skip(i + 1));
        i = i + 1;
    }
    i < right.len()
}

/// What a number means is settled digit by digit: one more digit multiplies it by ten and counts
/// away from zero, anything else makes it no number, and without a digit there is none.
pub proof fn law_digits_extend(s: Seq<char>, c: char)
    ensures
        parsed_integer(Seq::empty()) is None,
        parsed_integer(seq!['-']) is None,
        parsed_integer(seq!['+']) is None,
        s.len() > 0 && !is_digit(c) ==> parsed_integer(s.push(c)) is None,
        is_digit(c) && parsed_integer(s) is Some ==> parsed_integer(s.push(c)) == Some(
            10 * parsed_integer(s)->0 + if s[0] == '-' {
                -digit_value(c)
            } else {
                digit_value(c)
            },
        ),
        is_digit(c) ==> parsed_integer(seq![c]) == Some(digit_value(c)),
{
    assert(seq!['-'].skip(1).len() == 0);
    assert(seq!['+'].skip(1).len() == 0);
    let longer = s.push(c);
    if s.len() > 0 {
        let signed = s[0] == '-' || s[0] == '+';
        let digits = if signed {
            s.skip(1)
        } else {
            s
        };
        let more = digits.push(c);
        assert(longer[0] == s[0]);
        assert(if signed {
            longer.skip(1)
        } else {
            longer
        } =~= more);
        assert(more.last() == c);
        assert(more.drop_last() =~= digits);
        if parsed_integer(s) is Some {
            assert forall|i: int| 0 <= i < more.len() && is_digit(c) implies is_digit(
                #[trigger] more[i],
            ) by {
                if i < digits.len() {
                    assert(is_digit(digits[i]));
                }
            }
        }
        assert(!is_digit(c) ==> !is_digit(more[more.len() - 1]));
    }
    if is_digit(c) {
        assert(seq![c].drop_last() =~= Seq::<char>::empty());
        assert(digits_value(seq![c].drop_last()) == 0);
    }
}

/// A path that begins at the root stands for itself wherever it is resolved; any other one lies
/// below the directory, behind one separator and no more.
pub proof fn law_paths_resolve(base: Seq<char>, path: Seq<char>)
    ensures
        path.len() > 0 && path[0] == '/' ==> joined_path(base, path) == path,
        path.len() == 0 || path[0] != '/' ==> {
            let whole = joined_path(base, path);
            let between = whole.len() - base.len() - path.len();
            &&& 0 <= between <= 1
            &&& whole.take(base.len() as int) == base
            &&& whole.skip(base.len() + between) == path
            &&& between == 1 <==> base.len() > 0 && base.last() != '/'
            &&& between == 1 ==> whole[base.len() as int] == '/'
        },
{
    let whole = joined_path(base, path);
    if path.len() == 0 || path[0] != '/' {
        let between = whole.len() - base.len() - path.len();
        assert(whole.take(base.len() as int) =~= base);
        assert(whole.skip(base.len() + between) =~= path);
    }
}

} // verus!
