//! Character-level text routines: whitespace, trimming, line splitting,
//! substring search and number formatting.
//!
//! Every routine works on a sequence of Unicode scalar values and is
//! specified by a function over `Seq<char>`.
use crate::seqs::{lemma_position, position, run_to, views};
use vstd::prelude::*;

verus! {

/// Whether `c` has the Unicode `White_Space` property.
pub open spec fn is_whitespace(c: char) -> bool {
    let n = c as u32;
    ||| 0x09 <= n <= 0x0D
    ||| n == 0x20
    ||| n == 0x85
    ||| n == 0xA0
    ||| n == 0x1680
    ||| 0x2000 <= n <= 0x200A
    ||| n == 0x2028
    ||| n == 0x2029
    ||| n == 0x202F
    ||| n == 0x205F
    ||| n == 0x3000
}

/// Index of the first character at or after `from` that is not whitespace,
/// or the length of `s` when there is none.
pub open spec fn first_non_whitespace(s: Seq<char>, from: int) -> int
    decreases s.len() - from,
{
    if from < 0 || from >= s.len() || !is_whitespace(s[from]) {
        from
    } else {
        first_non_whitespace(s, from + 1)
    }
}

/// End of the longest prefix of `s.take(to)` that does not end in whitespace.
pub open spec fn last_non_whitespace_end(s: Seq<char>, to: int) -> int
    decreases to,
{
    if to <= 0 || to > s.len() || !is_whitespace(s[to - 1]) {
        to
    } else {
        last_non_whitespace_end(s, to - 1)
    }
}

/// `s` without its leading whitespace.
pub open spec fn trim_start(s: Seq<char>) -> Seq<char> {
    s.skip(first_non_whitespace(s, 0))
}

/// `s` without its trailing whitespace.
pub open spec fn trim_end(s: Seq<char>) -> Seq<char> {
    s.take(last_non_whitespace_end(s, s.len() as int))
}

/// `s` without leading and trailing whitespace.
pub open spec fn trim(s: Seq<char>) -> Seq<char> {
    trim_end(trim_start(s))
}

/// Index of the first character at or after `from` that differs from `c`,
/// or the length of `s` when there is none.
pub open spec fn first_other_than(s: Seq<char>, c: char, from: int) -> int
    decreases s.len() - from,
{
    if from < 0 || from >= s.len() || s[from] != c {
        from
    } else {
        first_other_than(s, c, from + 1)
    }
}

/// `s` without its leading run of `c`.
pub open spec fn trim_start_matches(s: Seq<char>, c: char) -> Seq<char> {
    s.skip(first_other_than(s, c, 0))
}

/// Number of characters from index `from` up to the next `c`, or up to the
/// end of `s` when there is none.
pub open spec fn run_before(s: Seq<char>, c: char, from: int) -> nat
    decreases s.len() - from,
{
    if from < 0 || from >= s.len() || s[from] == c {
        0
    } else {
        1 + run_before(s, c, from + 1)
    }
}

/// Index of the first occurrence of `c` at or after `from`, or the length
/// of `s` when there is none.
pub open spec fn index_of(s: Seq<char>, c: char, from: int) -> int {
    from + run_before(s, c, from)
}

/// The part of `s` before its first `c`; all of `s` when it holds no `c`.
pub open spec fn before_first(s: Seq<char>, c: char) -> Seq<char> {
    s.take(index_of(s, c, 0))
}

/// Whether `pat` occurs in `s` at index `at`.
pub open spec fn matches_at(s: Seq<char>, pat: Seq<char>, at: int) -> bool {
    &&& 0 <= at
    &&& at + pat.len() <= s.len()
    &&& s.subrange(at, at + pat.len()) == pat
}

/// Whether `s` begins with `prefix`.
pub open spec fn starts_with(s: Seq<char>, prefix: Seq<char>) -> bool {
    matches_at(s, prefix, 0)
}

/// Index of the first occurrence of `pat` in `s` at or after `from`.
pub open spec fn find_from(s: Seq<char>, pat: Seq<char>, from: int) -> Option<int>
    decreases s.len() + 1 - from,
{
    if from < 0 || from + pat.len() > s.len() {
        None
    } else if matches_at(s, pat, from) {
        Some(from)
    } else {
        find_from(s, pat, from + 1)
    }
}

/// A line without the carriage return that preceded its line feed.
pub open spec fn strip_carriage_return(line: Seq<char>) -> Seq<char> {
    if line.len() > 0 && line.last() == '\r' {
        line.drop_last()
    } else {
        line
    }
}

/// The lines of `s` that begin at or after `from`.
pub open spec fn lines_from(s: Seq<char>, from: int) -> Seq<Seq<char>>
    decreases s.len() - from,
{
    if from < 0 || from >= s.len() {
        Seq::empty()
    } else {
        let end = index_of(s, '\n', from);
        let raw = s.subrange(from, end);
        if end < s.len() {
            seq![strip_carriage_return(raw)] + lines_from(s, end + 1)
        } else {
            seq![raw]
        }
    }
}

/// The lines of `s`: it is split at every line feed, a carriage return
/// directly before a line feed belongs to the terminator, and a final
/// terminator opens no further line.
pub open spec fn lines(s: Seq<char>) -> Seq<Seq<char>> {
    lines_from(s, 0)
}

/// `parts` joined with `sep` between neighbours.
pub open spec fn join(parts: Seq<Seq<char>>, sep: Seq<char>) -> Seq<char>
    decreases parts.len(),
{
    if parts.len() == 0 {
        Seq::empty()
    } else if parts.len() == 1 {
        parts[0]
    } else {
        join(parts.drop_last(), sep) + sep + parts.last()
    }
}

/// The lower-case form of an ASCII letter; any other character unchanged.
pub open spec fn ascii_lower(c: char) -> char {
    if 'A' <= c <= 'Z' {
        ((c as u8) + 32) as char
    } else {
        c
    }
}

/// Equality of two texts up to the case of ASCII letters.
pub open spec fn eq_ignore_ascii_case(a: Seq<char>, b: Seq<char>) -> bool {
    &&& a.len() == b.len()
    &&& forall|i: int| 0 <= i < a.len() ==> ascii_lower(#[trigger] a[i]) == ascii_lower(b[i])
}

/// Where `find_from` finds `pat`, it occurs there and nowhere earlier.
pub proof fn lemma_find_from_is_first(s: Seq<char>, pat: Seq<char>, from: int)
    requires
        0 <= from,
    ensures
        match find_from(s, pat, from) {
            Some(at) => from <= at && matches_at(s, pat, at) && forall|i: int|
                from <= i < at ==> !matches_at(s, pat, i),
            None => forall|i: int| from <= i ==> !matches_at(s, pat, i),
        },
    decreases s.len() + 1 - from,
{
    if from + pat.len() <= s.len() && !matches_at(s, pat, from) {
        lemma_find_from_is_first(s, pat, from + 1);
    }
}

/// An occurrence of `pat` at `at`, with none from `from` up to there, is
/// what `find_from` finds.
pub proof fn lemma_find_from_at(s: Seq<char>, pat: Seq<char>, from: int, at: int)
    requires
        0 <= from <= at,
        matches_at(s, pat, at),
        forall|i: int| from <= i < at ==> !matches_at(s, pat, i),
    ensures
        find_from(s, pat, from) == Some(at),
    decreases at - from,
{
    if from < at {
        lemma_find_from_at(s, pat, from + 1, at);
    }
}

/// An occurrence of `c` at `at`, with none from `from` up to there, is
/// where `index_of` points; so is the end of a text without `c`.
pub proof fn lemma_index_of_at(s: Seq<char>, c: char, from: int, at: int)
    requires
        0 <= from <= at <= s.len(),
        at < s.len() ==> s[at] == c,
        forall|i: int| from <= i < at ==> s[i] != c,
    ensures
        index_of(s, c, from) == at,
    decreases at - from,
{
    if from < at {
        lemma_index_of_at(s, c, from + 1, at);
    }
}

/// `index_of` stays inside the text and points at `c` or at the end, with
/// no `c` before.
pub proof fn lemma_index_of(s: Seq<char>, c: char, from: int)
    requires
        0 <= from <= s.len(),
    ensures
        from <= index_of(s, c, from) <= s.len(),
        index_of(s, c, from) < s.len() ==> s[index_of(s, c, from)] == c,
        forall|i: int| from <= i < index_of(s, c, from) ==> s[i] != c,
    decreases s.len() - from,
{
    if from < s.len() && s[from] != c {
        lemma_index_of(s, c, from + 1);
        assert(index_of(s, c, from) == index_of(s, c, from + 1));
    }
}

/// The lines of a text after a prefix are the lines of the text alone.
pub proof fn lemma_lines_from_shift(a: Seq<char>, b: Seq<char>, k: int)
    requires
        0 <= k <= b.len(),
    ensures
        lines_from(a + b, a.len() + k) == lines_from(b, k),
    decreases b.len() - k,
{
    let s = a + b;
    let n = a.len() as int;
    if k < b.len() {
        lemma_index_of(b, '\n', k);
        let end = index_of(b, '\n', k);
        assert forall|i: int| n + k <= i < n + end implies s[i] != '\n' by {
            assert(s[i] == b[i - n]);
        }
        if end < b.len() {
            assert(s[n + end] == b[end]);
        }
        lemma_index_of_at(s, '\n', n + k, n + end);
        assert(s.subrange(n + k, n + end) =~= b.subrange(k, end));
        if end < b.len() {
            lemma_lines_from_shift(a, b, end + 1);
        }
    }
}

/// Joining with one part in front puts the part and a separator before
/// the rest, where there is a rest.
pub proof fn lemma_join_prepend(first: Seq<char>, rest: Seq<Seq<char>>, sep: Seq<char>)
    ensures
        join(seq![first] + rest, sep) == if rest.len() == 0 {
            first
        } else {
            first + sep + join(rest, sep)
        },
    decreases rest.len(),
{
    let all = seq![first] + rest;
    if rest.len() == 0 {
        assert(all =~= seq![first]);
    } else if rest.len() == 1 {
        assert(all.drop_last() =~= seq![first]);
        assert(all.last() == rest[0]);
        assert(join(all.drop_last(), sep) == first);
    } else {
        assert(all.drop_last() =~= seq![first] + rest.drop_last());
        assert(all.last() == rest.last());
        lemma_join_prepend(first, rest.drop_last(), sep);
        assert(first + sep + join(rest.drop_last(), sep) + sep + rest.last() =~= first + sep + (
        join(rest.drop_last(), sep) + sep + rest.last()));
    }
}

/// Leading whitespace ends inside the text.
pub proof fn lemma_first_non_whitespace_bounds(s: Seq<char>, from: int)
    requires
        0 <= from <= s.len(),
    ensures
        from <= first_non_whitespace(s, from) <= s.len(),
    decreases s.len() - from,
{
    if from < s.len() && is_whitespace(s[from]) {
        lemma_first_non_whitespace_bounds(s, from + 1);
    }
}

/// Trailing whitespace begins inside the text.
pub proof fn lemma_last_non_whitespace_end_bounds(s: Seq<char>, to: int)
    requires
        0 <= to <= s.len(),
    ensures
        0 <= last_non_whitespace_end(s, to) <= to,
    decreases to,
{
    if to > 0 && is_whitespace(s[to - 1]) {
        lemma_last_non_whitespace_end_bounds(s, to - 1);
    }
}

/// Trimming takes characters away and adds none: a character that a text
/// does not hold, its trimmed form does not hold either.
pub proof fn lemma_trim_keeps_out(s: Seq<char>, c: char)
    requires
        !s.contains(c),
    ensures
        !trim(s).contains(c),
        !trim_start(s).contains(c),
        !trim_end(s).contains(c),
{
    lemma_first_non_whitespace_bounds(s, 0);
    let a = first_non_whitespace(s, 0);
    let head = trim_start(s);
    lemma_last_non_whitespace_end_bounds(head, head.len() as int);
    lemma_last_non_whitespace_end_bounds(s, s.len() as int);
    if head.contains(c) {
        let i = choose|i: int| 0 <= i < head.len() && head[i] == c;
        assert(s[a + i] == c);
    }
    if trim_end(s).contains(c) {
        let i = choose|i: int| 0 <= i < trim_end(s).len() && trim_end(s)[i] == c;
        assert(s[i] == c);
    }
    if trim(s).contains(c) {
        let i = choose|i: int| 0 <= i < trim(s).len() && trim(s)[i] == c;
        assert(head[i] == c);
    }
}

/// What stands before the first `c` holds no `c`, and neither does any
/// beginning of it.
pub proof fn lemma_before_first_keeps_out(s: Seq<char>, c: char, n: int)
    requires
        0 <= n <= before_first(s, c).len(),
    ensures
        !before_first(s, c).contains(c),
        !before_first(s, c).take(n).contains(c),
{
    lemma_index_of(s, c, 0);
    let head = before_first(s, c);
    if head.contains(c) {
        let i = choose|i: int| 0 <= i < head.len() && head[i] == c;
        assert(s[i] == c);
    }
    if head.take(n).contains(c) {
        let i = choose|i: int| 0 <= i < head.take(n).len() && head.take(n)[i] == c;
        assert(head[i] == c);
    }
}

/// A joined text is at least as long as each of its parts.
pub proof fn lemma_join_at_least(parts: Seq<Seq<char>>, sep: Seq<char>, i: int)
    requires
        0 <= i < parts.len(),
    ensures
        join(parts, sep).len() >= parts[i].len(),
    decreases parts.len(),
{
    if parts.len() >= 2 && i < parts.len() - 1 {
        lemma_join_at_least(parts.drop_last(), sep, i);
    }
}

/// Trailing whitespace ends after every character that is none.
pub proof fn lemma_last_non_whitespace_end_after(s: Seq<char>, to: int, k: int)
    requires
        0 <= k < to <= s.len(),
        !is_whitespace(s[k]),
    ensures
        k < last_non_whitespace_end(s, to) <= to,
    decreases to,
{
    if is_whitespace(s[to - 1]) {
        lemma_last_non_whitespace_end_after(s, to - 1, k);
    }
}

/// The characters of a string slice.
pub fn to_chars(s: &str) -> (v: Vec<char>)
    ensures
        v@ == s@,
{
    let mut v: Vec<char> = Vec::new();
    for c in it: s.chars()
        invariant
            v@ == it.seq().take(it.index() as int),
            it.seq() == s@,
    {
        v.push(c);
    }
    v
}

/// `String::from_iter` over the characters of `v`: the string that holds
/// exactly these characters, in order.
#[verifier::external_body]
pub(crate) fn from_chars(v: &Vec<char>) -> (s: String)
    ensures
        s@ == v@,
{
    String::from_iter(v.iter())
}

/// Executable form of [`is_whitespace`].
pub fn char_is_whitespace(c: char) -> (r: bool)
    ensures
        r == is_whitespace(c),
{
    let n: u32 = c as u32;
    (0x09 <= n && n <= 0x0D) || n == 0x20 || n == 0x85 || n == 0xA0 || n == 0x1680 || (0x2000 <= n
        && n <= 0x200A) || n == 0x2028 || n == 0x2029 || n == 0x202F || n == 0x205F || n == 0x3000
}

/// A copy of the characters of `v` from index `from` up to `to`.
pub fn copy_range(v: &Vec<char>, from: usize, to: usize) -> (r: Vec<char>)
    requires
        from <= to <= v@.len(),
    ensures
        r@ == v@.subrange(from as int, to as int),
{
    let mut r: Vec<char> = Vec::new();
    let mut i: usize = from;
    while i < to
        invariant
            from <= i <= to <= v@.len(),
            r@ == v@.subrange(from as int, i as int),
        decreases to - i,
    {
        r.push(v[i]);
        i += 1;
    }
    r
}

/// Appends the characters of `tail` to `buf`.
pub fn push_all(buf: &mut Vec<char>, tail: &Vec<char>)
    ensures
        final(buf)@ == old(buf)@ + tail@,
{
    let mut i: usize = 0;
    while i < tail.len()
        invariant
            i <= tail@.len(),
            buf@ == old(buf)@ + tail@.take(i as int),
        decreases tail@.len() - i,
    {
        buf.push(tail[i]);
        i += 1;
    }
    assert(tail@.take(tail@.len() as int) == tail@);
}

/// Appends the characters of `tail` to `buf`.
pub fn push_str(buf: &mut Vec<char>, tail: &str)
    ensures
        final(buf)@ == old(buf)@ + tail@,
{
    let chars = to_chars(tail);
    push_all(buf, &chars);
}

/// Executable form of [`trim_start`].
pub fn trim_start_chars(v: &Vec<char>) -> (r: Vec<char>)
    ensures
        r@ == trim_start(v@),
{
    let n = v.len();
    let mut i: usize = 0;
    while i < n && char_is_whitespace(v[i])
        invariant
            i <= n == v@.len(),
            first_non_whitespace(v@, 0) == first_non_whitespace(v@, i as int),
        decreases n - i,
    {
        i += 1;
    }
    copy_range(v, i, n)
}

/// Executable form of [`trim_end`].
pub fn trim_end_chars(v: &Vec<char>) -> (r: Vec<char>)
    ensures
        r@ == trim_end(v@),
{
    let n = v.len();
    let mut i: usize = n;
    while i > 0 && char_is_whitespace(v[i - 1])
        invariant
            i <= n == v@.len(),
            last_non_whitespace_end(v@, n as int) == last_non_whitespace_end(v@, i as int),
        decreases i,
    {
        i -= 1;
    }
    copy_range(v, 0, i)
}

/// Executable form of [`trim`].
pub fn trim_chars(v: &Vec<char>) -> (r: Vec<char>)
    ensures
        r@ == trim(v@),
{
    let head = trim_start_chars(v);
    trim_end_chars(&head)
}

/// Executable form of [`trim_start_matches`].
pub fn trim_start_matches_chars(v: &Vec<char>, c: char) -> (r: Vec<char>)
    ensures
        r@ == trim_start_matches(v@, c),
{
    let n = v.len();
    let mut i: usize = 0;
    while i < n && v[i] == c
        invariant
            i <= n == v@.len(),
            first_other_than(v@, c, 0) == first_other_than(v@, c, i as int),
        decreases n - i,
    {
        i += 1;
    }
    copy_range(v, i, n)
}

/// Executable form of [`index_of`].
pub fn index_of_char(v: &Vec<char>, c: char, from: usize) -> (r: usize)
    requires
        from <= v@.len(),
    ensures
        r == index_of(v@, c, from as int),
        from <= r <= v@.len(),
{
    let n = v.len();
    let mut i: usize = from;
    while i < n && v[i] != c
        invariant
            from <= i <= n == v@.len(),
            index_of(v@, c, from as int) == index_of(v@, c, i as int),
        decreases n - i,
    {
        i += 1;
    }
    i
}

/// Executable form of [`matches_at`].
pub fn matches_at_index(v: &Vec<char>, pat: &Vec<char>, at: usize) -> (r: bool)
    ensures
        r == matches_at(v@, pat@, at as int),
{
    let n = v.len();
    let m = pat.len();
    if at > n || m > n - at {
        return false;
    }
    let mut j: usize = 0;
    while j < m
        invariant
            j <= m == pat@.len(),
            at + m <= n == v@.len(),
            forall|k: int| 0 <= k < j ==> v@[at + k] == pat@[k],
        decreases m - j,
    {
        if v[at + j] != pat[j] {
            assert(v@.subrange(at as int, at + m)[j as int] != pat@[j as int]);
            return false;
        }
        j += 1;
    }
    assert(v@.subrange(at as int, at + m) =~= pat@);
    true
}

/// Executable form of [`starts_with`].
pub fn starts_with_chars(v: &Vec<char>, prefix: &Vec<char>) -> (r: bool)
    ensures
        r == starts_with(v@, prefix@),
{
    matches_at_index(v, prefix, 0)
}

/// Executable form of [`find_from`].
pub fn find_chars(v: &Vec<char>, pat: &Vec<char>, from: usize) -> (r: Option<usize>)
    ensures
        match r {
            Some(at) => find_from(v@, pat@, from as int) == Some(at as int),
            None => find_from(v@, pat@, from as int) is None,
        },
{
    let n = v.len();
    let m = pat.len();
    let mut i: usize = from;
    while i <= n && m <= n - i
        invariant
            from <= i,
            n == v@.len(),
            m == pat@.len(),
            find_from(v@, pat@, from as int) == find_from(v@, pat@, i as int),
        decreases n + 1 - i,
    {
        if matches_at_index(v, pat, i) {
            return Some(i);
        }
        if i == n {
            assert(v@.subrange(n as int, n as int) =~= pat@);
            return None;
        }
        i += 1;
    }
    None
}

/// Executable form of [`lines`].
pub fn split_lines(v: &Vec<char>) -> (r: Vec<Vec<char>>)
    ensures
        views(r@) == lines(v@),
{
    let n = v.len();
    let mut out: Vec<Vec<char>> = Vec::new();
    let mut pos: usize = 0;
    assert(views(out@) + lines_from(v@, 0) == lines(v@));
    while pos < n
        invariant
            n == v@.len(),
            pos <= n,
            lines(v@) == views(out@) + lines_from(v@, pos as int),
        decreases n - pos,
    {
        let end = index_of_char(v, '\n', pos);
        let mut line = copy_range(v, pos, end);
        if end < n && line.len() > 0 && line[line.len() - 1] == '\r' {
            let shorter = copy_range(&line, 0, line.len() - 1);
            line = shorter;
        }
        proof {
            assert(views(out@.push(line)) == views(out@).push(line@));
            if end < n {
                assert(lines_from(v@, pos as int) == seq![line@] + lines_from(v@, end + 1));
                assert(views(out@).push(line@) + lines_from(v@, end + 1) == views(out@) + (
                seq![line@] + lines_from(v@, end + 1)));
            } else {
                assert(lines_from(v@, pos as int) == seq![line@]);
                assert(views(out@).push(line@) == views(out@) + seq![line@]);
            }
        }
        out.push(line);
        if end >= n {
            return out;
        }
        pos = end + 1;
    }
    assert(lines_from(v@, pos as int) == Seq::<Seq<char>>::empty());
    out
}

/// Executable form of [`join`].
pub fn join_chars(parts: &Vec<Vec<char>>, sep: &Vec<char>) -> (r: Vec<char>)
    ensures
        r@ == join(views(parts@), sep@),
{
    let mut out: Vec<char> = Vec::new();
    let mut i: usize = 0;
    while i < parts.len()
        invariant
            i <= parts@.len(),
            out@ == join(views(parts@).take(i as int), sep@),
        decreases parts@.len() - i,
    {
        proof {
            let p = views(parts@).take(i + 1);
            assert(p.drop_last() == views(parts@).take(i as int));
            assert(p.last() == parts@[i as int]@);
        }
        if i > 0 {
            push_all(&mut out, sep);
        }
        push_all(&mut out, &parts[i]);
        i += 1;
    }
    assert(views(parts@).take(parts@.len() as int) == views(parts@));
    out
}

/// Executable form of [`ascii_lower`].
pub fn char_ascii_lower(c: char) -> (r: char)
    ensures
        r == ascii_lower(c),
{
    if 'A' <= c && c <= 'Z' {
        ((c as u8) + 32) as char
    } else {
        c
    }
}

/// Executable form of [`eq_ignore_ascii_case`].
pub fn chars_eq_ignore_ascii_case(a: &Vec<char>, b: &Vec<char>) -> (r: bool)
    ensures
        r == eq_ignore_ascii_case(a@, b@),
{
    if a.len() != b.len() {
        return false;
    }
    let mut i: usize = 0;
    while i < a.len()
        invariant
            i <= a@.len() == b@.len(),
            forall|k: int| 0 <= k < i ==> ascii_lower(#[trigger] a@[k]) == ascii_lower(b@[k]),
        decreases a@.len() - i,
    {
        if char_ascii_lower(a[i]) != char_ascii_lower(b[i]) {
            return false;
        }
        i += 1;
    }
    true
}

/// Whether two string slices hold the same text.
pub fn str_eq(a: &str, b: &str) -> (r: bool)
    ensures
        r == (a@ == b@),
{
    let x = to_chars(a);
    let y = to_chars(b);
    chars_eq(&x, &y)
}

/// Whether two texts hold the same characters.
pub fn chars_eq(a: &Vec<char>, b: &Vec<char>) -> (r: bool)
    ensures
        r == (a@ == b@),
{
    if a.len() != b.len() {
        return false;
    }
    let mut i: usize = 0;
    while i < a.len()
        invariant
            i <= a@.len() == b@.len(),
            forall|k: int| 0 <= k < i ==> a@[k] == b@[k],
        decreases a@.len() - i,
    {
        if a[i] != b[i] {
            return false;
        }
        i += 1;
    }
    assert(a@ =~= b@);
    true
}

/// Index of the first string in `v` that holds the text of `s`, or the
/// length of `v` when there is none.
pub fn position_of_text(v: &Vec<String>, s: &str) -> (r: usize)
    ensures
        r == position(views(v@), s@),
        r <= v@.len(),
{
    let n = v.len();
    let mut i: usize = 0;
    while i < n && !str_eq(v[i].as_str(), s)
        invariant
            i <= n == v@.len(),
            run_to(views(v@), s@, 0) == i + run_to(views(v@), s@, i as int),
        decreases n - i,
    {
        i += 1;
    }
    i
}

/// Whether a string in `v` holds the text of `s`.
pub fn contains_text(v: &Vec<String>, s: &str) -> (r: bool)
    ensures
        r == views(v@).contains(s@),
{
    let at = position_of_text(v, s);
    proof {
        lemma_position(views(v@), s@);
    }
    at < v.len()
}

} // verus!
