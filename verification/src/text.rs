//! Text as sequences of characters: the model every contract in this crate is
//! stated over, and the executable helpers that move between `&str`, `String`
//! and `Vec<char>`.

use vstd::prelude::*;

verus! {

/// Appends one character to a string (`String::push`).
///
/// Trusted: the view of the string afterwards is the view before with `c`
/// added at the end.
#[verifier::external_body]
pub(crate) fn push_char(s: &mut String, c: char)
    ensures
        final(s)@ == old(s)@.push(c),
{
    s.push(c)
}

/// The characters of `s`, in order.
pub fn chars_of(s: &str) -> (v: Vec<char>)
    ensures
        v@ == s@,
{
    let mut v: Vec<char> = Vec::new();
    for c in it: s.chars()
        invariant
            it.seq() == s@,
            v@ == s@.take(it.index() as int),
    {
        v.push(c);
        assert(v@ =~= s@.take(it.index() + 1));
    }
    assert(s@.take(s@.len() as int) =~= s@);
    v
}

/// The string made of the characters of `v`, in order.
pub fn string_of(v: &Vec<char>) -> (s: String)
    ensures
        s@ == v@,
{
    let mut s = String::new();
    let mut i: usize = 0;
    while i < v.len()
        invariant
            i <= v.len(),
            s@ == v@.take(i as int),
        decreases v.len() - i,
    {
        push_char(&mut s, v[i]);
        i += 1;
        assert(s@ =~= v@.take(i as int));
    }
    assert(v@.take(v.len() as int) =~= v@);
    s
}

/// Whether `c` is white space in the Unicode sense: the characters that
/// `str::trim` and `str::split_whitespace` take away.
pub open spec fn is_white_space(c: char) -> bool {
    let u = c as u32;
    ||| 0x09 <= u <= 0x0D
    ||| u == 0x20
    ||| u == 0x85
    ||| u == 0xA0
    ||| u == 0x1680
    ||| 0x2000 <= u <= 0x200A
    ||| u == 0x2028
    ||| u == 0x2029
    ||| u == 0x202F
    ||| u == 0x205F
    ||| u == 0x3000
}

/// Whether `s` begins with `p`.
pub open spec fn has_prefix(s: Seq<char>, p: Seq<char>) -> bool {
    p.len() <= s.len() && s.take(p.len() as int) == p
}

/// Whether `p` stands in `s` at position `i`.
pub open spec fn occurs_at(s: Seq<char>, p: Seq<char>, i: int) -> bool {
    0 <= i && i + p.len() <= s.len() && s.subrange(i, i + p.len()) == p
}

/// Whether `p` stands somewhere in `s`.
pub open spec fn has_infix(s: Seq<char>, p: Seq<char>) -> bool {
    exists|i: int| occurs_at(s, p, i)
}

/// Position of the first `c` in `s`, or the length of `s` where there is none.
pub open spec fn index_of(s: Seq<char>, c: char) -> int
    decreases s.len(),
{
    if s.len() == 0 {
        0
    } else if s[0] == c {
        0
    } else {
        1 + index_of(s.drop_first(), c)
    }
}

/// `s` without its leading white space.
pub open spec fn trim_start(s: Seq<char>) -> Seq<char>
    decreases s.len(),
{
    if s.len() > 0 && is_white_space(s[0]) {
        trim_start(s.drop_first())
    } else {
        s
    }
}

/// `s` without its trailing white space.
pub open spec fn trim_end(s: Seq<char>) -> Seq<char>
    decreases s.len(),
{
    if s.len() > 0 && is_white_space(s.last()) {
        trim_end(s.drop_last())
    } else {
        s
    }
}

/// `s` without white space at either end.
pub open spec fn trim(s: Seq<char>) -> Seq<char> {
    trim_end(trim_start(s))
}

/// `index_of` stays within the sequence, finds `c` where it stops short of the
/// end, and passes over nothing equal to `c`.
pub proof fn lemma_index_of(s: Seq<char>, c: char)
    ensures
        0 <= index_of(s, c) <= s.len(),
        index_of(s, c) < s.len() ==> s[index_of(s, c)] == c,
        forall|j: int| 0 <= j < index_of(s, c) ==> s[j] != c,
    decreases s.len(),
{
    if s.len() > 0 && s[0] != c {
        let t = s.drop_first();
        lemma_index_of(t, c);
        assert forall|j: int| 0 <= j < index_of(s, c) implies s[j] != c by {
            if j > 0 {
                assert(s[j] == t[j - 1]);
            }
        }
    }
}

/// A position that holds `c` with nothing equal to `c` before it is `index_of`.
pub proof fn lemma_index_of_is(s: Seq<char>, c: char, k: int)
    requires
        0 <= k <= s.len(),
        k < s.len() ==> s[k] == c,
        forall|j: int| 0 <= j < k ==> s[j] != c,
    ensures
        index_of(s, c) == k,
{
    lemma_index_of(s, c);
    let i = index_of(s, c);
    if i < k {
        assert(s[i] == c);
    } else if k < i {
        assert(s[k] == c);
    }
}

/// Whether `c` is white space.
pub fn char_is_white_space(c: char) -> (b: bool)
    ensures
        b == is_white_space(c),
{
    let u: u32 = c as u32;
    (0x09 <= u && u <= 0x0D) || u == 0x20 || u == 0x85 || u == 0xA0 || u == 0x1680 || (0x2000 <= u
        && u <= 0x200A) || u == 0x2028 || u == 0x2029 || u == 0x202F || u == 0x205F || u == 0x3000
}

/// Whether `p` stands in `s` at position `i`.
pub fn matches_at(s: &Vec<char>, p: &Vec<char>, i: usize) -> (b: bool)
    ensures
        b == occurs_at(s@, p@, i as int),
{
    if i > s.len() || p.len() > s.len() - i {
        return false;
    }
    let mut j: usize = 0;
    while j < p.len()
        invariant
            j <= p.len(),
            i + p.len() <= s.len(),
            forall|k: int| 0 <= k < j ==> s@[i + k] == p@[k],
        decreases p.len() - j,
    {
        if s[i + j] != p[j] {
            proof {
                let sub = s@.subrange(i as int, i + p.len());
                assert(sub[j as int] == s@[i + j]);
            }
            return false;
        }
        j += 1;
    }
    assert(s@.subrange(i as int, i + p.len()) =~= p@);
    true
}

/// Whether `s` begins with `p`.
pub fn starts_with(s: &Vec<char>, p: &Vec<char>) -> (b: bool)
    ensures
        b == has_prefix(s@, p@),
{
    let b = matches_at(s, p, 0);
    proof {
        if p.len() <= s.len() {
            assert(s@.take(p.len() as int) =~= s@.subrange(0, 0 + p.len()));
        }
    }
    b
}

/// Whether `p` stands somewhere in `s`.
pub fn contains(s: &Vec<char>, p: &Vec<char>) -> (b: bool)
    ensures
        b == has_infix(s@, p@),
{
    if p.len() > s.len() {
        assert forall|i: int| !occurs_at(s@, p@, i) by {}
        return false;
    }
    let last: usize = s.len() - p.len();
    let mut i: usize = 0;
    while i < last
        invariant
            i <= last,
            last == s.len() - p.len(),
            p.len() <= s.len(),
            forall|k: int| 0 <= k < i ==> !occurs_at(s@, p@, k),
        decreases last - i,
    {
        if matches_at(s, p, i) {
            return true;
        }
        i += 1;
    }
    let b = matches_at(s, p, last);
    proof {
        if !b {
            assert forall|k: int| !occurs_at(s@, p@, k) by {}
        }
    }
    b
}

/// Position of the first `c` in `s`, or the length of `s` where there is none.
pub fn find_char(s: &Vec<char>, c: char) -> (k: usize)
    ensures
        k == index_of(s@, c),
{
    let mut i: usize = 0;
    while i < s.len() && s[i] != c
        invariant
            i <= s.len(),
            forall|j: int| 0 <= j < i ==> s@[j] != c,
        decreases s.len() - i,
    {
        i += 1;
    }
    proof {
        lemma_index_of_is(s@, c, i as int);
    }
    i
}

/// The views of a list of character vectors.
pub open spec fn views_of(v: Seq<Vec<char>>) -> Seq<Seq<char>> {
    Seq::new(v.len(), |i: int| v[i]@)
}

/// The views of a list of strings.
pub open spec fn string_views(v: Seq<String>) -> Seq<Seq<char>> {
    Seq::new(v.len(), |i: int| v[i]@)
}

/// `s` without one carriage return at its end, where it has one.
pub open spec fn strip_cr(s: Seq<char>) -> Seq<char> {
    if s.len() > 0 && s.last() == '\r' {
        s.drop_last()
    } else {
        s
    }
}

/// The lines of `s`, as `str::lines` gives them: a line ends at a line feed,
/// which is left out together with one carriage return directly before it;
/// what follows the last line feed is a line of its own unless it is empty.
pub open spec fn lines(s: Seq<char>) -> Seq<Seq<char>>
    decreases s.len(),
{
    if s.len() == 0 {
        Seq::empty()
    } else {
        let k = index_of(s, '\n');
        if 0 <= k < s.len() {
            seq![strip_cr(s.take(k))] + lines(s.skip(k + 1))
        } else {
            seq![s]
        }
    }
}

/// The parts, with `sep` between each two neighbours.
pub open spec fn join(parts: Seq<Seq<char>>, sep: Seq<char>) -> Seq<char>
    decreases parts.len(),
{
    if parts.len() == 0 {
        Seq::empty()
    } else if parts.len() == 1 {
        parts[0]
    } else {
        parts[0] + sep + join(parts.drop_first(), sep)
    }
}

/// The parts, each followed by `end`.
pub open spec fn join_ended(parts: Seq<Seq<char>>, end: Seq<char>) -> Seq<char>
    decreases parts.len(),
{
    if parts.len() == 0 {
        Seq::empty()
    } else {
        parts[0] + end + join_ended(parts.drop_first(), end)
    }
}

/// Joining one more part at the end.
pub proof fn lemma_join_push(parts: Seq<Seq<char>>, last: Seq<char>, sep: Seq<char>)
    ensures
        join(parts.push(last), sep) == if parts.len() == 0 {
            last
        } else {
            join(parts, sep) + sep + last
        },
    decreases parts.len(),
{
    let all = parts.push(last);
    if parts.len() == 0 {
        assert(all[0] == last);
    } else if parts.len() == 1 {
        assert(all.drop_first() =~= seq![last]);
        assert(join(all.drop_first(), sep) == last);
    } else {
        let rest = parts.drop_first();
        lemma_join_push(rest, last, sep);
        assert(all.drop_first() =~= rest.push(last));
        assert(join(all, sep) =~= join(parts, sep) + sep + last);
    }
}

/// Joining one more ended part at the end.
pub proof fn lemma_join_ended_push(parts: Seq<Seq<char>>, last: Seq<char>, end: Seq<char>)
    ensures
        join_ended(parts.push(last), end) == join_ended(parts, end) + last + end,
    decreases parts.len(),
{
    let all = parts.push(last);
    if parts.len() == 0 {
        assert(all[0] == last);
        assert(all.drop_first() =~= Seq::<Seq<char>>::empty());
        assert(join_ended(all.drop_first(), end) =~= Seq::<char>::empty());
        assert(join_ended(all, end) =~= last + end);
        assert(join_ended(parts, end) + last + end =~= last + end);
    } else {
        let rest = parts.drop_first();
        lemma_join_ended_push(rest, last, end);
        assert(all.drop_first() =~= rest.push(last));
        assert(join_ended(all, end) =~= join_ended(parts, end) + last + end);
    }
}

/// `trim_start` takes away exactly the leading run of white space.
pub proof fn lemma_trim_start_is(s: Seq<char>, k: int)
    requires
        0 <= k <= s.len(),
        forall|j: int| 0 <= j < k ==> is_white_space(s[j]),
        k < s.len() ==> !is_white_space(s[k]),
    ensures
        trim_start(s) == s.skip(k),
    decreases k,
{
    if k == 0 {
        assert(s.skip(0) =~= s);
    } else {
        let t = s.drop_first();
        assert forall|j: int| 0 <= j < k - 1 implies is_white_space(t[j]) by {
            assert(t[j] == s[j + 1]);
        }
        lemma_trim_start_is(t, k - 1);
        assert(t.skip(k - 1) =~= s.skip(k));
    }
}

/// `trim_end` takes away exactly the trailing run of white space.
pub proof fn lemma_trim_end_is(s: Seq<char>, k: int)
    requires
        0 <= k <= s.len(),
        forall|j: int| k <= j < s.len() ==> is_white_space(s[j]),
        k > 0 ==> !is_white_space(s[k - 1]),
    ensures
        trim_end(s) == s.take(k),
    decreases s.len() - k,
{
    if k == s.len() {
        assert(s.take(k) =~= s);
    } else {
        let t = s.drop_last();
        lemma_trim_end_is(t, k);
        assert(t.take(k) =~= s.take(k));
    }
}

/// The characters of `s` from `from` up to, not including, `to`.
pub fn slice_of(s: &Vec<char>, from: usize, to: usize) -> (r: Vec<char>)
    requires
        from <= to <= s.len(),
    ensures
        r@ == s@.subrange(from as int, to as int),
{
    let mut r: Vec<char> = Vec::new();
    let mut i: usize = from;
    while i < to
        invariant
            from <= i <= to,
            to <= s.len(),
            r@ == s@.subrange(from as int, i as int),
        decreases to - i,
    {
        r.push(s[i]);
        i += 1;
        assert(r@ =~= s@.subrange(from as int, i as int));
    }
    r
}

/// Number of white-space characters at the start of `s`.
pub fn leading_white_space(s: &Vec<char>) -> (k: usize)
    ensures
        k <= s.len(),
        trim_start(s@) == s@.skip(k as int),
        forall|j: int| 0 <= j < k ==> is_white_space(s@[j]),
        k < s.len() ==> !is_white_space(s@[k as int]),
{
    let mut k: usize = 0;
    while k < s.len() && char_is_white_space(s[k])
        invariant
            k <= s.len(),
            forall|j: int| 0 <= j < k ==> is_white_space(s@[j]),
        decreases s.len() - k,
    {
        k += 1;
    }
    proof {
        lemma_trim_start_is(s@, k as int);
    }
    k
}

/// `s` without its leading white space.
pub fn trimmed_start(s: &Vec<char>) -> (r: Vec<char>)
    ensures
        r@ == trim_start(s@),
{
    let k = leading_white_space(s);
    let r = slice_of(s, k, s.len());
    assert(s@.skip(k as int) =~= s@.subrange(k as int, s.len() as int));
    r
}

/// `s` without white space at either end.
pub fn trimmed(s: &Vec<char>) -> (r: Vec<char>)
    ensures
        r@ == trim(s@),
{
    let from = leading_white_space(s);
    let mut to: usize = s.len();
    while to > from && char_is_white_space(s[to - 1])
        invariant
            from <= to <= s.len(),
            forall|j: int| to <= j < s.len() ==> is_white_space(s@[j]),
        decreases to,
    {
        to -= 1;
    }
    let r = slice_of(s, from, to);
    proof {
        let t = s@.skip(from as int);
        assert(t == trim_start(s@));
        assert forall|j: int| to - from <= j < t.len() implies is_white_space(t[j]) by {
            assert(t[j] == s@[j + from]);
        }
        if to - from > 0 {
            assert(t[to - from - 1] == s@[to - 1]);
        } 
        lemma_trim_end_is(t, to - from);
        assert(t.take(to - from) =~= s@.subrange(from as int, to as int));
    }
    r
}

/// The lines of `s`.
pub fn split_lines(s: &Vec<char>) -> (r: Vec<Vec<char>>)
    ensures
        views_of(r@) == lines(s@),
{
    let mut r: Vec<Vec<char>> = Vec::new();
    let mut start: usize = 0;
    let mut i: usize = 0;
    assert(s@.skip(0) =~= s@);
    assert(views_of(r@) + lines(s@) =~= lines(s@));
    while i < s.len()
        invariant
            start <= i <= s.len(),
            forall|j: int| start <= j < i ==> s@[j] != '\n',
            lines(s@) == views_of(r@) + lines(s@.skip(start as int)),
        decreases s.len() - i,
    {
        if s[i] == '\n' {
            let end: usize = if i > start && s[i - 1] == '\r' {
                i - 1
            } else {
                i
            };
            let line = slice_of(s, start, end);
            proof {
                let rest = s@.skip(start as int);
                let k = i - start;
                assert forall|j: int| 0 <= j < k implies rest[j] != '\n' by {
                    assert(rest[j] == s@[start + j]);
                }
                assert(rest[k] == '\n');
                lemma_index_of_is(rest, '\n', k);
                let raw = rest.take(k);
                assert(raw =~= s@.subrange(start as int, i as int));
                if k > 0 {
                    assert(raw.last() == s@[i - 1]);
                }
                assert(strip_cr(raw) =~= line@);
                assert(rest.skip(k + 1) =~= s@.skip(i + 1));
                assert(lines(rest) == seq![line@] + lines(s@.skip(i + 1)));
                assert(views_of(r@.push(line)) =~= views_of(r@) + seq![line@]);
                assert(views_of(r@) + (seq![line@] + lines(s@.skip(i + 1))) =~= views_of(
                    r@.push(line),
                ) + lines(s@.skip(i + 1)));
            }
            r.push(line);
            start = i + 1;
        }
        i += 1;
    }
    if start < s.len() {
        let line = slice_of(s, start, s.len());
        proof {
            let rest = s@.skip(start as int);
            assert forall|j: int| 0 <= j < rest.len() implies rest[j] != '\n' by {
                assert(rest[j] == s@[start + j]);
            }
            lemma_index_of_is(rest, '\n', rest.len() as int);
            assert(rest =~= line@);
            assert(lines(rest) == seq![line@]);
            assert(views_of(r@.push(line)) =~= views_of(r@) + seq![line@]);
        }
        r.push(line);
    } else {
        assert(s@.skip(start as int).len() == 0);
        assert(views_of(r@) + lines(s@.skip(start as int)) =~= views_of(r@));
    }
    r
}

/// Appends the characters of `more` to `out`.
pub fn append_chars(out: &mut Vec<char>, more: &Vec<char>)
    ensures
        final(out)@ == old(out)@ + more@,
{
    let mut i: usize = 0;
    assert(out@ =~= old(out)@ + more@.take(0));
    while i < more.len()
        invariant
            i <= more.len(),
            out@ == old(out)@ + more@.take(i as int),
        decreases more.len() - i,
    {
        out.push(more[i]);
        i += 1;
        assert(out@ =~= old(out)@ + more@.take(i as int));
    }
    assert(more@.take(more.len() as int) =~= more@);
}

/// The parts, with `sep` between each two neighbours.
pub fn join_with(parts: &Vec<Vec<char>>, sep: &Vec<char>) -> (r: Vec<char>)
    ensures
        r@ == join(views_of(parts@), sep@),
{
    let mut r: Vec<char> = Vec::new();
    let mut i: usize = 0;
    let ghost all = views_of(parts@);
    assert(all.take(0) =~= Seq::<Seq<char>>::empty());
    while i < parts.len()
        invariant
            i <= parts.len(),
            all == views_of(parts@),
            r@ == join(all.take(i as int), sep@),
        decreases parts.len() - i,
    {
        proof {
            lemma_join_push(all.take(i as int), all[i as int], sep@);
            assert(all.take(i + 1) =~= all.take(i as int).push(all[i as int]));
        }
        if i > 0 {
            append_chars(&mut r, sep);
        }
        append_chars(&mut r, &parts[i]);
        i += 1;
    }
    assert(all.take(parts.len() as int) =~= all);
    r
}

/// The parts, each followed by `end`.
pub fn join_each_ended(parts: &Vec<Vec<char>>, end: &Vec<char>) -> (r: Vec<char>)
    ensures
        r@ == join_ended(views_of(parts@), end@),
{
    let mut r: Vec<char> = Vec::new();
    let mut i: usize = 0;
    let ghost all = views_of(parts@);
    assert(all.take(0) =~= Seq::<Seq<char>>::empty());
    while i < parts.len()
        invariant
            i <= parts.len(),
            all == views_of(parts@),
            r@ == join_ended(all.take(i as int), end@),
        decreases parts.len() - i,
    {
        proof {
            lemma_join_ended_push(all.take(i as int), all[i as int], end@);
            assert(all.take(i + 1) =~= all.take(i as int).push(all[i as int]));
        }
        append_chars(&mut r, &parts[i]);
        append_chars(&mut r, end);
        i += 1;
    }
    assert(all.take(parts.len() as int) =~= all);
    r
}

/// A single line feed.
pub open spec fn line_feed() -> Seq<char> {
    seq!['\n']
}

/// Whether `s` holds no line feed.
pub open spec fn is_single_line(s: Seq<char>) -> bool {
    forall|j: int| 0 <= j < s.len() ==> s[j] != '\n'
}

/// Whether every part holds no line feed.
pub open spec fn all_single_line(parts: Seq<Seq<char>>) -> bool {
    forall|i: int| 0 <= i < parts.len() ==> is_single_line(#[trigger] parts[i])
}

/// Each part without one carriage return at its end.
pub open spec fn strip_cr_each(parts: Seq<Seq<char>>) -> Seq<Seq<char>> {
    Seq::new(parts.len(), |i: int| strip_cr(parts[i]))
}

/// A text that starts with a line and its line feed has that line, without
/// its carriage return, as its first line, and the lines of the rest after it.
pub proof fn lemma_lines_first(first: Seq<char>, rest: Seq<char>)
    requires
        is_single_line(first),
    ensures
        lines(first + line_feed() + rest) == seq![strip_cr(first)] + lines(rest),
{
    let s = first + line_feed() + rest;
    let k = first.len() as int;
    assert(s[k] == '\n');
    assert forall|j: int| 0 <= j < k implies s[j] != '\n' by {
        assert(s[j] == first[j]);
    }
    lemma_index_of_is(s, '\n', k);
    assert(s.take(k) =~= first);
    assert(s.skip(k + 1) =~= rest);
}

/// Lines that are each written out with a line feed after them are read back
/// as they were, but for one carriage return at the end of each.
pub proof fn lemma_lines_of_ended(parts: Seq<Seq<char>>)
    requires
        all_single_line(parts),
    ensures
        lines(join_ended(parts, line_feed())) == strip_cr_each(parts),
    decreases parts.len(),
{
    if parts.len() == 0 {
        assert(strip_cr_each(parts) =~= Seq::<Seq<char>>::empty());
    } else {
        let rest = parts.drop_first();
        assert forall|i: int| 0 <= i < rest.len() implies is_single_line(#[trigger] rest[i]) by {
            assert(rest[i] == parts[i + 1]);
        }
        lemma_lines_of_ended(rest);
        lemma_lines_first(parts[0], join_ended(rest, line_feed()));
        assert(strip_cr_each(parts) =~= seq![strip_cr(parts[0])] + strip_cr_each(rest));
    }
}

/// No line of a text holds a line feed.
pub proof fn lemma_lines_single(s: Seq<char>)
    ensures
        all_single_line(lines(s)),
    decreases s.len(),
{
    if s.len() > 0 {
        lemma_index_of(s, '\n');
        let k = index_of(s, '\n');
        if k < s.len() {
            let rest = s.skip(k + 1);
            lemma_lines_single(rest);
            let head = strip_cr(s.take(k));
            assert(is_single_line(head));
            let all = lines(s);
            assert forall|i: int| 0 <= i < all.len() implies is_single_line(#[trigger] all[i]) by {
                if i > 0 {
                    assert(all[i] == lines(rest)[i - 1]);
                }
            }
        } else {
            assert(is_single_line(s));
        }
    }
}

/// Parts joined by a separator, with the separator once more at the end, are
/// the parts each followed by it.
pub proof fn lemma_join_then_sep(parts: Seq<Seq<char>>, sep: Seq<char>)
    requires
        parts.len() > 0,
    ensures
        join(parts, sep) + sep == join_ended(parts, sep),
    decreases parts.len(),
{
    let rest = parts.drop_first();
    if parts.len() == 1 {
        assert(join_ended(rest, sep) =~= Seq::<char>::empty());
        assert(join(parts, sep) + sep =~= join_ended(parts, sep));
    } else {
        lemma_join_then_sep(rest, sep);
        assert(join(parts, sep) + sep =~= parts[0] + sep + (join(rest, sep) + sep));
    }
}

/// `s` without the run of `c` at its start.
pub open spec fn strip_leading(s: Seq<char>, c: char) -> Seq<char>
    decreases s.len(),
{
    if s.len() > 0 && s[0] == c {
        strip_leading(s.drop_first(), c)
    } else {
        s
    }
}

/// `s` without the run of `c` at its end.
pub open spec fn strip_trailing(s: Seq<char>, c: char) -> Seq<char>
    decreases s.len(),
{
    if s.len() > 0 && s.last() == c {
        strip_trailing(s.drop_last(), c)
    } else {
        s
    }
}

/// `s` without the runs of `c` at its two ends.
pub open spec fn strip_both(s: Seq<char>, c: char) -> Seq<char> {
    strip_trailing(strip_leading(s, c), c)
}

/// `strip_leading` takes away exactly the leading run of `c`.
pub proof fn lemma_strip_leading_is(s: Seq<char>, c: char, k: int)
    requires
        0 <= k <= s.len(),
        forall|j: int| 0 <= j < k ==> s[j] == c,
        k < s.len() ==> s[k] != c,
    ensures
        strip_leading(s, c) == s.skip(k),
    decreases k,
{
    if k == 0 {
        assert(s.skip(0) =~= s);
    } else {
        let t = s.drop_first();
        assert forall|j: int| 0 <= j < k - 1 implies t[j] == c by {
            assert(t[j] == s[j + 1]);
        }
        lemma_strip_leading_is(t, c, k - 1);
        assert(t.skip(k - 1) =~= s.skip(k));
    }
}

/// `strip_trailing` takes away exactly the trailing run of `c`.
pub proof fn lemma_strip_trailing_is(s: Seq<char>, c: char, k: int)
    requires
        0 <= k <= s.len(),
        forall|j: int| k <= j < s.len() ==> s[j] == c,
        k > 0 ==> s[k - 1] != c,
    ensures
        strip_trailing(s, c) == s.take(k),
    decreases s.len() - k,
{
    if k == s.len() {
        assert(s.take(k) =~= s);
    } else {
        let t = s.drop_last();
        lemma_strip_trailing_is(t, c, k);
        assert(t.take(k) =~= s.take(k));
    }
}

/// The part of `s` from `from` on, without the runs of `c` at its two ends.
pub fn stripped_both_from(s: &Vec<char>, from: usize, c: char) -> (r: Vec<char>)
    requires
        from <= s.len(),
    ensures
        r@ == strip_both(s@.skip(from as int), c),
{
    let mut lo: usize = from;
    while lo < s.len() && s[lo] == c
        invariant
            from <= lo <= s.len(),
            forall|j: int| from <= j < lo ==> s@[j] == c,
        decreases s.len() - lo,
    {
        lo += 1;
    }
    let mut hi: usize = s.len();
    while hi > lo && s[hi - 1] == c
        invariant
            lo <= hi <= s.len(),
            forall|j: int| hi <= j < s.len() ==> s@[j] == c,
        decreases hi,
    {
        hi -= 1;
    }
    let r = slice_of(s, lo, hi);
    proof {
        let whole = s@.skip(from as int);
        assert forall|j: int| 0 <= j < lo - from implies whole[j] == c by {
            assert(whole[j] == s@[from + j]);
        }
        if lo < s.len() {
            assert(whole[lo - from] == s@[lo as int]);
        }
        lemma_strip_leading_is(whole, c, lo - from);
        let t = whole.skip(lo - from);
        assert(t =~= s@.skip(lo as int));
        assert forall|j: int| hi - lo <= j < t.len() implies t[j] == c by {
            assert(t[j] == s@[j + lo]);
        }
        if hi - lo > 0 {
            assert(t[hi - lo - 1] == s@[hi - 1]);
        }
        lemma_strip_trailing_is(t, c, hi - lo);
        assert(t.take(hi - lo) =~= s@.subrange(lo as int, hi as int));
    }
    r
}

/// Whether `a` and `b` hold the same characters.
pub fn same_text(a: &Vec<char>, b: &Vec<char>) -> (r: bool)
    ensures
        r == (a@ == b@),
{
    if a.len() != b.len() {
        return false;
    }
    let r = matches_at(a, b, 0);
    proof {
        assert(a@.subrange(0, 0 + b.len()) =~= a@);
    }
    r
}

/// Appends the characters of the string `more` to `out`.
pub fn append_str(out: &mut Vec<char>, more: &str)
    ensures
        final(out)@ == old(out)@ + more@,
{
    let chars = chars_of(more);
    append_chars(out, &chars);
}

/// Whether the strings `a` and `b` hold the same characters.
pub fn same_str(a: &str, b: &str) -> (r: bool)
    ensures
        r == (a@ == b@),
{
    let x = chars_of(a);
    let y = chars_of(b);
    same_text(&x, &y)
}

/// A non-empty text without a line feed is its own single line.
pub proof fn lemma_lines_of_single(s: Seq<char>)
    requires
        is_single_line(s),
        s.len() > 0,
    ensures
        lines(s) == seq![s],
{
    lemma_index_of_is(s, '\n', s.len() as int);
}

/// Lines joined by line feeds, the last of them not empty, are read back as
/// they were, but for one carriage return at the end of each line before the
/// last.
pub proof fn lemma_lines_of_joined(parts: Seq<Seq<char>>)
    requires
        all_single_line(parts),
        parts.len() > 0,
        parts.last().len() > 0,
    ensures
        lines(join(parts, line_feed())) == strip_cr_each(parts.drop_last()).push(parts.last()),
    decreases parts.len(),
{
    if parts.len() == 1 {
        lemma_lines_of_single(parts[0]);
        assert(strip_cr_each(parts.drop_last()).push(parts.last()) =~= seq![parts[0]]);
    } else {
        let rest = parts.drop_first();
        assert forall|i: int| 0 <= i < rest.len() implies is_single_line(#[trigger] rest[i]) by {
            assert(rest[i] == parts[i + 1]);
        }
        assert(rest.last() == parts.last());
        lemma_lines_of_joined(rest);
        lemma_lines_first(parts[0], join(rest, line_feed()));
        assert(strip_cr_each(parts.drop_last()).push(parts.last()) =~= seq![strip_cr(parts[0])]
            + strip_cr_each(rest.drop_last()).push(rest.last()));
    }
}

/// What a filter keeps of single lines are single lines.
pub proof fn lemma_filter_single(parts: Seq<Seq<char>>, pred: spec_fn(Seq<char>) -> bool)
    requires
        all_single_line(parts),
    ensures
        all_single_line(parts.filter(pred)),
{
    let kept = parts.filter(pred);
    assert forall|i: int| 0 <= i < kept.len() implies is_single_line(#[trigger] kept[i]) by {
        assert(kept.contains(kept[i]));
        parts.lemma_filter_contains_rev(pred, kept[i]);
        let j = choose|j: int| 0 <= j < parts.len() && parts[j] == kept[i];
        assert(is_single_line(parts[j]));
    }
}

/// A filter that no element passes keeps nothing.
pub proof fn lemma_filter_none(parts: Seq<Seq<char>>, pred: spec_fn(Seq<char>) -> bool)
    requires
        forall|i: int| 0 <= i < parts.len() ==> !pred(#[trigger] parts[i]),
    ensures
        parts.filter(pred) == Seq::<Seq<char>>::empty(),
    decreases parts.len(),
{
    reveal(Seq::filter);
    if parts.len() > 0 {
        let init = parts.drop_last();
        assert forall|i: int| 0 <= i < init.len() implies !pred(#[trigger] init[i]) by {
            assert(init[i] == parts[i]);
        }
        lemma_filter_none(init, pred);
        assert(!pred(parts[parts.len() - 1]));
    }
}

/// A filter that every element passes keeps everything.
pub proof fn lemma_filter_all(parts: Seq<Seq<char>>, pred: spec_fn(Seq<char>) -> bool)
    requires
        forall|i: int| 0 <= i < parts.len() ==> pred(#[trigger] parts[i]),
    ensures
        parts.filter(pred) == parts,
    decreases parts.len(),
{
    reveal(Seq::filter);
    if parts.len() > 0 {
        let init = parts.drop_last();
        assert forall|i: int| 0 <= i < init.len() implies pred(#[trigger] init[i]) by {
            assert(init[i] == parts[i]);
        }
        lemma_filter_all(init, pred);
        assert(pred(parts[parts.len() - 1]));
        assert(init.push(parts.last()) =~= parts);
    }
}

/// Filtering with one more element at the end.
pub proof fn lemma_filter_push(
    parts: Seq<Seq<char>>,
    last: Seq<char>,
    pred: spec_fn(Seq<char>) -> bool,
)
    ensures
        parts.push(last).filter(pred) == if pred(last) {
            parts.filter(pred).push(last)
        } else {
            parts.filter(pred)
        },
{
    reveal(Seq::filter);
    assert(parts.push(last).drop_last() =~= parts);
}

/// A filter keeps nothing of no parts.
pub proof fn lemma_filter_start(parts: Seq<Seq<char>>, pred: spec_fn(Seq<char>) -> bool)
    ensures
        parts.take(0).filter(pred) == Seq::<Seq<char>>::empty(),
{
    reveal(Seq::filter);
    assert(parts.take(0) =~= Seq::<Seq<char>>::empty());
}

/// Filtering one part more: what the filter kept of the parts before, and
/// the next part after it where it passes.
pub proof fn lemma_filter_next(parts: Seq<Seq<char>>, i: int, pred: spec_fn(Seq<char>) -> bool)
    requires
        0 <= i < parts.len(),
    ensures
        parts.take(i + 1).filter(pred) == if pred(parts[i]) {
            parts.take(i).filter(pred).push(parts[i])
        } else {
            parts.take(i).filter(pred)
        },
{
    assert(parts.take(i + 1) =~= parts.take(i).push(parts[i]));
    lemma_filter_push(parts.take(i), parts[i], pred);
}

/// Filtering with one more element at the front.
pub proof fn lemma_filter_first(
    first: Seq<char>,
    rest: Seq<Seq<char>>,
    pred: spec_fn(Seq<char>) -> bool,
)
    ensures
        (seq![first] + rest).filter(pred) == if pred(first) {
            seq![first] + rest.filter(pred)
        } else {
            rest.filter(pred)
        },
{
    let none = Seq::<Seq<char>>::empty();
    lemma_filter_start(none, pred);
    assert(none.take(0) =~= none);
    lemma_filter_push(none, first, pred);
    assert(none.push(first) =~= seq![first]);
    Seq::filter_distributes_over_add(seq![first], rest, pred);
    if pred(first) {
        assert(none.push(first) + rest.filter(pred) =~= seq![first] + rest.filter(pred));
    } else {
        assert(none + rest.filter(pred) =~= rest.filter(pred));
    }
}

/// Two filters in turn keep what passes both.
pub proof fn lemma_filter_twice(
    parts: Seq<Seq<char>>,
    first: spec_fn(Seq<char>) -> bool,
    second: spec_fn(Seq<char>) -> bool,
    both: spec_fn(Seq<char>) -> bool,
)
    requires
        forall|line: Seq<char>| #[trigger] both(line) == (first(line) && second(line)),
    ensures
        parts.filter(first).filter(second) == parts.filter(both),
    decreases parts.len(),
{
    reveal(Seq::filter);
    if parts.len() > 0 {
        let init = parts.drop_last();
        lemma_filter_twice(init, first, second, both);
        if first(parts.last()) {
            lemma_filter_push(init.filter(first), parts.last(), second);
        }
    }
}

/// A line that opens with a prefix once its carriage return is gone opened
/// with it before.
pub proof fn lemma_prefix_before_cr(line: Seq<char>, prefix: Seq<char>)
    requires
        has_prefix(strip_cr(line), prefix),
    ensures
        has_prefix(line, prefix),
{
    assert(line.take(prefix.len() as int) =~= strip_cr(line).take(prefix.len() as int));
}

/// Whether no part ends with a carriage return.
pub open spec fn none_ends_with_cr(parts: Seq<Seq<char>>) -> bool {
    forall|i: int| 0 <= i < parts.len() ==> strip_cr(#[trigger] parts[i]) == parts[i]
}

/// The lines of two texts one after the other are the lines of the first,
/// then those of the second, where the first is empty or ends its last line
/// with a line feed.
pub proof fn lemma_lines_concat(first: Seq<char>, second: Seq<char>)
    requires
        first.len() == 0 || first.last() == '\n',
    ensures
        lines(first + second) == lines(first) + lines(second),
    decreases first.len(),
{
    if first.len() == 0 {
        assert(first + second =~= second);
        assert(lines(first) + lines(second) =~= lines(second));
    } else {
        lemma_index_of(first, '\n');
        let k = index_of(first, '\n');
        let whole = first + second;
        assert(k < first.len()) by {
            if k >= first.len() {
                assert(first[first.len() - 1] == '\n');
            }
        }
        assert forall|j: int| 0 <= j < k implies whole[j] != '\n' by {
            assert(whole[j] == first[j]);
        }
        assert(whole[k] == first[k]);
        lemma_index_of_is(whole, '\n', k);
        let rest = first.skip(k + 1);
        assert(whole.take(k) =~= first.take(k));
        assert(whole.skip(k + 1) =~= rest + second);
        if rest.len() > 0 {
            assert(rest.last() == first.last());
        }
        lemma_lines_concat(rest, second);
        assert(lines(whole) =~= lines(first) + lines(second));
    }
}

/// The pieces of `s` between the occurrences of `c`, as `str::split` gives
/// them: one more piece than there are occurrences.
pub open spec fn split_on(s: Seq<char>, c: char) -> Seq<Seq<char>>
    decreases s.len(),
{
    let k = index_of(s, c);
    if 0 <= k < s.len() {
        seq![s.take(k)] + split_on(s.skip(k + 1), c)
    } else {
        seq![s]
    }
}

/// Number of characters at the start of `s` that are not white space.
pub open spec fn word_len(s: Seq<char>) -> int
    decreases s.len(),
{
    if s.len() > 0 && !is_white_space(s[0]) {
        1 + word_len(s.drop_first())
    } else {
        0
    }
}

/// The word of `s` at position `n`, counted from 0, as
/// `str::split_whitespace` gives them: words are the longest runs of
/// characters that are not white space.
pub open spec fn nth_word(s: Seq<char>, n: nat) -> Option<Seq<char>>
    decreases n,
{
    let t = trim_start(s);
    if t.len() == 0 {
        None
    } else if n == 0 {
        Some(t.take(word_len(t)))
    } else {
        nth_word(t.skip(word_len(t)), (n - 1) as nat)
    }
}

/// `word_len` counts exactly the leading run of characters that are not
/// white space.
pub proof fn lemma_word_len_is(s: Seq<char>, k: int)
    requires
        0 <= k <= s.len(),
        forall|j: int| 0 <= j < k ==> !is_white_space(s[j]),
        k < s.len() ==> is_white_space(s[k]),
    ensures
        word_len(s) == k,
    decreases k,
{
    if k > 0 {
        let t = s.drop_first();
        assert forall|j: int| 0 <= j < k - 1 implies !is_white_space(t[j]) by {
            assert(t[j] == s[j + 1]);
        }
        lemma_word_len_is(t, k - 1);
    }
}

/// The pieces of `s` between the occurrences of `c`.
pub fn split_at_char(s: &Vec<char>, c: char) -> (r: Vec<Vec<char>>)
    ensures
        views_of(r@) == split_on(s@, c),
{
    let mut r: Vec<Vec<char>> = Vec::new();
    let mut start: usize = 0;
    let mut i: usize = 0;
    assert(s@.skip(0) =~= s@);
    assert(views_of(r@) + split_on(s@, c) =~= split_on(s@, c));
    while i < s.len()
        invariant
            start <= i <= s.len(),
            forall|j: int| start <= j < i ==> s@[j] != c,
            split_on(s@, c) == views_of(r@) + split_on(s@.skip(start as int), c),
        decreases s.len() - i,
    {
        if s[i] == c {
            let piece = slice_of(s, start, i);
            proof {
                let rest = s@.skip(start as int);
                let k = i - start;
                assert forall|j: int| 0 <= j < k implies rest[j] != c by {
                    assert(rest[j] == s@[start + j]);
                }
                assert(rest[k] == c);
                lemma_index_of_is(rest, c, k);
                assert(rest.take(k) =~= piece@);
                assert(rest.skip(k + 1) =~= s@.skip(i + 1));
                assert(views_of(r@.push(piece)) =~= views_of(r@) + seq![piece@]);
                assert(views_of(r@) + (seq![piece@] + split_on(s@.skip(i + 1), c)) =~= views_of(
                    r@.push(piece),
                ) + split_on(s@.skip(i + 1), c));
            }
            r.push(piece);
            start = i + 1;
        }
        i += 1;
    }
    let piece = slice_of(s, start, s.len());
    proof {
        let rest = s@.skip(start as int);
        assert forall|j: int| 0 <= j < rest.len() implies rest[j] != c by {
            assert(rest[j] == s@[start + j]);
        }
        lemma_index_of_is(rest, c, rest.len() as int);
        assert(rest =~= piece@);
        assert(views_of(r@.push(piece)) =~= views_of(r@) + seq![piece@]);
    }
    r.push(piece);
    r
}

/// The word of `s` at position `n`, counted from 0.
pub fn word_at(s: &Vec<char>, n: usize) -> (word: Option<Vec<char>>)
    ensures
        match word {
            Some(w) => nth_word(s@, n as nat) == Some(w@),
            None => nth_word(s@, n as nat) is None,
        },
{
    let mut pos: usize = 0;
    let mut seen: usize = 0;
    assert(s@.skip(0) =~= s@);
    loop
        invariant
            pos <= s.len(),
            seen <= n,
            nth_word(s@, n as nat) == nth_word(s@.skip(pos as int), (n - seen) as nat),
        decreases n - seen,
    {
        let mut start: usize = pos;
        while start < s.len() && char_is_white_space(s[start])
            invariant
                pos <= start <= s.len(),
                forall|j: int| pos <= j < start ==> is_white_space(s@[j]),
            decreases s.len() - start,
        {
            start += 1;
        }
        let ghost from = s@.skip(pos as int);
        let ghost t = s@.skip(start as int);
        proof {
            assert forall|j: int| 0 <= j < start - pos implies is_white_space(from[j]) by {
                assert(from[j] == s@[pos + j]);
            }
            if start < s.len() {
                assert(from[start - pos] == s@[start as int]);
            }
            lemma_trim_start_is(from, start - pos);
            assert(from.skip(start - pos) =~= t);
        }
        if start >= s.len() {
            return None;
        }
        let mut end: usize = start;
        while end < s.len() && !char_is_white_space(s[end])
            invariant
                start <= end <= s.len(),
                forall|j: int| start <= j < end ==> !is_white_space(s@[j]),
            decreases s.len() - end,
        {
            end += 1;
        }
        proof {
            assert forall|j: int| 0 <= j < end - start implies !is_white_space(t[j]) by {
                assert(t[j] == s@[start + j]);
            }
            if end < s.len() {
                assert(t[end - start] == s@[end as int]);
            }
            lemma_word_len_is(t, end - start);
            assert(t.take(end - start) =~= s@.subrange(start as int, end as int));
            assert(t.skip(end - start) =~= s@.skip(end as int));
        }
        if seen == n {
            return Some(slice_of(s, start, end));
        }
        seen += 1;
        pos = end;
    }
}

/// The piece of `s` at position `n`, counted from 0, among those between
/// the occurrences of `c`.
pub open spec fn nth_piece(s: Seq<char>, c: char, n: int) -> Option<Seq<char>> {
    if 0 <= n < split_on(s, c).len() {
        Some(split_on(s, c)[n])
    } else {
        None
    }
}

/// The piece of `s` at position `n`, counted from 0, among those between
/// the occurrences of `c`.
pub fn piece_at(s: &Vec<char>, c: char, n: usize) -> (piece: Option<Vec<char>>)
    ensures
        match piece {
            Some(p) => nth_piece(s@, c, n as int) == Some(p@),
            None => nth_piece(s@, c, n as int) is None,
        },
{
    let pieces = split_at_char(s, c);
    if n < pieces.len() {
        assert(views_of(pieces@)[n as int] == pieces@[n as int]@);
        Some(pieces[n].clone())
    } else {
        None
    }
}

/// Position of the first occurrence of `p` in `s`, or the length of `s`
/// where there is none.
pub open spec fn first_occurrence(s: Seq<char>, p: Seq<char>) -> int
    decreases s.len(),
{
    if occurs_at(s, p, 0) {
        0
    } else if s.len() == 0 {
        0
    } else {
        1 + first_occurrence(s.drop_first(), p)
    }
}

/// An occurrence of `p` in `s` one place on is one in `s` without its first
/// character, and the other way round.
pub proof fn lemma_occurs_shift(s: Seq<char>, p: Seq<char>, i: int)
    requires
        s.len() > 0,
        0 <= i,
    ensures
        occurs_at(s, p, i + 1) == occurs_at(s.drop_first(), p, i),
{
    let t = s.drop_first();
    if i + 1 + p.len() <= s.len() {
        assert(s.subrange(i + 1, i + 1 + p.len()) =~= t.subrange(i, i + p.len()));
    }
}

/// A position where `p` occurs with no occurrence before it is the first
/// occurrence; so is the length of `s` where `p` occurs nowhere.
pub proof fn lemma_first_occurrence_is(s: Seq<char>, p: Seq<char>, k: int)
    requires
        0 <= k <= s.len(),
        k < s.len() ==> occurs_at(s, p, k),
        k == s.len() ==> !occurs_at(s, p, k),
        forall|j: int| 0 <= j < k ==> !occurs_at(s, p, j),
    ensures
        first_occurrence(s, p) == k,
    decreases k,
{
    if k > 0 {
        let t = s.drop_first();
        assert forall|j: int| 0 <= j < k - 1 implies !occurs_at(t, p, j) by {
            lemma_occurs_shift(s, p, j);
        }
        lemma_occurs_shift(s, p, k - 1);
        lemma_first_occurrence_is(t, p, k - 1);
    } else if s.len() == 0 {
    }
}

/// Position of the first occurrence of `p` in `s`, or the length of `s`
/// where there is none.
pub fn find_text(s: &Vec<char>, p: &Vec<char>) -> (k: usize)
    ensures
        k == first_occurrence(s@, p@),
        k <= s.len(),
        has_infix(s@, p@) == occurs_at(s@, p@, k as int),
{
    let mut i: usize = 0;
    while i < s.len()
        invariant
            i <= s.len(),
            forall|j: int| 0 <= j < i ==> !occurs_at(s@, p@, j),
        decreases s.len() - i,
    {
        if matches_at(s, p, i) {
            proof {
                lemma_first_occurrence_is(s@, p@, i as int);
            }
            return i;
        }
        i += 1;
    }
    proof {
        if occurs_at(s@, p@, s.len() as int) {
            assert(first_occurrence(s@, p@) == s.len()) by {
                lemma_first_at_end(s@, p@);
            }
        } else {
            lemma_first_occurrence_is(s@, p@, s.len() as int);
            assert forall|j: int| !occurs_at(s@, p@, j) by {}
        }
    }
    i
}

/// Where `p` occurs in `s` at its very end only, having no length, the
/// first occurrence is the length of `s`.
pub proof fn lemma_first_at_end(s: Seq<char>, p: Seq<char>)
    requires
        occurs_at(s, p, s.len() as int),
        forall|j: int| 0 <= j < s.len() ==> !occurs_at(s, p, j),
    ensures
        first_occurrence(s, p) == s.len(),
    decreases s.len(),
{
    if s.len() > 0 {
        let t = s.drop_first();
        assert forall|j: int| 0 <= j < t.len() implies !occurs_at(t, p, j) by {
            lemma_occurs_shift(s, p, j);
        }
        lemma_occurs_shift(s, p, s.len() - 1);
        lemma_first_at_end(t, p);
    }
}

/// The lower-case form of an ASCII capital; any other character as it is.
pub open spec fn lower(c: char) -> char {
    if 'A' <= c <= 'Z' {
        ((c as u32 + 32) as u8) as char
    } else {
        c
    }
}

/// `s` with every ASCII capital in lower case.
pub open spec fn lowered(s: Seq<char>) -> Seq<char> {
    Seq::new(s.len(), |i: int| lower(s[i]))
}

/// The lower-case form of an ASCII capital; any other character as it is.
pub fn to_lower(c: char) -> (l: char)
    ensures
        l == lower(c),
{
    if 'A' <= c && c <= 'Z' {
        ((c as u32 + 32) as u8) as char
    } else {
        c
    }
}

/// `s` with every ASCII capital in lower case.
pub fn to_lowered(s: &Vec<char>) -> (r: Vec<char>)
    ensures
        r@ == lowered(s@),
{
    let mut r: Vec<char> = Vec::new();
    let mut i: usize = 0;
    while i < s.len()
        invariant
            i <= s.len(),
            r@.len() == i,
            forall|j: int| 0 <= j < i ==> r@[j] == lower(s@[j]),
        decreases s.len() - i,
    {
        r.push(to_lower(s[i]));
        i += 1;
    }
    assert(r@ =~= lowered(s@));
    r
}

/// A text always splits into one piece at least.
pub proof fn lemma_split_on_nonempty(s: Seq<char>, c: char)
    ensures
        split_on(s, c).len() > 0,
{
}

/// The words of `s`, as `str::split_whitespace` gives them.
pub open spec fn words_of(s: Seq<char>) -> Seq<Seq<char>>
    decreases s.len(),
{
    let t = trim_start(s);
    let k = word_len(t);
    if t.len() == 0 || t.len() > s.len() || k <= 0 || k > t.len() {
        Seq::empty()
    } else {
        seq![t.take(k)] + words_of(t.skip(k))
    }
}

/// Number of bytes that a character takes in UTF-8.
pub open spec fn char_bytes(c: char) -> nat {
    let u = c as u32;
    if u < 0x80 {
        1
    } else if u < 0x800 {
        2
    } else if u < 0x10000 {
        3
    } else {
        4
    }
}

/// Number of bytes that a text takes in UTF-8: what `str::len` gives.
pub open spec fn byte_len(s: Seq<char>) -> nat
    decreases s.len(),
{
    if s.len() == 0 {
        0
    } else {
        byte_len(s.drop_last()) + char_bytes(s.last())
    }
}

/// The words of `s`.
pub fn split_words(s: &Vec<char>) -> (words: Vec<Vec<char>>)
    ensures
        views_of(words@) == words_of(s@),
{
    let mut words: Vec<Vec<char>> = Vec::new();
    let mut pos: usize = 0;
    assert(s@.skip(0) =~= s@);
    assert(views_of(words@) + words_of(s@) =~= words_of(s@));
    loop
        invariant
            pos <= s.len(),
            words_of(s@) == views_of(words@) + words_of(s@.skip(pos as int)),
        ensures
            views_of(words@) == words_of(s@),
        decreases s.len() - pos,
    {
        let mut start: usize = pos;
        while start < s.len() && char_is_white_space(s[start])
            invariant
                pos <= start <= s.len(),
                forall|j: int| pos <= j < start ==> is_white_space(s@[j]),
            decreases s.len() - start,
        {
            start += 1;
        }
        let ghost from = s@.skip(pos as int);
        let ghost t = s@.skip(start as int);
        proof {
            assert forall|j: int| 0 <= j < start - pos implies is_white_space(from[j]) by {
                assert(from[j] == s@[pos + j]);
            }
            if start < s.len() {
                assert(from[start - pos] == s@[start as int]);
            }
            lemma_trim_start_is(from, start - pos);
            assert(from.skip(start - pos) =~= t);
        }
        if start >= s.len() {
            proof {
                assert(views_of(words@) + Seq::<Seq<char>>::empty() =~= views_of(words@));
            }
            break ;
        }
        let mut end: usize = start;
        while end < s.len() && !char_is_white_space(s[end])
            invariant
                start <= end <= s.len(),
                forall|j: int| start <= j < end ==> !is_white_space(s@[j]),
            decreases s.len() - end,
        {
            end += 1;
        }
        let word = slice_of(s, start, end);
        proof {
            assert forall|j: int| 0 <= j < end - start implies !is_white_space(t[j]) by {
                assert(t[j] == s@[start + j]);
            }
            if end < s.len() {
                assert(t[end - start] == s@[end as int]);
            }
            assert(t[0] == s@[start as int]);
            lemma_word_len_is(t, end - start);
            assert(end > start);
            assert(t.take(end - start) =~= word@);
            assert(t.skip(end - start) =~= s@.skip(end as int));
            assert(views_of(words@.push(word)) =~= views_of(words@) + seq![word@]);
            assert(views_of(words@) + (seq![word@] + words_of(s@.skip(end as int))) =~= views_of(
                words@.push(word),
            ) + words_of(s@.skip(end as int)));
        }
        words.push(word);
        pos = end;
    }
    words
}

} // verus!
