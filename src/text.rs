//! Character-level helpers shared by the codecs of this crate.
use vstd::prelude::*;
use vstd::std_specs::iter::IteratorSpec;

verus! {

/// Index of the first occurrence of `c` in `s`, or `s.len()` when absent.
pub open spec fn first_index(s: Seq<char>, c: char) -> int
    decreases s.len(),
{
    if s.len() == 0 {
        0
    } else if s[0] == c {
        0
    } else {
        1 + first_index(s.drop_first(), c)
    }
}

/// The pieces of `s` between occurrences of `sep`: one more piece than
/// there are separators, empty pieces kept.
pub open spec fn split_fields(s: Seq<char>, sep: char) -> Seq<Seq<char>>
    decreases s.len(),
{
    let i = first_index(s, sep);
    if 0 <= i < s.len() {
        seq![s.take(i)] + split_fields(s.skip(i + 1), sep)
    } else {
        seq![s]
    }
}

/// A line ended by a newline, without the carriage return that may stand
/// before that newline.
pub open spec fn without_cr(line: Seq<char>) -> Seq<char> {
    if line.len() > 0 && line.last() == '\r' {
        line.drop_last()
    } else {
        line
    }
}

/// The lines of `s`, each ended by a newline or by a carriage return and a
/// newline, except perhaps the last; no line follows a final newline.
pub open spec fn split_lines(s: Seq<char>) -> Seq<Seq<char>>
    decreases s.len(),
{
    let i = first_index(s, '\n');
    if s.len() == 0 {
        Seq::empty()
    } else if 0 <= i < s.len() {
        seq![without_cr(s.take(i))] + split_lines(s.skip(i + 1))
    } else {
        seq![s]
    }
}

/// Each line followed by a newline.
pub open spec fn joined_lines(lines: Seq<Seq<char>>) -> Seq<char>
    decreases lines.len(),
{
    if lines.len() == 0 {
        Seq::empty()
    } else {
        joined_lines(lines.drop_last()) + lines.last() + seq!['\n']
    }
}

pub proof fn lemma_first_index_at(s: Seq<char>, c: char, i: int)
    requires
        0 <= i <= s.len(),
        forall|k: int| 0 <= k < i ==> s[k] != c,
        i == s.len() || s[i] == c,
    ensures
        first_index(s, c) == i,
    decreases i,
{
    if i > 0 {
        lemma_first_index_at(s.drop_first(), c, i - 1);
    }
}

pub proof fn lemma_first_index_absent(s: Seq<char>, c: char)
    requires
        !s.contains(c),
    ensures
        first_index(s, c) == s.len(),
{
    lemma_first_index_at(s, c, s.len() as int);
}

/// Fields joined by a separator that none of them holds split back apart.
pub proof fn lemma_split_fields_join(a: Seq<char>, rest: Seq<char>, sep: char)
    requires
        !a.contains(sep),
    ensures
        split_fields(a + seq![sep] + rest, sep) == seq![a] + split_fields(rest, sep),
{
    let s = a + seq![sep] + rest;
    assert forall|k: int| 0 <= k < a.len() implies s[k] != sep by {
        assert(s[k] == a[k]);
    }
    lemma_first_index_at(s, sep, a.len() as int);
    assert(s.take(a.len() as int) =~= a);
    assert(s.skip(a.len() as int + 1) =~= rest);
}

/// Lines that hold no newline and do not end in a carriage return come back
/// from their joined text, ahead of the lines of whatever follows it.
pub proof fn lemma_split_joined_lines(lines: Seq<Seq<char>>, tail: Seq<char>)
    requires
        forall|k: int|
            0 <= k < lines.len() ==> !(#[trigger] lines[k]).contains('\n') && without_cr(lines[k])
                == lines[k],
    ensures
        split_lines(joined_lines(lines) + tail) == lines + split_lines(tail),
    decreases lines.len(),
{
    if lines.len() == 0 {
        assert(joined_lines(lines) + tail =~= tail);
        assert(lines + split_lines(tail) =~= split_lines(tail));
    } else {
        let rest = lines.drop_first();
        lemma_joined_lines_front(lines);
        let s = joined_lines(lines) + tail;
        let a = lines[0];
        assert(s =~= a + seq!['\n'] + (joined_lines(rest) + tail));
        assert forall|k: int| 0 <= k < a.len() implies s[k] != '\n' by {
            assert(s[k] == a[k]);
        }
        lemma_first_index_at(s, '\n', a.len() as int);
        assert(s.take(a.len() as int) =~= a);
        assert(s.skip(a.len() as int + 1) =~= joined_lines(rest) + tail);
        assert forall|k: int|
            0 <= k < rest.len() implies !(#[trigger] rest[k]).contains('\n') && without_cr(rest[k])
                == rest[k] by {
            assert(rest[k] == lines[k + 1]);
        }
        lemma_split_joined_lines(rest, tail);
        assert(lines =~= seq![a] + rest);
        assert(lines + split_lines(tail) =~= seq![a] + (rest + split_lines(tail)));
    }
}

/// A last line without a newline after it is read as it stands.
pub proof fn lemma_split_last_line(line: Seq<char>)
    requires
        line.len() > 0,
        !line.contains('\n'),
    ensures
        split_lines(line) == seq![line],
{
    lemma_first_index_absent(line, '\n');
}

/// The joined text of lines starts with the first line and its newline.
pub proof fn lemma_joined_lines_front(lines: Seq<Seq<char>>)
    requires
        lines.len() > 0,
    ensures
        joined_lines(lines) == lines[0] + seq!['\n'] + joined_lines(lines.drop_first()),
    decreases lines.len(),
{
    if lines.len() == 1 {
        assert(lines.drop_last() =~= Seq::<Seq<char>>::empty());
        assert(lines.drop_first() =~= Seq::<Seq<char>>::empty());
        assert(joined_lines(lines) =~= lines[0] + seq!['\n'] + joined_lines(lines.drop_first()));
    } else {
        lemma_joined_lines_front(lines.drop_last());
        assert(lines.drop_last().drop_first() =~= lines.drop_first().drop_last());
        assert(lines.drop_first().last() == lines.last());
        assert(joined_lines(lines) =~= lines[0] + seq!['\n'] + joined_lines(lines.drop_first()));
    }
}

/// Relies on `FromIterator<char>` for `String`: the string holds the given
/// characters, in order.
#[verifier::external_body]
pub(crate) fn string_from_chars(cs: &[char]) -> (r: String)
    ensures
        r@ == cs@,
{
    cs.iter().collect()
}

/// The characters of `cs` from `from` up to `to`, as a string.
pub(crate) fn string_of_range(cs: &Vec<char>, from: usize, to: usize) -> (r: String)
    requires
        from <= to <= cs@.len(),
    ensures
        r@ == cs@.subrange(from as int, to as int),
{
    let mut part: Vec<char> = Vec::new();
    let mut i = from;
    while i < to
        invariant
            from <= i <= to <= cs@.len(),
            part@ == cs@.subrange(from as int, i as int),
        decreases to - i,
    {
        part.push(cs[i]);
        i = i + 1;
        assert(part@ =~= cs@.subrange(from as int, i as int));
    }
    string_from_chars(part.as_slice())
}

/// Index of the first `c` in `cs` at or after `from`, or the length.
fn find_from(cs: &Vec<char>, c: char, from: usize) -> (r: usize)
    requires
        from <= cs@.len(),
    ensures
        from <= r <= cs@.len(),
        first_index(cs@.skip(from as int), c) == r - from,
{
    let mut j = from;
    while j < cs.len() && cs[j] != c
        invariant
            from <= j <= cs@.len(),
            forall|k: int| from <= k < j ==> cs@[k] != c,
        decreases cs@.len() - j,
    {
        j = j + 1;
    }
    let ghost t = cs@.skip(from as int);
    assert forall|k: int| 0 <= k < j - from implies t[k] != c by {
        assert(t[k] == cs@[from + k]);
    }
    proof {
        lemma_first_index_at(t, c, (j - from) as int);
    }
    j
}

/// The pieces of `s` between occurrences of `sep`.
pub fn split_fields_of(s: &str, sep: char) -> (r: Vec<String>)
    ensures
        r@.len() == split_fields(s@, sep).len(),
        forall|k: int| 0 <= k < r@.len() ==> (#[trigger] r@[k])@ == split_fields(s@, sep)[k],
{
    let cs = chars_of(s);
    let mut out: Vec<String> = Vec::new();
    let mut start: usize = 0;
    let ghost views: Seq<Seq<char>> = Seq::empty();
    assert(cs@.skip(0) =~= cs@);
    assert(views + split_fields(cs@, sep) =~= split_fields(cs@, sep));
    loop
        invariant_except_break
            split_fields(s@, sep) == views + split_fields(cs@.skip(start as int), sep),
        invariant
            start <= cs@.len(),
            cs@ == s@,
            out@.len() == views.len(),
            forall|k: int| 0 <= k < out@.len() ==> (#[trigger] out@[k])@ == views[k],
        ensures
            split_fields(s@, sep) == views,
            out@.len() == views.len(),
            forall|k: int| 0 <= k < out@.len() ==> (#[trigger] out@[k])@ == views[k],
        decreases cs@.len() - start,
    {
        let j = find_from(&cs, sep, start);
        let ghost t = cs@.skip(start as int);
        let piece = string_of_range(&cs, start, j);
        assert(piece@ =~= t.take(j - start));
        out.push(piece);
        proof {
            views = views.push(piece@);
        }
        if j < cs.len() {
            assert(t.skip(j - start + 1) =~= cs@.skip(j + 1));
            assert(seq![t.take(j - start)] + split_fields(t.skip(j - start + 1), sep) =~=
                split_fields(t, sep));
            start = j + 1;
            assert(views.drop_last() + seq![piece@] =~= views);
        } else {
            assert(t.take(j - start) =~= t);
            assert(views.drop_last() + seq![piece@] =~= views);
            break;
        }
    }
    out
}

/// The lines of `s`.
pub fn split_lines_of(s: &str) -> (r: Vec<String>)
    ensures
        r@.len() == split_lines(s@).len(),
        forall|k: int| 0 <= k < r@.len() ==> (#[trigger] r@[k])@ == split_lines(s@)[k],
{
    let cs = chars_of(s);
    let mut out: Vec<String> = Vec::new();
    let mut start: usize = 0;
    let ghost views: Seq<Seq<char>> = Seq::empty();
    assert(cs@.skip(0) =~= cs@);
    assert(views + split_lines(cs@) =~= split_lines(cs@));
    while start < cs.len()
        invariant
            start <= cs@.len(),
            cs@ == s@,
            out@.len() == views.len(),
            forall|k: int| 0 <= k < out@.len() ==> (#[trigger] out@[k])@ == views[k],
            split_lines(s@) == views + split_lines(cs@.skip(start as int)),
        decreases cs@.len() - start,
    {
        let j = find_from(&cs, '\n', start);
        let ghost t = cs@.skip(start as int);
        let end = if j < cs.len() && j > start && cs[j - 1] == '\r' {
            j - 1
        } else {
            j
        };
        let piece = string_of_range(&cs, start, end);
        proof {
            if j < cs.len() {
                assert(piece@ =~= without_cr(t.take(j - start)));
            } else {
                assert(piece@ =~= t.take(j - start));
            }
        }
        out.push(piece);
        proof {
            views = views.push(piece@);
        }
        if j < cs.len() {
            assert(t.skip(j - start + 1) =~= cs@.skip(j + 1));
            start = j + 1;
        } else {
            assert(t.take(j - start) =~= t);
            assert(cs@.skip(cs@.len() as int) =~= Seq::<char>::empty());
            start = j;
        }
        assert(views.drop_last() + seq![piece@] =~= views);
    }
    assert(cs@.skip(start as int) =~= Seq::<char>::empty());
    assert(views + split_lines(Seq::<char>::empty()) =~= views);
    out
}

/// The characters of `s`, in order.
pub fn chars_of(s: &str) -> (r: Vec<char>)
    ensures
        r@ == s@,
{
    let mut it = s.chars();
    let mut out: Vec<char> = Vec::new();
    loop
        invariant
            out@ + it.remaining() == s@,
            it.decrease() is Some,
        ensures
            out@ == s@,
        decreases it.decrease()->0,
    {
        match it.next() {
            Some(c) => {
                out.push(c);
            },
            None => {
                assert(out@ + it.remaining() =~= out@);
                break;
            },
        }
    }
    out
}

/// `s` without the copies of `c` at its end.
pub open spec fn trim_end_char(s: Seq<char>, c: char) -> Seq<char>
    decreases s.len(),
{
    if s.len() > 0 && s.last() == c {
        trim_end_char(s.drop_last(), c)
    } else {
        s
    }
}

/// `s` without the copies of `c` at its end.
pub fn trim_end_matching(s: &str, c: char) -> (r: String)
    ensures
        r@ == trim_end_char(s@, c),
{
    let cs = chars_of(s);
    let mut end = cs.len();
    assert(cs@.take(cs@.len() as int) =~= cs@);
    while end > 0 && cs[end - 1] == c
        invariant
            end <= cs@.len(),
            cs@ == s@,
            trim_end_char(s@, c) == trim_end_char(cs@.take(end as int), c),
        decreases end,
    {
        assert(cs@.take(end as int).drop_last() =~= cs@.take(end - 1));
        end = end - 1;
    }
    assert(cs@.subrange(0, end as int) =~= cs@.take(end as int));
    string_of_range(&cs, 0, end)
}

/// White space as `char::is_whitespace` defines it: the Unicode
/// `White_Space` characters.
pub open spec fn is_ws(c: char) -> bool {
    let u = c as u32;
    (0x9 <= u <= 0xd) || u == 0x20 || u == 0x85 || u == 0xa0 || u == 0x1680 || (0x2000 <= u
        <= 0x200a) || u == 0x2028 || u == 0x2029 || u == 0x202f || u == 0x205f || u == 0x3000
}

/// `s` without its leading white space.
pub open spec fn trim_start_ws(s: Seq<char>) -> Seq<char>
    decreases s.len(),
{
    if s.len() > 0 && is_ws(s[0]) {
        trim_start_ws(s.drop_first())
    } else {
        s
    }
}

/// `s` without its trailing white space.
pub open spec fn trim_end_ws(s: Seq<char>) -> Seq<char>
    decreases s.len(),
{
    if s.len() > 0 && is_ws(s.last()) {
        trim_end_ws(s.drop_last())
    } else {
        s
    }
}

/// `s` without leading and trailing white space, as `str::trim` gives it.
pub open spec fn trim_ws(s: Seq<char>) -> Seq<char> {
    trim_end_ws(trim_start_ws(s))
}

fn is_ws_char(c: char) -> (r: bool)
    ensures
        r == is_ws(c),
{
    let u = c as u32;
    (0x9 <= u && u <= 0xd) || u == 0x20 || u == 0x85 || u == 0xa0 || u == 0x1680 || (0x2000 <= u
        && u <= 0x200a) || u == 0x2028 || u == 0x2029 || u == 0x202f || u == 0x205f || u == 0x3000
}

/// `s` without leading and trailing white space.
pub fn trim_ws_of(s: &str) -> (r: String)
    ensures
        r@ == trim_ws(s@),
{
    let cs = chars_of(s);
    let n = cs.len();
    let mut start: usize = 0;
    assert(cs@.skip(0) =~= cs@);
    while start < n && is_ws_char(cs[start])
        invariant
            start <= n == cs@.len(),
            cs@ == s@,
            trim_start_ws(s@) == trim_start_ws(cs@.skip(start as int)),
        decreases n - start,
    {
        assert(cs@.skip(start as int).drop_first() =~= cs@.skip(start + 1));
        start = start + 1;
    }
    let ghost mid = cs@.skip(start as int);
    assert(trim_start_ws(mid) == mid);
    let mut end: usize = n;
    assert(mid =~= cs@.subrange(start as int, n as int));
    while end > start && is_ws_char(cs[end - 1])
        invariant
            start <= end <= n == cs@.len(),
            trim_ws(s@) == trim_end_ws(cs@.subrange(start as int, end as int)),
        decreases end,
    {
        assert(cs@.subrange(start as int, end as int).drop_last() =~= cs@.subrange(
            start as int,
            end - 1,
        ));
        end = end - 1;
    }
    string_of_range(&cs, start, end)
}

} // verus!
