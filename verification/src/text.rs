//! Character-level text primitives shared by the comment formatter and the
//! placement engines. Every function is specified over `Seq<char>`, the view of
//! `str` and `String`.

use vstd::prelude::*;
use vstd::string::*;
use vstd::utf8::*;

verus! {

/// Whether `c` carries the Unicode `White_Space` property.
pub open spec fn is_whitespace(c: char) -> bool {
    let n = c as u32;
    ||| 0x09 <= n <= 0x0D
    ||| n == 0x20
    ||| n == 0x85
    ||| n == 0xA0
    ||| n == 0x1680
    ||| 0x2000 <= n <= 0x200A
    ||| n == 0x2028
    ||| n == 0x2029
    ||| n == 0x202F
    ||| n == 0x205F
    ||| n == 0x3000
}

/// Executable test for the `White_Space` property.
pub fn char_is_whitespace(c: char) -> (b: bool)
    ensures
        b == is_whitespace(c),
{
    let n: u32 = c as u32;
    (0x09 <= n && n <= 0x0D) || n == 0x20 || n == 0x85 || n == 0xA0 || n == 0x1680 || (0x2000 <= n
        && n <= 0x200A) || n == 0x2028 || n == 0x2029 || n == 0x202F || n == 0x205F || n == 0x3000
}

/// Number of bytes that `c` occupies in UTF-8.
pub open spec fn utf8_width(c: char) -> nat {
    let n = c as u32;
    if n < 0x80 {
        1
    } else if n < 0x800 {
        2
    } else if n < 0x10000 {
        3
    } else {
        4
    }
}

/// Number of whitespace characters at the start of `s`.
pub open spec fn leading_whitespace(s: Seq<char>) -> nat
    decreases s.len(),
{
    if s.len() > 0 && is_whitespace(s[0]) {
        1 + leading_whitespace(s.drop_first())
    } else {
        0
    }
}

/// Number of whitespace characters at the end of `s`.
pub open spec fn trailing_whitespace(s: Seq<char>) -> nat
    decreases s.len(),
{
    if s.len() > 0 && is_whitespace(s.last()) {
        1 + trailing_whitespace(s.drop_last())
    } else {
        0
    }
}

/// `s` without its leading whitespace.
pub open spec fn trim_start(s: Seq<char>) -> Seq<char> {
    s.skip(leading_whitespace(s) as int)
}

/// `s` without its trailing whitespace.
pub open spec fn trim_end(s: Seq<char>) -> Seq<char> {
    s.take(s.len() - trailing_whitespace(s))
}

/// `s` without leading and trailing whitespace.
pub open spec fn trim(s: Seq<char>) -> Seq<char> {
    trim_end(trim_start(s))
}

/// Total UTF-8 width of the characters of `s`.
pub open spec fn byte_width(s: Seq<char>) -> nat
    decreases s.len(),
{
    if s.len() == 0 {
        0
    } else {
        utf8_width(s[0]) + byte_width(s.drop_first())
    }
}

/// Width in bytes of the whitespace that `line` starts with.
pub open spec fn indentation(line: Seq<char>) -> nat {
    byte_width(line.take(leading_whitespace(line) as int))
}

/// Whether `line` holds nothing but whitespace.
pub open spec fn is_blank(line: Seq<char>) -> bool {
    first_visible(line) is None
}

/// Whether `line`, once trimmed, starts with the comment marker.
pub open spec fn is_comment_line(line: Seq<char>) -> bool {
    first_visible(line) == Some('#')
}

/// The leading whitespace is whitespace, and what follows it is not.
pub proof fn lemma_leading_whitespace_bound(s: Seq<char>)
    ensures
        leading_whitespace(s) <= s.len(),
        forall|i: int| 0 <= i < leading_whitespace(s) ==> is_whitespace(#[trigger] s[i]),
        leading_whitespace(s) < s.len() ==> !is_whitespace(s[leading_whitespace(s) as int]),
    decreases s.len(),
{
    if s.len() > 0 && is_whitespace(s[0]) {
        let t = s.drop_first();
        lemma_leading_whitespace_bound(t);
        assert forall|i: int| 0 <= i < leading_whitespace(s) implies is_whitespace(
            #[trigger] s[i],
        ) by {
            if i > 0 {
                assert(s[i] == t[i - 1]);
            }
        }
        if leading_whitespace(s) < s.len() {
            assert(s[leading_whitespace(s) as int] == t[leading_whitespace(t) as int]);
        }
    }
}

/// A prefix of whitespace that ends at a visible character, or at the end, is
/// the whole leading whitespace.
pub proof fn lemma_leading_whitespace_is(s: Seq<char>, k: int)
    requires
        0 <= k <= s.len(),
        forall|i: int| 0 <= i < k ==> is_whitespace(#[trigger] s[i]),
        k < s.len() ==> !is_whitespace(s[k]),
    ensures
        leading_whitespace(s) == k,
    decreases s.len(),
{
    if k > 0 {
        let t = s.drop_first();
        assert(is_whitespace(s[0]));
        assert forall|i: int| 0 <= i < k - 1 implies is_whitespace(#[trigger] t[i]) by {
            assert(t[i] == s[i + 1]);
        }
        if k - 1 < t.len() {
            assert(t[k - 1] == s[k]);
        }
        lemma_leading_whitespace_is(t, k - 1);
    }
}

/// A suffix of whitespace that starts after a visible character, or at the
/// start, is the whole trailing whitespace.
pub proof fn lemma_trailing_whitespace_is(s: Seq<char>, k: int)
    requires
        0 <= k <= s.len(),
        forall|i: int| s.len() - k <= i < s.len() ==> is_whitespace(#[trigger] s[i]),
        k < s.len() ==> !is_whitespace(s[s.len() - k - 1]),
    ensures
        trailing_whitespace(s) == k,
    decreases s.len(),
{
    if k > 0 {
        let t = s.drop_last();
        assert(is_whitespace(s[s.len() - 1]));
        assert forall|i: int| t.len() - (k - 1) <= i < t.len() implies is_whitespace(
            #[trigger] t[i],
        ) by {
            assert(t[i] == s[i]);
        }
        if k - 1 < t.len() {
            assert(t[t.len() - (k - 1) - 1] == s[s.len() - k - 1]);
        }
        lemma_trailing_whitespace_is(t, k - 1);
    }
}

/// The characters of `s`, in order.
pub fn chars_of(s: &str) -> (v: Vec<char>)
    ensures
        v@ == s@,
{
    let mut v: Vec<char> = Vec::new();
    for c in it: s.chars()
        invariant
            v@ == it.seq().take(it.index() as int),
            it.seq() == s@,
    {
        v.push(c);
    }
    v
}

/// `String::push`: appends one character to the end of the string.
#[verifier::external_body]
fn push_char(s: &mut String, c: char)
    ensures
        final(s)@ == old(s)@.push(c),
{
    s.push(c);
}

/// The string that holds the characters `v[from..to]`.
pub fn string_of_range(v: &Vec<char>, from: usize, to: usize) -> (s: String)
    requires
        from <= to <= v.len(),
    ensures
        s@ == v@.subrange(from as int, to as int),
{
    let mut s = String::new();
    let mut i: usize = from;
    while i < to
        invariant
            from <= i <= to <= v.len(),
            s@ == v@.subrange(from as int, i as int),
        decreases to - i,
    {
        push_char(&mut s, v[i]);
        i += 1;
    }
    s
}


/// The width of a text is the length of its UTF-8 encoding.
pub proof fn lemma_byte_width_is_encoded_len(s: Seq<char>)
    ensures
        byte_width(s) == encode_utf8(s).len(),
    decreases s.len(),
{
    if s.len() > 0 {
        char_is_scalar(s[0]);
        lemma_byte_width_is_encoded_len(s.drop_first());
    }
}

/// Appending one character adds its width.
pub proof fn lemma_byte_width_push(s: Seq<char>, c: char)
    ensures
        byte_width(s.push(c)) == byte_width(s) + utf8_width(c),
    decreases s.len(),
{
    if s.len() == 0 {
        assert(s.push(c).drop_first() =~= s);
    } else {
        assert(s.push(c).drop_first() =~= s.drop_first().push(c));
        lemma_byte_width_push(s.drop_first(), c);
    }
}

/// A prefix is no wider than the whole.
pub proof fn lemma_byte_width_take(s: Seq<char>, k: int)
    requires
        0 <= k <= s.len(),
    ensures
        byte_width(s.take(k)) <= byte_width(s),
    decreases s.len() - k,
{
    if k < s.len() {
        lemma_byte_width_take(s, k + 1);
        assert(s.take(k + 1) =~= s.take(k).push(s[k]));
        lemma_byte_width_push(s.take(k), s[k]);
    } else {
        assert(s.take(k) =~= s);
    }
}

/// Number of bytes that `c` occupies in UTF-8.
pub fn char_width(c: char) -> (w: usize)
    ensures
        w == utf8_width(c),
{
    let n: u32 = c as u32;
    if n < 0x80 {
        1
    } else if n < 0x800 {
        2
    } else if n < 0x10000 {
        3
    } else {
        4
    }
}

/// The first character of `line` that is not whitespace.
pub open spec fn first_visible(line: Seq<char>) -> Option<char> {
    if leading_whitespace(line) < line.len() {
        Some(line[leading_whitespace(line) as int])
    } else {
        None
    }
}

/// Measures the whitespace that `line` starts with, as its width in bytes,
/// and reads the first character after it.
pub fn measure_indentation(line: &str) -> (r: (usize, Option<char>))
    ensures
        r.0 == indentation(line@),
        r.1 == first_visible(line@),
{
    let bytes: usize = line.as_bytes().len();
    let chars = chars_of(line);
    let mut count: usize = 0;
    let mut width: usize = 0;
    proof {
        lemma_byte_width_is_encoded_len(line@);
        lemma_byte_width_take(line@, 0);
        assert(line@.take(0) =~= Seq::<char>::empty());
    }
    while count < chars.len() && char_is_whitespace(chars[count])
        invariant
            chars@ == line@,
            count <= chars.len(),
            width == byte_width(line@.take(count as int)),
            byte_width(line@) == bytes,
            forall|i: int| 0 <= i < count ==> is_whitespace(#[trigger] line@[i]),
        decreases chars.len() - count,
    {
        proof {
            assert(line@.take(count + 1) =~= line@.take(count as int).push(line@[count as int]));
            lemma_byte_width_push(line@.take(count as int), line@[count as int]);
            lemma_byte_width_take(line@, count + 1);
        }
        width = width + char_width(chars[count]);
        count = count + 1;
    }
    proof {
        lemma_leading_whitespace_is(line@, count as int);
    }
    let first = if count < chars.len() {
        Some(chars[count])
    } else {
        None
    };
    (width, first)
}

/// The views of a list of strings.
pub open spec fn views(lines: Seq<String>) -> Seq<Seq<char>> {
    Seq::new(lines.len(), |i: int| lines[i]@)
}

/// Index of the first occurrence of `c` in `s`, or `s.len()` if there is none.
pub open spec fn first_index(s: Seq<char>, c: char) -> int
    decreases s.len(),
{
    if s.len() == 0 || s[0] == c {
        0
    } else {
        1 + first_index(s.drop_first(), c)
    }
}

/// The first index of `c` is within the text, nothing before it is `c`,
/// and where it is not the end, `c` stands there.
pub proof fn lemma_first_index(s: Seq<char>, c: char)
    ensures
        0 <= first_index(s, c) <= s.len(),
        forall|i: int| 0 <= i < first_index(s, c) ==> #[trigger] s[i] != c,
        first_index(s, c) < s.len() ==> s[first_index(s, c)] == c,
    decreases s.len(),
{
    if !(s.len() == 0 || s[0] == c) {
        let t = s.drop_first();
        lemma_first_index(t, c);
        assert forall|i: int| 0 <= i < first_index(s, c) implies #[trigger] s[i] != c by {
            if i > 0 {
                assert(s[i] == t[i - 1]);
            }
        }
    }
}

/// The first position that holds `c` after a stretch without it is the first
/// index of `c`.
pub proof fn lemma_first_index_is(s: Seq<char>, c: char, k: int)
    requires
        0 <= k <= s.len(),
        forall|i: int| 0 <= i < k ==> #[trigger] s[i] != c,
        k < s.len() ==> s[k] == c,
    ensures
        first_index(s, c) == k,
    decreases s.len(),
{
    if k > 0 {
        let t = s.drop_first();
        assert(s[0] != c);
        assert forall|i: int| 0 <= i < k - 1 implies #[trigger] t[i] != c by {
            assert(t[i] == s[i + 1]);
        }
        if k - 1 < t.len() {
            assert(t[k - 1] == s[k]);
        }
        lemma_first_index_is(t, c, k - 1);
    }
}

/// `line` without one carriage return at its end.
pub open spec fn strip_carriage_return(line: Seq<char>) -> Seq<char> {
    if line.len() > 0 && line.last() == '\r' {
        line.drop_last()
    } else {
        line
    }
}

/// The lines of `text`. A line ends at a line feed; a carriage return just
/// before that line feed belongs to the line ending. The last line need not
/// end in a line feed, and an empty last line is not a line.
pub open spec fn lines_of(text: Seq<char>) -> Seq<Seq<char>>
    decreases text.len(),
{
    if text.len() == 0 {
        Seq::empty()
    } else {
        let k = first_index(text, '\n');
        if 0 <= k < text.len() {
            seq![strip_carriage_return(text.take(k))] + lines_of(text.skip(k + 1))
        } else {
            seq![text]
        }
    }
}

/// The parts joined, with `separator` between neighbours.
pub open spec fn joined(parts: Seq<Seq<char>>, separator: Seq<char>) -> Seq<char>
    decreases parts.len(),
{
    if parts.len() == 0 {
        Seq::empty()
    } else if parts.len() == 1 {
        parts[0]
    } else {
        joined(parts.drop_last(), separator) + separator + parts.last()
    }
}

/// The lines joined by single line feeds.
pub open spec fn join_lines(lines: Seq<Seq<char>>) -> Seq<char> {
    joined(lines, seq!['\n'])
}

/// Whether `text` ends with a line feed.
pub open spec fn ends_with_line_feed(text: Seq<char>) -> bool {
    text.len() > 0 && text.last() == '\n'
}

/// Splits `content` into its lines.
pub fn split_lines(content: &str) -> (lines: Vec<String>)
    ensures
        views(lines@) == lines_of(content@),
{
    let chars = chars_of(content);
    let mut lines: Vec<String> = Vec::new();
    let mut start: usize = 0;
    assert(content@.skip(0) =~= content@);
    while start < chars.len()
        invariant
            chars@ == content@,
            start <= chars.len(),
            views(lines@) + lines_of(content@.skip(start as int)) == lines_of(content@),
        decreases chars.len() - start,
    {
        let ghost rest = content@.skip(start as int);
        let mut end: usize = start;
        while end < chars.len() && chars[end] != '\n'
            invariant
                chars@ == content@,
                start <= end <= chars.len(),
                rest == content@.skip(start as int),
                forall|i: int| 0 <= i < end - start ==> #[trigger] rest[i] != '\n',
            decreases chars.len() - end,
        {
            end += 1;
        }
        proof {
            lemma_first_index_is(rest, '\n', end - start);
        }
        let ghost before = views(lines@);
        if end < chars.len() {
            let stop: usize = if end > start && chars[end - 1] == '\r' {
                end - 1
            } else {
                end
            };
            let line = string_of_range(&chars, start, stop);
            proof {
                assert(rest.take(end - start) =~= content@.subrange(start as int, end as int));
                assert(line@ =~= strip_carriage_return(rest.take(end - start)));
                assert(rest.skip(end - start + 1) =~= content@.skip(end + 1));
            }
            lines.push(line);
            proof {
                assert(views(lines@) =~= before + seq![line@]);
                assert(before + seq![line@] + lines_of(content@.skip(end + 1)) =~= before + (
                seq![line@] + lines_of(content@.skip(end + 1))));
            }
            start = end + 1;
        } else {
            let line = string_of_range(&chars, start, end);
            proof {
                assert(line@ =~= rest);
                assert(lines_of(content@.skip(end as int)) =~= Seq::<Seq<char>>::empty());
            }
            lines.push(line);
            proof {
                assert(views(lines@) =~= before + seq![line@]);
            }
            start = end;
        }
    }
    proof {
        assert(lines_of(content@.skip(start as int)) =~= Seq::<Seq<char>>::empty());
        assert(views(lines@) + Seq::<Seq<char>>::empty() =~= views(lines@));
    }
    lines
}

/// Joins `parts`, with `separator` between neighbours.
pub fn join_strings(parts: &Vec<String>, separator: &str) -> (text: String)
    ensures
        text@ == joined(views(parts@), separator@),
{
    let mut text = String::new();
    let mut i: usize = 0;
    proof {
        assert(views(parts@).take(0) =~= Seq::<Seq<char>>::empty());
    }
    while i < parts.len()
        invariant
            i <= parts.len(),
            text@ == joined(views(parts@).take(i as int), separator@),
        decreases parts.len() - i,
    {
        if i > 0 {
            text.append(separator);
        }
        text.append(parts[i].as_str());
        proof {
            let next = views(parts@).take(i + 1);
            assert(next.drop_last() =~= views(parts@).take(i as int));
            assert(next.last() == parts@[i as int]@);
            if i == 0 {
                assert(text@ =~= next[0]);
            }
        }
        i += 1;
    }
    proof {
        assert(views(parts@).take(parts.len() as int) =~= views(parts@));
    }
    text
}

/// Joins `lines` with single line feeds.
pub fn join_with_line_feeds(lines: &Vec<String>) -> (text: String)
    ensures
        text@ == join_lines(views(lines@)),
{
    proof {
        reveal_strlit("\n");
        assert("\n"@ =~= seq!['\n']);
    }
    join_strings(lines, "\n")
}

/// The text made of `count` spaces.
pub open spec fn spaces(count: nat) -> Seq<char> {
    Seq::new(count, |i: int| ' ')
}

/// A string of `count` spaces.
pub fn repeat_space(count: usize) -> (s: String)
    ensures
        s@ == spaces(count as nat),
{
    let mut s = String::new();
    let mut i: usize = 0;
    while i < count
        invariant
            i <= count,
            s@ =~= spaces(i as nat),
        decreases count - i,
    {
        push_char(&mut s, ' ');
        i += 1;
    }
    s
}


/// Whether `content` ends with a line feed.
pub fn ends_with_newline(content: &str) -> (b: bool)
    ensures
        b == ends_with_line_feed(content@),
{
    let chars = chars_of(content);
    chars.len() > 0 && chars[chars.len() - 1] == '\n'
}


/// The names joined by dots.
pub open spec fn dotted(names: Seq<Seq<char>>) -> Seq<char> {
    joined(names, seq!['.'])
}

/// The dotted path made of `names` and, after them, `key`.
pub fn dotted_path(names: &Vec<String>, key: &str) -> (path: String)
    ensures
        path@ == dotted(views(names@).push(key@)),
{
    let ghost all = views(names@).push(key@);
    let mut path = String::new();
    let mut i: usize = 0;
    proof {
        reveal_strlit(".");
    }
    while i < names.len()
        invariant
            i <= names.len(),
            "."@ == seq!['.'],
            all == views(names@).push(key@),
            path@ == dotted(all.take(i as int)) + if i > 0 {
                seq!['.']
            } else {
                Seq::<char>::empty()
            },
        decreases names.len() - i,
    {
        path.append(names[i].as_str());
        path.append(".");
        proof {
            let next = all.take(i + 1);
            assert(next.drop_last() =~= all.take(i as int));
            assert(next.last() == names@[i as int]@);
            assert(path@ =~= dotted(next) + seq!['.']);
        }
        i += 1;
    }
    path.append(key);
    proof {
        assert(all.take(names.len() as int) =~= all.drop_last());
        assert(path@ =~= dotted(all));
    }
    path
}


/// Whether `s` starts with the character `c`.
pub fn starts_with_char(s: &str, c: char) -> (b: bool)
    ensures
        b == (s@.len() > 0 && s@[0] == c),
{
    let chars = chars_of(s);
    chars.len() > 0 && chars[0] == c
}

} // verus!
