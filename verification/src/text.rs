//! Texts as sequences of characters: trimming, searching, lines, lower case.

use vstd::prelude::*;
use vstd::string::StringExecFns;

verus! {

/// Whether `c` has the Unicode `White_Space` property.
pub open spec fn is_whitespace(c: char) -> bool {
    let u = c as u32;
    ||| 0x09 <= u <= 0x0D
    ||| u == 0x20
    ||| u == 0x85
    ||| u == 0xA0
    ||| u == 0x1680
    ||| 0x2000 <= u <= 0x200A
    ||| u == 0x2028
    ||| u == 0x2029
    ||| u == 0x202F
    ||| u == 0x205F
    ||| u == 0x3000
}

/// Decides [`is_whitespace`].
pub fn char_is_whitespace(c: char) -> (b: bool)
    ensures
        b == is_whitespace(c),
{
    let u: u32 = c as u32;
    (0x09 <= u && u <= 0x0D) || u == 0x20 || u == 0x85 || u == 0xA0 || u == 0x1680 || (0x2000 <= u
        && u <= 0x200A) || u == 0x2028 || u == 0x2029 || u == 0x202F || u == 0x205F || u == 0x3000
}

/// The characters of `s`, in order.
pub fn chars_of(s: &str) -> (v: Vec<char>)
    ensures
        v@ == s@,
{
    let mut v: Vec<char> = Vec::new();
    for c in it: s.chars()
        invariant
            it.seq() == s@,
            v@ == s@.take(it.index() as int),
    {
        v.push(c);
    }
    v
}

/// How many whitespace characters `s` starts with.
pub open spec fn leading_whitespace(s: Seq<char>) -> nat
    decreases s.len(),
{
    if s.len() > 0 && is_whitespace(s.first()) {
        1 + leading_whitespace(s.drop_first())
    } else {
        0
    }
}

/// How many whitespace characters `s` ends with.
pub open spec fn trailing_whitespace(s: Seq<char>) -> nat
    decreases s.len(),
{
    if s.len() > 0 && is_whitespace(s.last()) {
        1 + trailing_whitespace(s.drop_last())
    } else {
        0
    }
}

/// `s` without the whitespace that it starts and ends with.
pub open spec fn trimmed(s: Seq<char>) -> Seq<char> {
    let rest = s.skip(leading_whitespace(s) as int);
    rest.take(rest.len() - trailing_whitespace(rest))
}

proof fn lemma_leading_whitespace(s: Seq<char>, k: int)
    requires
        0 <= k <= s.len(),
        forall|i: int| 0 <= i < k ==> is_whitespace(s[i]),
        k < s.len() ==> !is_whitespace(s[k]),
    ensures
        leading_whitespace(s) == k,
    decreases k,
{
    if k > 0 {
        let rest = s.drop_first();
        assert forall|i: int| 0 <= i < k - 1 implies is_whitespace(rest[i]) by {
            assert(rest[i] == s[i + 1]);
        }
        if k - 1 < rest.len() {
            assert(rest[k - 1] == s[k]);
        }
        lemma_leading_whitespace(rest, k - 1);
    }
}

proof fn lemma_trailing_whitespace(s: Seq<char>, k: int)
    requires
        0 <= k <= s.len(),
        forall|i: int| s.len() - k <= i < s.len() ==> is_whitespace(s[i]),
        k < s.len() ==> !is_whitespace(s[s.len() - k - 1]),
    ensures
        trailing_whitespace(s) == k,
    decreases k,
{
    if k > 0 {
        let rest = s.drop_last();
        assert forall|i: int| rest.len() - (k - 1) <= i < rest.len() implies is_whitespace(
            rest[i],
        ) by {
            assert(rest[i] == s[i]);
        }
        if k - 1 < rest.len() {
            assert(rest[rest.len() - (k - 1) - 1] == s[s.len() - k - 1]);
        }
        lemma_trailing_whitespace(rest, k - 1);
    }
}

/// `s` without the whitespace around it.
pub fn trim<'a>(s: &'a str) -> (t: &'a str)
    ensures
        t@ == trimmed(s@),
{
    let len: usize = s.unicode_len();
    let mut start: usize = len;
    let mut end: usize = len;
    let mut seen: bool = false;
    let mut at: usize = 0;
    for c in it: s.chars()
        invariant
            it.seq() == s@,
            len == s@.len(),
            at == it.index(),
            at <= len,
            !seen ==> start == len && end == len && forall|i: int|
                0 <= i < at ==> is_whitespace(s@[i]),
            seen ==> start < end <= at && !is_whitespace(s@[start as int]) && !is_whitespace(
                s@[end - 1],
            ) && (forall|i: int| 0 <= i < start ==> is_whitespace(s@[i])) && (forall|i: int|
                end <= i < at ==> is_whitespace(s@[i])),
    {
        if !char_is_whitespace(c) {
            if !seen {
                start = at;
                seen = true;
            }
            end = at + 1;
        }
        at = at + 1;
    }
    proof {
        lemma_leading_whitespace(s@, start as int);
        let rest = s@.skip(start as int);
        assert forall|i: int| rest.len() - (len - end) <= i < rest.len() implies is_whitespace(
            rest[i],
        ) by {
            assert(rest[i] == s@[i + start]);
        }
        if seen {
            assert(rest[rest.len() - (len - end) - 1] == s@[end - 1]);
        }
        lemma_trailing_whitespace(rest, len - end);
        assert(rest.take(rest.len() - (len - end)) =~= s@.subrange(start as int, end as int));
    }
    s.substring_char(start, end)
}

/// Whether `needle` stands in `haystack` from index `at` on.
pub open spec fn occurs_at(haystack: Seq<char>, needle: Seq<char>, at: int) -> bool {
    &&& 0 <= at
    &&& at + needle.len() <= haystack.len()
    &&& haystack.subrange(at, at + needle.len()) == needle
}

/// Whether `needle` stands somewhere in `haystack`.
pub open spec fn contains(haystack: Seq<char>, needle: Seq<char>) -> bool {
    exists|at: int| occurs_at(haystack, needle, at)
}

/// Decides [`occurs_at`] for an index at which `needle` fits.
pub(crate) fn chars_occur_at(haystack: &Vec<char>, needle: &Vec<char>, at: usize) -> (b: bool)
    requires
        at + needle.len() <= haystack.len(),
    ensures
        b == occurs_at(haystack@, needle@, at as int),
{
    let mut i: usize = 0;
    while i < needle.len()
        invariant
            i <= needle.len(),
            at + needle.len() <= haystack.len(),
            forall|j: int| 0 <= j < i ==> haystack@[at + j] == needle@[j],
        decreases needle.len() - i,
    {
        if haystack[at + i] != needle[i] {
            assert(haystack@.subrange(at as int, at + needle.len())[i as int] != needle@[i as int]);
            return false;
        }
        i = i + 1;
    }
    assert(haystack@.subrange(at as int, at + needle.len()) =~= needle@);
    true
}

/// Decides [`contains`] on characters.
pub fn chars_contain(haystack: &Vec<char>, needle: &Vec<char>) -> (b: bool)
    ensures
        b == contains(haystack@, needle@),
{
    if needle.len() > haystack.len() {
        return false;
    }
    if needle.len() == 0 {
        assert(occurs_at(haystack@, needle@, 0)) by {
            assert(haystack@.subrange(0, 0) =~= needle@);
        }
        return true;
    }
    let last: usize = haystack.len() - needle.len();
    let mut at: usize = 0;
    while at <= last
        invariant
            last == haystack.len() - needle.len(),
            last < haystack.len(),
            at <= last + 1,
            forall|i: int| 0 <= i < at ==> !occurs_at(haystack@, needle@, i),
        decreases last + 1 - at,
    {
        if chars_occur_at(haystack, needle, at) {
            return true;
        }
        at = at + 1;
    }
    false
}

/// Whether `needle` stands somewhere in `haystack`.
pub fn str_contains(haystack: &str, needle: &str) -> (b: bool)
    ensures
        b == contains(haystack@, needle@),
{
    let h = chars_of(haystack);
    let n = chars_of(needle);
    chars_contain(&h, &n)
}

/// `text` in lower case, by the Unicode mapping that takes no locale.
pub uninterp spec fn lowercase(text: Seq<char>) -> Seq<char>;

/// `str::to_lowercase`: the lower-case form of `text`, which is a matter of the text alone.
#[verifier::external_body]
pub(crate) fn to_lowercase(text: &str) -> (lower: String)
    ensures
        lower@ == lowercase(text@),
{
    text.to_lowercase()
}

/// The index of the first line feed of `s`, or its length where it has none.
pub open spec fn line_end(s: Seq<char>) -> nat
    decreases s.len(),
{
    if s.len() == 0 || s.first() == '\n' {
        0
    } else {
        1 + line_end(s.drop_first())
    }
}

/// The first line of `s`: what stands before its first line feed, without the carriage
/// return that may precede that line feed.
pub open spec fn first_line(s: Seq<char>) -> Seq<char> {
    let end = line_end(s) as int;
    if 0 < end < s.len() && s[end - 1] == '\r' {
        s.take(end - 1)
    } else {
        s.take(end)
    }
}

/// What follows the first line of `s` and its line feed.
pub open spec fn after_first_line(s: Seq<char>) -> Seq<char> {
    if line_end(s) < s.len() {
        s.skip(line_end(s) as int + 1)
    } else {
        Seq::empty()
    }
}

/// The first `limit` lines of `s`, or all of them where it has fewer. A line ends with a
/// line feed or with the text; an empty text has no line.
pub open spec fn first_lines(s: Seq<char>, limit: nat) -> Seq<Seq<char>>
    decreases limit,
{
    if limit == 0 || s.len() == 0 {
        Seq::empty()
    } else {
        seq![first_line(s)] + first_lines(after_first_line(s), (limit - 1) as nat)
    }
}

/// `lines` in one text, with `separator` between each two of them.
pub open spec fn joined(lines: Seq<Seq<char>>, separator: char) -> Seq<char>
    decreases lines.len(),
{
    if lines.len() == 0 {
        Seq::empty()
    } else if lines.len() == 1 {
        lines[0]
    } else {
        joined(lines.drop_last(), separator) + seq![separator] + lines.last()
    }
}

proof fn lemma_line_end(s: Seq<char>, k: int)
    requires
        0 <= k <= s.len(),
        forall|i: int| 0 <= i < k ==> s[i] != '\n',
        k < s.len() ==> s[k] == '\n',
    ensures
        line_end(s) == k,
    decreases k,
{
    if k > 0 {
        let rest = s.drop_first();
        assert forall|i: int| 0 <= i < k - 1 implies rest[i] != '\n' by {
            assert(rest[i] == s[i + 1]);
        }
        if k - 1 < rest.len() {
            assert(rest[k - 1] == s[k]);
        }
        lemma_line_end(rest, k - 1);
    }
}

/// The first `limit` lines of `text`, with a line feed between each two of them.
pub fn head_lines(text: &str, limit: usize) -> (head: String)
    ensures
        head@ == joined(first_lines(text@, limit as nat), '\n'),
{
    let chars = chars_of(text);
    let len: usize = chars.len();
    let mut head = String::new();
    let mut at: usize = 0;
    let mut taken: usize = 0;
    let ghost mut done: Seq<Seq<char>> = Seq::empty();
    assert(text@.skip(0) =~= text@);
    assert(done + first_lines(text@, limit as nat) =~= first_lines(text@, limit as nat));
    while taken < limit && at < len
        invariant
            chars@ == text@,
            len == chars.len(),
            at <= len,
            taken <= limit,
            done.len() == taken,
            head@ == joined(done, '\n'),
            first_lines(text@, limit as nat) == done + first_lines(
                text@.skip(at as int),
                (limit - taken) as nat,
            ),
        decreases len - at,
    {
        let ghost rest = text@.skip(at as int);
        let mut end: usize = at;
        while end < len && chars[end] != '\n'
            invariant
                chars@ == text@,
                len == chars.len(),
                at <= end <= len,
                rest == text@.skip(at as int),
                forall|i: int| 0 <= i < end - at ==> rest[i] != '\n',
            decreases len - end,
        {
            end = end + 1;
        }
        proof {
            lemma_line_end(rest, end - at);
        }
        let stop: usize = if end < len && end > at && chars[end - 1] == '\r' {
            end - 1
        } else {
            end
        };
        let line = text.substring_char(at, stop);
        assert(line@ =~= first_line(rest));
        if taken > 0 {
            proof {
                reveal_strlit("\n");
            }
            assert("\n"@ =~= seq!['\n']);
            head.append("\n");
        }
        head.append(line);
        let next: usize = if end < len {
            end + 1
        } else {
            len
        };
        proof {
            assert(after_first_line(rest) =~= text@.skip(next as int));
            let longer = done.push(line@);
            assert(longer.drop_last() =~= done);
            assert(done + (seq![first_line(rest)] + first_lines(
                after_first_line(rest),
                (limit - taken - 1) as nat,
            )) =~= longer + first_lines(text@.skip(next as int), (limit - taken - 1) as nat));
            if taken == 0 {
                assert(head@ =~= line@);
            }
            done = longer;
        }
        at = next;
        taken = taken + 1;
    }
    proof {
        assert(first_lines(text@.skip(at as int), (limit - taken) as nat) =~= Seq::empty());
        assert(done + Seq::<Seq<char>>::empty() =~= done);
    }
    head
}

} // verus!
