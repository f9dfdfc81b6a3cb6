//! Text as sequences of characters: trimming, lines, words, order and decimals.
use vstd::prelude::*;

verus! {

/// The views of a sequence of strings.
pub open spec fn views(strings: Seq<String>) -> Seq<Seq<char>> {
    Seq::new(strings.len(), |i: int| strings[i]@)
}

/// The view of an optional string.
pub open spec fn opt_view(value: Option<String>) -> Option<Seq<char>> {
    match value {
        Some(text) => Some(text@),
        None => None,
    }
}

/// `String::push` appends one character to the end of the string.
pub assume_specification[ String::push ](text: &mut String, c: char)
    ensures
        final(text)@ == old(text)@.push(c),
;

/// `str::eq` says whether two string slices hold the same characters.
pub assume_specification[ <str as PartialEq>::eq ](left: &str, right: &str) -> (r: bool)
    ensures
        r == (left@ == right@),
;

/// Whether two texts are equal.
pub fn same(left: &str, right: &str) -> (r: bool)
    ensures
        r == (left@ == right@),
{
    *left == *right
}

/// Whether two optional texts are equal.
pub fn same_option(left: &Option<String>, right: &Option<String>) -> (r: bool)
    ensures
        r == (opt_view(*left) == opt_view(*right)),
{
    match left {
        Some(a) => match right {
            Some(b) => *a == *b,
            None => false,
        },
        None => right.is_none(),
    }
}

/// Whether a text is among some strings.
pub open spec fn among(strings: Seq<String>, text: Seq<char>) -> bool {
    exists|i: int| 0 <= i < strings.len() && #[trigger] strings[i]@ == text
}

/// Whether a text is among some strings.
pub fn contains(strings: &Vec<String>, text: &str) -> (r: bool)
    ensures
        r == among(strings@, text@),
{
    for i in 0..strings.len()
        invariant
            forall|k: int| 0 <= k < i ==> #[trigger] strings@[k]@ != text@,
    {
        if same(strings[i].as_str(), text) {
            return true;
        }
    }
    false
}

/// The characters of a text.
pub fn chars_of(text: &str) -> (r: Vec<char>)
    ensures
        r@ == text@,
{
    let mut out: Vec<char> = Vec::new();
    for c in it: text.chars()
        invariant
            it.seq() == text@,
            out@ == text@.take(it.index() as int),
    {
        out.push(c);
    }
    out
}

/// The text made of the characters from `from` up to `to`.
pub fn text_between(chars: &Vec<char>, from: usize, to: usize) -> (r: String)
    requires
        from <= to <= chars@.len(),
    ensures
        r@ == chars@.subrange(from as int, to as int),
{
    let mut out = String::new();
    let mut i: usize = from;
    while i < to
        invariant
            from <= i <= to <= chars@.len(),
            out@ == chars@.subrange(from as int, i as int),
        decreases to - i,
    {
        out.push(chars[i]);
        i += 1;
    }
    out
}

/// The text that the characters spell.
pub fn text_of(chars: &Vec<char>) -> (r: String)
    ensures
        r@ == chars@,
{
    let out = text_between(chars, 0, chars.len());
    assert(chars@.subrange(0, chars@.len() as int) =~= chars@);
    out
}

/// The number of characters of a text.
pub fn char_count(text: &str) -> (r: usize)
    ensures
        r == text@.len(),
{
    text.unicode_len()
}

/// Unicode's White_Space property.
pub open spec fn whitespace(c: char) -> bool {
    let n = c as u32;
    ||| 0x9 <= n <= 0xd
    ||| n == 0x20
    ||| n == 0x85
    ||| n == 0xa0
    ||| n == 0x1680
    ||| 0x2000 <= n <= 0x200a
    ||| n == 0x2028
    ||| n == 0x2029
    ||| n == 0x202f
    ||| n == 0x205f
    ||| n == 0x3000
}

/// Whether a character is white space.
pub fn is_whitespace(c: char) -> (r: bool)
    ensures
        r == whitespace(c),
{
    let n: u32 = c as u32;
    (0x9 <= n && n <= 0xd) || n == 0x20 || n == 0x85 || n == 0xa0 || n == 0x1680
        || (0x2000 <= n && n <= 0x200a) || n == 0x2028 || n == 0x2029 || n == 0x202f
        || n == 0x205f || n == 0x3000
}

/// A text without its leading white space.
pub open spec fn trimmed_start(s: Seq<char>) -> Seq<char>
    decreases s.len(),
{
    if s.len() > 0 && whitespace(s[0]) {
        trimmed_start(s.drop_first())
    } else {
        s
    }
}

/// A text without its trailing white space.
pub open spec fn trimmed_end(s: Seq<char>) -> Seq<char>
    decreases s.len(),
{
    if s.len() > 0 && whitespace(s.last()) {
        trimmed_end(s.drop_last())
    } else {
        s
    }
}

/// A text without the white space around it.
pub open spec fn trimmed(s: Seq<char>) -> Seq<char> {
    trimmed_end(trimmed_start(s))
}

/// Whether every character of a text is white space.
pub open spec fn blank(s: Seq<char>) -> bool {
    forall|i: int| 0 <= i < s.len() ==> whitespace(#[trigger] s[i])
}

pub proof fn lemma_trimmed_start_shorter(s: Seq<char>)
    ensures
        trimmed_start(s).len() <= s.len(),
        trimmed_start(s).len() > 0 ==> !whitespace(trimmed_start(s)[0]),
    decreases s.len(),
{
    if s.len() > 0 && whitespace(s[0]) {
        lemma_trimmed_start_shorter(s.drop_first());
    }
}

proof fn lemma_trimmed_start_suffix(s: Seq<char>, n: int)
    requires
        0 <= n <= s.len(),
        forall|i: int| 0 <= i < n ==> whitespace(#[trigger] s[i]),
        n < s.len() ==> !whitespace(s[n]),
    ensures
        trimmed_start(s) == s.skip(n),
    decreases n,
{
    if n > 0 {
        let t = s.drop_first();
        assert forall|i: int| 0 <= i < n - 1 implies whitespace(#[trigger] t[i]) by {
            assert(t[i] == s[i + 1]);
        }
        lemma_trimmed_start_suffix(t, n - 1);
        assert(t.skip(n - 1) =~= s.skip(n));
    } else {
        assert(s.skip(0) =~= s);
    }
}

proof fn lemma_trimmed_end_prefix(s: Seq<char>, n: int)
    requires
        0 <= n <= s.len(),
        forall|i: int| n <= i < s.len() ==> whitespace(#[trigger] s[i]),
        n > 0 ==> !whitespace(s[n - 1]),
    ensures
        trimmed_end(s) == s.take(n),
    decreases s.len() - n,
{
    if n < s.len() {
        let t = s.drop_last();
        lemma_trimmed_end_prefix(t, n);
        assert(t.take(n) =~= s.take(n));
    } else {
        assert(s.take(n) =~= s);
    }
}

/// A text is blank exactly when trimming leaves nothing.
pub proof fn lemma_blank_trims_to_nothing(s: Seq<char>)
    ensures
        blank(s) <==> trimmed(s).len() == 0,
    decreases s.len(),
{
    if s.len() > 0 && whitespace(s[0]) {
        let t = s.drop_first();
        lemma_blank_trims_to_nothing(t);
        if blank(t) {
            assert forall|i: int| 0 <= i < s.len() implies whitespace(#[trigger] s[i]) by {
                if i > 0 {
                    assert(t[i - 1] == s[i]);
                }
            }
        }
        if blank(s) {
            assert forall|i: int| 0 <= i < t.len() implies whitespace(#[trigger] t[i]) by {
                assert(t[i] == s[i + 1]);
            }
        }
    } else if s.len() > 0 {
        lemma_trimmed_end_keeps_first(s);
    }
}

proof fn lemma_trimmed_end_keeps_first(s: Seq<char>)
    requires
        s.len() > 0,
        !whitespace(s[0]),
    ensures
        trimmed_end(s).len() > 0,
        trimmed_end(s)[0] == s[0],
    decreases s.len(),
{
    if whitespace(s.last()) {
        lemma_trimmed_end_keeps_first(s.drop_last());
    }
}

/// Trimming a trimmed text changes nothing.
pub proof fn trimming_is_idempotent(s: Seq<char>)
    ensures
        trimmed(trimmed(s)) == trimmed(s),
{
    let t = trimmed_start(s);
    let u = trimmed_end(t);
    lemma_trimmed_start_shorter(s);
    lemma_trimmed_end_ends_solid(t);
    if t.len() > 0 {
        lemma_trimmed_end_keeps_first(t);
    }
    assert(trimmed_start(u) == u);
    assert(trimmed_end(u) == u);
}

proof fn lemma_trimmed_end_ends_solid(s: Seq<char>)
    ensures
        trimmed_end(s).len() > 0 ==> !whitespace(trimmed_end(s).last()),
        trimmed_end(s).len() <= s.len(),
    decreases s.len(),
{
    if s.len() > 0 && whitespace(s.last()) {
        lemma_trimmed_end_ends_solid(s.drop_last());
    }
}

/// Whether a text is empty or all white space.
pub fn is_blank(text: &str) -> (r: bool)
    ensures
        r == blank(text@),
        r == (trimmed(text@).len() == 0),
{
    proof {
        lemma_blank_trims_to_nothing(text@);
    }
    let chars = chars_of(text);
    for i in 0..chars.len()
        invariant
            chars@ == text@,
            blank(text@) <==> trimmed(text@).len() == 0,
            forall|k: int| 0 <= k < i ==> whitespace(#[trigger] text@[k]),
    {
        if !is_whitespace(chars[i]) {
            return false;
        }
    }
    true
}

/// A text without its leading white space.
pub fn trim_start(text: &str) -> (r: String)
    ensures
        r@ == trimmed_start(text@),
{
    let chars = chars_of(text);
    let mut i: usize = 0;
    while i < chars.len() && is_whitespace(chars[i])
        invariant
            i <= chars@.len(),
            forall|k: int| 0 <= k < i ==> whitespace(#[trigger] chars@[k]),
        decreases chars.len() - i,
    {
        i += 1;
    }
    proof {
        lemma_trimmed_start_suffix(chars@, i as int);
    }
    text_between(&chars, i, chars.len())
}

/// A text without its trailing white space.
pub fn trim_end(text: &str) -> (r: String)
    ensures
        r@ == trimmed_end(text@),
{
    let chars = chars_of(text);
    let mut n: usize = chars.len();
    while n > 0 && is_whitespace(chars[n - 1])
        invariant
            n <= chars@.len(),
            forall|k: int| n <= k < chars@.len() ==> whitespace(#[trigger] chars@[k]),
        decreases n,
    {
        n -= 1;
    }
    proof {
        lemma_trimmed_end_prefix(chars@, n as int);
    }
    text_between(&chars, 0, n)
}

/// A text without the white space around it.
pub fn trim(text: &str) -> (r: String)
    ensures
        r@ == trimmed(text@),
{
    let start = trim_start(text);
    trim_end(start.as_str())
}

/// A text without the occurrences of `c` that it starts with.
pub open spec fn stripped_start(s: Seq<char>, c: char) -> Seq<char>
    decreases s.len(),
{
    if s.len() > 0 && s[0] == c {
        stripped_start(s.drop_first(), c)
    } else {
        s
    }
}

/// A text without the occurrences of `c` that it ends with.
pub open spec fn stripped_end(s: Seq<char>, c: char) -> Seq<char>
    decreases s.len(),
{
    if s.len() > 0 && s.last() == c {
        stripped_end(s.drop_last(), c)
    } else {
        s
    }
}

/// A text without the occurrences of `c` that it ends with.
pub fn strip_end(text: &str, c: char) -> (r: String)
    ensures
        r@ == stripped_end(text@, c),
{
    let chars = chars_of(text);
    let mut to: usize = chars.len();
    assert(chars@.take(to as int) =~= chars@);
    while to > 0 && chars[to - 1] == c
        invariant
            to <= chars@.len(),
            chars@ == text@,
            stripped_end(chars@.take(to as int), c) == stripped_end(text@, c),
        decreases to,
    {
        assert(chars@.take(to as int).drop_last() =~= chars@.take(to - 1));
        to -= 1;
    }
    assert(stripped_end(chars@.take(to as int), c) == chars@.take(to as int));
    assert(chars@.subrange(0, to as int) =~= chars@.take(to as int));
    text_between(&chars, 0, to)
}

/// A text without the occurrences of `c` around it.
pub fn strip(text: &str, c: char) -> (r: String)
    ensures
        r@ == stripped_end(stripped_start(text@, c), c),
{
    let chars = chars_of(text);
    let mut from: usize = 0;
    assert(chars@.skip(0) =~= chars@);
    while from < chars.len() && chars[from] == c
        invariant
            from <= chars@.len(),
            stripped_start(chars@.skip(from as int), c) == stripped_start(chars@, c),
        decreases chars.len() - from,
    {
        assert(chars@.skip(from as int).drop_first() =~= chars@.skip(from + 1));
        from += 1;
    }
    let ghost rest = chars@.skip(from as int);
    assert(stripped_start(rest, c) == rest);
    let mut to: usize = chars.len();
    assert(chars@.subrange(from as int, to as int) =~= rest);
    while to > from && chars[to - 1] == c
        invariant
            from <= to <= chars@.len(),
            stripped_end(chars@.subrange(from as int, to as int), c) == stripped_end(rest, c),
        decreases to,
    {
        assert(chars@.subrange(from as int, to as int).drop_last() =~= chars@.subrange(
            from as int,
            to - 1,
        ));
        to -= 1;
    }
    assert(stripped_end(chars@.subrange(from as int, to as int), c) == chars@.subrange(
        from as int,
        to as int,
    ));
    text_between(&chars, from, to)
}

/// Whether `s` begins with `prefix`.
pub open spec fn begins(s: Seq<char>, prefix: Seq<char>) -> bool {
    prefix.len() <= s.len() && s.take(prefix.len() as int) == prefix
}

/// Whether `s` ends with `suffix`.
pub open spec fn ends(s: Seq<char>, suffix: Seq<char>) -> bool {
    suffix.len() <= s.len() && s.skip(s.len() - suffix.len()) == suffix
}

/// Whether `part` stands in `s` at position `at`.
pub open spec fn stands_at(s: Seq<char>, part: Seq<char>, at: int) -> bool {
    0 <= at && at + part.len() <= s.len() && s.subrange(at, at + part.len()) == part
}

/// Whether some characters stand among others at a position.
pub fn stands(chars: &Vec<char>, part: &Vec<char>, at: usize) -> (r: bool)
    ensures
        r == stands_at(chars@, part@, at as int),
{
    let total: usize = chars.len();
    if at > total || part.len() > total - at {
        return false;
    }
    for i in 0..part.len()
        invariant
            at + part@.len() <= chars@.len() == total,
            forall|k: int| 0 <= k < i ==> chars@[at + k] == #[trigger] part@[k],
    {
        if chars[at + i] != part[i] {
            assert(chars@.subrange(at as int, at + part@.len())[i as int] == chars@[at + i]);
            return false;
        }
    }
    assert(chars@.subrange(at as int, at + part@.len()) =~= part@);
    true
}

/// Whether a text begins with another.
pub fn starts_with(text: &str, prefix: &str) -> (r: bool)
    ensures
        r == begins(text@, prefix@),
{
    let r = stands(&chars_of(text), &chars_of(prefix), 0);
    assert(prefix@.len() <= text@.len() ==> text@.subrange(0, prefix@.len() as int) =~= text@.take(
        prefix@.len() as int,
    ));
    r
}

/// Whether a text ends with another.
pub fn ends_with(text: &str, suffix: &str) -> (r: bool)
    ensures
        r == ends(text@, suffix@),
{
    let chars = chars_of(text);
    let tail = chars_of(suffix);
    if tail.len() > chars.len() {
        return false;
    }
    let at: usize = chars.len() - tail.len();
    assert(text@.subrange(at as int, text@.len() as int) =~= text@.skip(at as int));
    stands(&chars, &tail, at)
}

/// What follows `prefix`, where the text begins with it.
pub fn strip_prefix(text: &str, prefix: &str) -> (r: Option<String>)
    ensures
        match r {
            Some(rest) => begins(text@, prefix@) && rest@ == text@.skip(prefix@.len() as int),
            None => !begins(text@, prefix@),
        },
{
    if starts_with(text, prefix) {
        let chars = chars_of(text);
        let n: usize = char_count(prefix);
        assert(text@.subrange(n as int, text@.len() as int) =~= text@.skip(n as int));
        Some(text_between(&chars, n, chars.len()))
    } else {
        None
    }
}

/// The position of the first `c` in `s`, or the length of `s`.
pub open spec fn first_index(s: Seq<char>, c: char) -> int
    decreases s.len(),
{
    if s.len() == 0 || s[0] == c {
        0
    } else {
        1 + first_index(s.drop_first(), c)
    }
}

pub proof fn lemma_first_index(s: Seq<char>, c: char)
    ensures
        0 <= first_index(s, c) <= s.len(),
        first_index(s, c) < s.len() ==> s[first_index(s, c)] == c,
        forall|i: int| 0 <= i < first_index(s, c) ==> #[trigger] s[i] != c,
    decreases s.len(),
{
    if s.len() > 0 && s[0] != c {
        let t = s.drop_first();
        lemma_first_index(t, c);
        assert forall|i: int| 0 <= i < first_index(s, c) implies #[trigger] s[i] != c by {
            if i > 0 {
                assert(t[i - 1] == s[i]);
            }
        }
    }
}

proof fn lemma_first_index_is(s: Seq<char>, c: char, n: int)
    requires
        0 <= n <= s.len(),
        n < s.len() ==> s[n] == c,
        forall|i: int| 0 <= i < n ==> #[trigger] s[i] != c,
    ensures
        first_index(s, c) == n,
{
    lemma_first_index(s, c);
    let m = first_index(s, c);
    if m < n {
        assert(s[m] != c);
    }
    if n < m {
        assert(s[n] != c);
    }
}

/// The position of the first `c` at or after `from`, or the number of characters.
pub fn find_from(chars: &Vec<char>, from: usize, c: char) -> (r: usize)
    requires
        from <= chars@.len(),
    ensures
        from <= r <= chars@.len(),
        r - from == first_index(chars@.skip(from as int), c),
{
    let mut i: usize = from;
    while i < chars.len() && chars[i] != c
        invariant
            from <= i <= chars@.len(),
            forall|k: int| from <= k < i ==> #[trigger] chars@[k] != c,
        decreases chars.len() - i,
    {
        i += 1;
    }
    proof {
        let s = chars@.skip(from as int);
        assert forall|k: int| 0 <= k < i - from implies #[trigger] s[k] != c by {
            assert(s[k] == chars@[from + k]);
        }
        lemma_first_index_is(s, c, i - from);
    }
    i
}

/// The parts before and after the first `c`, where there is one.
pub fn split_once(text: &str, c: char) -> (r: Option<(String, String)>)
    ensures
        ({
            let n = first_index(text@, c);
            match r {
                Some((head, tail)) => n < text@.len() && head@ == text@.take(n) && tail@
                    == text@.skip(n + 1),
                None => n == text@.len(),
            }
        }),
{
    let chars = chars_of(text);
    let n: usize = find_from(&chars, 0, c);
    assert(chars@.skip(0) =~= chars@);
    if n == chars.len() {
        return None;
    }
    let head = text_between(&chars, 0, n);
    let tail = text_between(&chars, n + 1, chars.len());
    assert(head@ =~= text@.take(n as int));
    assert(tail@ =~= text@.skip(n + 1));
    Some((head, tail))
}

/// The parts of a text between the occurrences of `c`.
pub open spec fn split_of(s: Seq<char>, c: char) -> Seq<Seq<char>>
    decreases s.len(),
{
    let n = first_index(s, c);
    if 0 <= n < s.len() {
        seq![s.take(n)] + split_of(s.skip(n + 1), c)
    } else {
        seq![s]
    }
}

/// The parts of a text between the occurrences of `c`.
pub fn split(text: &str, c: char) -> (r: Vec<String>)
    ensures
        views(r@) == split_of(text@, c),
{
    let chars = chars_of(text);
    let mut out: Vec<String> = Vec::new();
    let mut from: usize = 0;
    assert(chars@.skip(0) =~= chars@);
    assert(views(out@) + split_of(chars@, c) =~= split_of(chars@, c));
    loop
        invariant
            from <= chars@.len(),
            chars@ == text@,
            views(out@) + split_of(chars@.skip(from as int), c) == split_of(text@, c),
        decreases chars@.len() - from,
    {
        let at: usize = find_from(&chars, from, c);
        let part = text_between(&chars, from, at);
        let ghost before = views(out@);
        let ghost rest = chars@.skip(from as int);
        assert(part@ =~= rest.take(at - from));
        out.push(part);
        assert(views(out@) =~= before.push(part@));
        if at == chars.len() {
            assert(rest.take(at - from) =~= rest);
            assert(before + split_of(rest, c) =~= views(out@));
            return out;
        }
        assert(rest.skip(at - from + 1) =~= chars@.skip(at + 1));
        assert(before + split_of(rest, c) =~= views(out@) + split_of(chars@.skip(at + 1), c));
        from = at + 1;
    }
}

/// The lines of a text: what stands between line feeds, without a carriage return before a
/// line feed. A line feed at the end of the text opens no further line.
pub open spec fn lines_of(s: Seq<char>) -> Seq<Seq<char>>
    decreases s.len(),
{
    let n = first_index(s, '\n');
    if s.len() == 0 {
        Seq::empty()
    } else if 0 <= n < s.len() {
        let line = s.take(n);
        let bare = if n > 0 && line.last() == '\r' {
            line.drop_last()
        } else {
            line
        };
        seq![bare] + lines_of(s.skip(n + 1))
    } else {
        seq![s]
    }
}

/// The lines of a text.
pub fn lines(text: &str) -> (r: Vec<String>)
    ensures
        views(r@) == lines_of(text@),
{
    let chars = chars_of(text);
    let mut out: Vec<String> = Vec::new();
    let mut at: usize = 0;
    assert(chars@.skip(0) =~= chars@);
    while at < chars.len()
        invariant
            at <= chars@.len(),
            chars@ == text@,
            views(out@) + lines_of(chars@.skip(at as int)) == lines_of(text@),
        decreases chars.len() - at,
    {
        let ghost rest = chars@.skip(at as int);
        let n: usize = find_from(&chars, at, '\n');
        let ghost before = views(out@);
        if n < chars.len() {
            let end: usize = if n > at && chars[n - 1] == '\r' {
                n - 1
            } else {
                n
            };
            let line = text_between(&chars, at, end);
            let ghost bare = line@;
            out.push(line);
            at = n + 1;
            proof {
                let k = first_index(rest, '\n');
                lemma_first_index(rest, '\n');
                assert(rest.skip(k + 1) =~= chars@.skip(at as int));
                let whole = rest.take(k);
                if k > 0 && whole.last() == '\r' {
                    assert(bare =~= whole.drop_last());
                } else {
                    assert(bare =~= whole);
                }
                assert(views(out@) =~= before.push(bare));
                assert(before.push(bare) + lines_of(chars@.skip(at as int)) =~= before + (seq![
                    bare,
                ] + lines_of(chars@.skip(at as int))));
            }
        } else {
            let line = text_between(&chars, at, chars.len());
            let ghost bare = line@;
            out.push(line);
            at = chars.len();
            proof {
                assert(bare =~= rest);
                assert(views(out@) =~= before.push(bare));
                assert(chars@.skip(at as int).len() == 0);
                assert(before.push(bare) + lines_of(chars@.skip(at as int)) =~= before + seq![
                    rest,
                ]);
            }
        }
    }
    assert(chars@.skip(at as int).len() == 0);
    assert(views(out@) + lines_of(chars@.skip(at as int)) =~= views(out@));
    out
}

/// The length of the run of non-blank characters that `s` begins with.
pub open spec fn word_length(s: Seq<char>) -> int
    decreases s.len(),
{
    if s.len() == 0 || whitespace(s[0]) {
        0
    } else {
        1 + word_length(s.drop_first())
    }
}

pub proof fn lemma_word_length(s: Seq<char>)
    ensures
        0 <= word_length(s) <= s.len(),
        word_length(s) < s.len() ==> whitespace(s[word_length(s)]),
        forall|i: int| 0 <= i < word_length(s) ==> !whitespace(#[trigger] s[i]),
    decreases s.len(),
{
    if s.len() > 0 && !whitespace(s[0]) {
        let t = s.drop_first();
        lemma_word_length(t);
        assert forall|i: int| 0 <= i < word_length(s) implies !whitespace(#[trigger] s[i]) by {
            if i > 0 {
                assert(t[i - 1] == s[i]);
            }
        }
    }
}

/// The words of a text: its maximal runs of characters that are not white space, in order.
pub open spec fn words_of(s: Seq<char>) -> Seq<Seq<char>>
    decreases s.len(),
{
    proof {
        lemma_trimmed_start_shorter(s);
        lemma_word_length(trimmed_start(s));
    }
    let t = trimmed_start(s);
    if t.len() == 0 {
        Seq::empty()
    } else {
        seq![t.take(word_length(t))] + words_of(t.skip(word_length(t)))
    }
}

/// The words of a text.
pub fn words(text: &str) -> (r: Vec<String>)
    ensures
        views(r@) == words_of(text@),
{
    let chars = chars_of(text);
    let mut out: Vec<String> = Vec::new();
    let mut at: usize = 0;
    assert(chars@.skip(0) =~= chars@);
    while at < chars.len()
        invariant
            at <= chars@.len(),
            chars@ == text@,
            views(out@) + words_of(chars@.skip(at as int)) == words_of(text@),
        decreases chars.len() - at,
    {
        let ghost rest = chars@.skip(at as int);
        let ghost begin = at as int;
        let mut from: usize = at;
        while from < chars.len() && is_whitespace(chars[from])
            invariant
                at <= from <= chars@.len(),
                forall|k: int| at <= k < from ==> whitespace(#[trigger] chars@[k]),
            decreases chars.len() - from,
        {
            from += 1;
        }
        let ghost t = chars@.skip(from as int);
        proof {
            assert forall|k: int| 0 <= k < from - at implies whitespace(#[trigger] rest[k]) by {
                assert(rest[k] == chars@[at + k]);
            }
            lemma_trimmed_start_suffix(rest, from - at);
            assert(rest.skip(from - at) =~= t);
        }
        if from == chars.len() {
            proof {
                assert(t.len() == 0);
                assert(words_of(rest) =~= Seq::empty());
                assert(words_of(chars@.skip(from as int)) =~= Seq::empty());
            }
            at = from;
        } else {
            let mut to: usize = from;
            while to < chars.len() && !is_whitespace(chars[to])
                invariant
                    from <= to <= chars@.len(),
                    t == chars@.skip(from as int),
                    word_length(t) == (to - from) + word_length(chars@.skip(to as int)),
                decreases chars.len() - to,
            {
                assert(chars@.skip(to as int).drop_first() =~= chars@.skip(to + 1));
                to += 1;
            }
            let ghost before = views(out@);
            proof {
                assert(word_length(chars@.skip(to as int)) == 0);
                lemma_word_length(t);
                assert(word_length(t) > 0);
                assert(t.skip(word_length(t)) =~= chars@.skip(to as int));
            }
            let word = text_between(&chars, from, to);
            let ghost bare = word@;
            out.push(word);
            at = to;
            proof {
                assert(bare =~= t.take(word_length(t)));
                assert(views(out@) =~= before.push(bare));
                assert(before.push(bare) + words_of(chars@.skip(at as int)) =~= before + (seq![
                    bare,
                ] + words_of(chars@.skip(at as int))));
            }
        }
    }
    proof {
        let t = chars@.skip(at as int);
        assert(t.len() == 0);
        assert(trimmed_start(t) == t);
        assert(views(out@) + words_of(t) =~= views(out@));
    }
    out
}

/// The parts with `separator` between each two.
pub open spec fn joined(parts: Seq<Seq<char>>, separator: Seq<char>) -> Seq<char>
    decreases parts.len(),
{
    if parts.len() == 0 {
        Seq::empty()
    } else if parts.len() == 1 {
        parts[0]
    } else {
        joined(parts.drop_last(), separator) + separator + parts.last()
    }
}

/// The parts with `separator` between each two.
pub fn join(parts: &Vec<String>, separator: &str) -> (r: String)
    ensures
        r@ == joined(views(parts@), separator@),
{
    let mut out = String::new();
    for i in 0..parts.len()
        invariant
            out@ == joined(views(parts@.take(i as int)), separator@),
    {
        let ghost before = views(parts@.take(i as int));
        let ghost after = views(parts@.take(i + 1));
        proof {
            assert(after.drop_last() =~= before);
        }
        if i > 0 {
            out.append(separator);
        }
        out.append(parts[i].as_str());
        proof {
            if i == 0 {
                assert(out@ =~= after[0]);
            }
        }
    }
    assert(parts@.take(parts@.len() as int) =~= parts@);
    out
}

/// Whether two lists hold the same texts in the same order.
pub fn same_texts(left: &Vec<String>, right: &Vec<String>) -> (r: bool)
    ensures
        r == (views(left@) == views(right@)),
{
    if left.len() != right.len() {
        assert(views(left@).len() != views(right@).len());
        return false;
    }
    for i in 0..left.len()
        invariant
            left@.len() == right@.len(),
            forall|k: int| 0 <= k < i ==> (#[trigger] left@[k])@ == right@[k]@,
    {
        if !same(left[i].as_str(), right[i].as_str()) {
            assert(views(left@)[i as int] != views(right@)[i as int]);
            return false;
        }
    }
    assert(views(left@) =~= views(right@));
    true
}

/// The lexicographic order of texts by their code points.
pub open spec fn precedes(a: Seq<char>, b: Seq<char>) -> bool
    decreases a.len(),
{
    if b.len() == 0 {
        false
    } else if a.len() == 0 {
        true
    } else if a[0] != b[0] {
        a[0] < b[0]
    } else {
        precedes(a.drop_first(), b.drop_first())
    }
}

/// No text precedes itself.
pub proof fn lemma_precedes_irreflexive(a: Seq<char>)
    ensures
        !precedes(a, a),
    decreases a.len(),
{
    if a.len() > 0 {
        lemma_precedes_irreflexive(a.drop_first());
    }
}

/// The order of texts is transitive.
pub proof fn lemma_precedes_transitive(a: Seq<char>, b: Seq<char>, c: Seq<char>)
    requires
        precedes(a, b),
        precedes(b, c),
    ensures
        precedes(a, c),
    decreases a.len(),
{
    if a.len() > 0 && b.len() > 0 && c.len() > 0 && a[0] == b[0] && b[0] == c[0] {
        lemma_precedes_transitive(a.drop_first(), b.drop_first(), c.drop_first());
    }
}

/// Of two different texts one precedes the other.
pub proof fn lemma_precedes_total(a: Seq<char>, b: Seq<char>)
    ensures
        precedes(a, b) || a == b || precedes(b, a),
    decreases a.len(),
{
    if a.len() > 0 && b.len() > 0 && a[0] == b[0] {
        lemma_precedes_total(a.drop_first(), b.drop_first());
        if a.drop_first() == b.drop_first() {
            assert(a =~= seq![a[0]] + a.drop_first());
            assert(b =~= seq![b[0]] + b.drop_first());
            assert(a =~= b);
        }
    } else if a.len() == 0 && b.len() == 0 {
        assert(a =~= b);
    }
}

/// Whether one text comes before another.
pub fn less(left: &str, right: &str) -> (r: bool)
    ensures
        r == precedes(left@, right@),
{
    let a = chars_of(left);
    let b = chars_of(right);
    let mut i: usize = 0;
    assert(a@.skip(0) =~= a@);
    assert(b@.skip(0) =~= b@);
    while i < a.len() && i < b.len() && a[i] == b[i]
        invariant
            i <= a@.len(),
            i <= b@.len(),
            precedes(a@.skip(i as int), b@.skip(i as int)) == precedes(left@, right@),
        decreases a.len() - i,
    {
        assert(a@.skip(i as int).drop_first() =~= a@.skip(i + 1));
        assert(b@.skip(i as int).drop_first() =~= b@.skip(i + 1));
        i += 1;
    }
    if i >= b.len() {
        false
    } else if i >= a.len() {
        true
    } else {
        a[i] < b[i]
    }
}

/// The character of a decimal digit.
pub open spec fn digit(n: nat) -> char {
    (48 + n) as char
}

/// The decimal digits of a number, without leading zeros.
pub open spec fn decimal_of(n: nat) -> Seq<char>
    decreases n,
{
    if n < 10 {
        seq![digit(n)]
    } else {
        decimal_of(n / 10).push(digit(n % 10))
    }
}

/// The decimal digits of a number.
pub fn decimal(n: u64) -> (r: String)
    ensures
        r@ == decimal_of(n as nat),
    decreases n,
{
    let mut out = if n < 10 {
        String::new()
    } else {
        decimal(n / 10)
    };
    let last: u8 = (n % 10) as u8;
    let c: char = (48u8 + last) as char;
    out.push(c);
    assert(c == digit((n % 10) as nat));
    proof {
        if n < 10 {
            assert(out@ =~= seq![digit(n as nat)]);
        }
    }
    out
}

/// An integer in decimal, with a sign where it is negative.
pub open spec fn signed_of(n: int) -> Seq<char> {
    if n < 0 {
        "-"@ + decimal_of((-n) as nat)
    } else {
        decimal_of(n as nat)
    }
}

/// Writes an integer in decimal, with a sign where it is negative.
pub fn signed(n: i32) -> (r: String)
    ensures
        r@ == signed_of(n as int),
{
    let wide: i64 = n as i64;
    if wide < 0 {
        let mut out = "-".to_string();
        out.append(decimal((-wide) as u64).as_str());
        out
    } else {
        decimal(wide as u64)
    }
}

/// Whether every character of a text is a decimal digit.
pub open spec fn all_digits(s: Seq<char>) -> bool {
    forall|i: int| 0 <= i < s.len() ==> 48 <= #[trigger] s[i] as u32 <= 57
}

/// The number that decimal digits spell.
pub open spec fn digits_value(s: Seq<char>) -> nat
    decreases s.len(),
{
    if s.len() == 0 {
        0
    } else {
        10 * digits_value(s.drop_last()) + (s.last() as u32 - 48) as nat
    }
}

/// The number that a text spells: digits, with at most one plus sign before them.
pub open spec fn number_of(s: Seq<char>) -> Option<nat> {
    let digits = if s.len() > 0 && s[0] == '+' {
        s.drop_first()
    } else {
        s
    };
    if digits.len() > 0 && all_digits(digits) {
        Some(digits_value(digits))
    } else {
        None
    }
}

proof fn lemma_digits_value_grows(s: Seq<char>, n: int)
    requires
        0 <= n <= s.len(),
        all_digits(s),
    ensures
        digits_value(s.take(n)) <= digits_value(s),
    decreases s.len(),
{
    if n < s.len() {
        let t = s.drop_last();
        assert forall|i: int| 0 <= i < t.len() implies 48 <= #[trigger] t[i] as u32 <= 57 by {
            assert(t[i] == s[i]);
        }
        lemma_digits_value_grows(t, n);
        assert(t.take(n) =~= s.take(n));
    } else {
        assert(s.take(n) =~= s);
    }
}

/// The number that a text spells, where it is one and fits.
pub fn parse_number(text: &str) -> (r: Option<u64>)
    ensures
        match r {
            Some(n) => number_of(text@) == Some(n as nat),
            None => number_of(text@) is None || number_of(text@)->0 > u64::MAX,
        },
{
    let chars = chars_of(text);
    let start: usize = if chars.len() > 0 && chars[0] == '+' {
        1
    } else {
        0
    };
    let ghost digits = text@.skip(start as int);
    assert(start == 0 ==> digits =~= text@);
    assert(start == 1 ==> digits =~= text@.drop_first());
    if start == chars.len() {
        return None;
    }
    for i in start..chars.len()
        invariant
            chars@ == text@,
            start <= text@.len(),
            digits == text@.skip(start as int),
            forall|k: int| start <= k < i ==> 48 <= #[trigger] text@[k] as u32 <= 57,
            digits == (if text@.len() > 0 && text@[0] == '+' { text@.drop_first() } else { text@ }),
    {
        let n: u32 = chars[i] as u32;
        if n < 48 || n > 57 {
            assert(digits[i - start] == text@[i as int]);
            assert(!all_digits(digits));
            return None;
        }
    }
    assert forall|k: int| 0 <= k < digits.len() implies 48 <= #[trigger] digits[k] as u32
        <= 57 by {
        assert(digits[k] == text@[start + k]);
    }
    let mut value: u64 = 0;
    assert(digits.take(0).len() == 0);
    for i in start..chars.len()
        invariant
            chars@ == text@,
            start <= text@.len(),
            digits == text@.skip(start as int),
            all_digits(digits),
            digits.len() > 0,
            digits == (if text@.len() > 0 && text@[0] == '+' { text@.drop_first() } else { text@ }),
            value == digits_value(digits.take(i - start)),
    {
        let ghost upto = digits.take(i + 1 - start);
        proof {
            assert(upto.drop_last() =~= digits.take(i - start));
            assert(upto.last() == text@[i as int]);
            lemma_digits_value_grows(digits, i + 1 - start);
        }
        assert(48 <= digits[i - start] as u32 <= 57);
        let d: u64 = (chars[i] as u32 - 48) as u64;
        let scaled: u64 = match value.checked_mul(10) {
            Some(scaled) => scaled,
            None => {
                return None;
            },
        };
        value = match scaled.checked_add(d) {
            Some(total) => total,
            None => {
                return None;
            },
        };
    }
    assert(digits.take(digits.len() as int) =~= digits);
    Some(value)
}

/// Puts a text behind the others.
pub(crate) fn push_text(out: &mut Vec<String>, line: String)
    ensures
        views(final(out)@) == views(old(out)@).push(line@),
{
    let ghost earlier = views(out@);
    let ghost added = line@;
    out.push(line);
    assert(views(out@) =~= earlier.push(added));
}

/// A number reads back from its decimal digits.
pub proof fn numbers_read_back(n: nat)
    ensures
        number_of(decimal_of(n)) == Some(n),
        all_digits(decimal_of(n)),
        decimal_of(n).len() > 0,
    decreases n,
{
    let text = decimal_of(n);
    if n < 10 {
        assert(text.drop_last() =~= Seq::<char>::empty());
        assert(digits_value(text.drop_last()) == 0);
        assert(text.last() == digit(n));
        assert(all_digits(text));
        assert(digits_value(text) == n);
    } else {
        numbers_read_back(n / 10);
        let before = decimal_of(n / 10);
        lemma_number_digits(before, n / 10);
        assert(text.drop_last() =~= before);
        assert(text.last() == digit(n % 10));
        assert(all_digits(text)) by {
            assert forall|i: int| 0 <= i < text.len() implies 48 <= #[trigger] text[i] as u32
                <= 57 by {
                if i < before.len() {
                    assert(text[i] == before[i]);
                    assert(48 <= before[i] as u32 <= 57);
                } else {
                    assert(text[i] == digit(n % 10));
                    lemma_digit(n % 10);
                }
            }
        }
        lemma_digit(n % 10);
        assert(digits_value(text) == 10 * (n / 10) + n % 10);
    }
    assert(text[0] != '+');
}

proof fn lemma_digit(n: nat)
    requires
        n < 10,
    ensures
        '0' <= digit(n) && digit(n) <= '9',
        digit(n) as u32 == 48 + n,
{
}

proof fn lemma_number_digits(s: Seq<char>, n: nat)
    requires
        all_digits(s),
        s.len() > 0,
        number_of(s) == Some(n),
    ensures
        digits_value(s) == n,
{
    assert(s[0] != '+');
}

/// What is left of a text without the white space around it is a part of it: all before that part
/// and all behind it is white space, and the part neither begins nor ends with any.
pub proof fn trimming_removes_only_space(s: Seq<char>) -> (r: (int, int))
    ensures
        0 <= r.0 <= r.1 <= s.len(),
        trimmed(s) == s.subrange(r.0, r.1),
        forall|i: int| 0 <= i < r.0 ==> whitespace(#[trigger] s[i]),
        forall|i: int| r.1 <= i < s.len() ==> whitespace(#[trigger] s[i]),
        trimmed(s).len() > 0 ==> !whitespace(trimmed(s)[0]) && !whitespace(trimmed(s).last()),
{
    let a = lemma_start_cut(s);
    let rest = trimmed_start(s);
    let n = lemma_end_cut(rest);
    lemma_trimmed_start_shorter(s);
    assert(trimmed(s) =~= s.subrange(a, a + n));
    assert forall|i: int| a + n <= i < s.len() implies whitespace(#[trigger] s[i]) by {
        assert(rest[i - a] == s[i]);
    }
    if n > 0 {
        assert(trimmed(s)[0] == rest[0]);
    }
    (a, a + n)
}

proof fn lemma_start_cut(s: Seq<char>) -> (n: int)
    ensures
        0 <= n <= s.len(),
        trimmed_start(s) == s.skip(n),
        forall|i: int| 0 <= i < n ==> whitespace(#[trigger] s[i]),
    decreases s.len(),
{
    if s.len() > 0 && whitespace(s[0]) {
        let rest = s.drop_first();
        let n = lemma_start_cut(rest);
        assert(rest.skip(n) =~= s.skip(n + 1));
        assert forall|i: int| 0 <= i < n + 1 implies whitespace(#[trigger] s[i]) by {
            if i > 0 {
                assert(rest[i - 1] == s[i]);
            }
        }
        n + 1
    } else {
        assert(s.skip(0) =~= s);
        0
    }
}

proof fn lemma_end_cut(s: Seq<char>) -> (n: int)
    ensures
        0 <= n <= s.len(),
        trimmed_end(s) == s.take(n),
        forall|i: int| n <= i < s.len() ==> whitespace(#[trigger] s[i]),
        n > 0 ==> !whitespace(s[n - 1]),
    decreases s.len(),
{
    if s.len() > 0 && whitespace(s.last()) {
        let rest = s.drop_last();
        let n = lemma_end_cut(rest);
        assert(rest.take(n) =~= s.take(n));
        assert forall|i: int| n <= i < s.len() implies whitespace(#[trigger] s[i]) by {
            if i < s.len() - 1 {
                assert(rest[i] == s[i]);
            }
        }
        if n > 0 {
            assert(rest[n - 1] == s[n - 1]);
        }
        n
    } else {
        assert(s.take(s.len() as int) =~= s);
        s.len() as int
    }
}

/// Spaces, tabs and line breaks are white space; what is written of ASCII is not.
pub proof fn printed_characters_are_not_space(c: char)
    ensures
        whitespace(' '),
        whitespace('\t'),
        whitespace('\n'),
        whitespace('\r'),
        '!' <= c && c <= '~' ==> !whitespace(c),
{
}

/// The parts of a text, joined by what they were split at, are the text again, and none of them
/// holds what they were split at.
pub proof fn split_texts_join_again(s: Seq<char>, c: char)
    ensures
        joined(split_of(s, c), seq![c]) == s,
        split_of(s, c).len() > 0,
        forall|k: int| 0 <= k < split_of(s, c).len() ==> !(#[trigger] split_of(s, c)[k]).contains(c),
    decreases s.len(),
{
    lemma_first_index(s, c);
    let n = first_index(s, c);
    let parts = split_of(s, c);
    if n < s.len() {
        let head = s.take(n);
        let rest = s.skip(n + 1);
        split_texts_join_again(rest, c);
        lemma_join_first(head, split_of(rest, c), seq![c]);
        assert(head + seq![c] + rest =~= s);
        assert forall|k: int| 0 <= k < parts.len() implies !(#[trigger] parts[k]).contains(c) by {
            if k == 0 {
                if head.contains(c) {
                    let i = choose|i: int| 0 <= i < head.len() && head[i] == c;
                    assert(s[i] != c);
                }
            } else {
                assert(parts[k] == split_of(rest, c)[k - 1]);
            }
        }
    } else {
        assert forall|k: int| 0 <= k < parts.len() implies !(#[trigger] parts[k]).contains(c) by {
            if s.contains(c) {
                let i = choose|i: int| 0 <= i < s.len() && s[i] == c;
                assert(s[i] != c);
            }
        }
    }
}

proof fn lemma_join_first(head: Seq<char>, rest: Seq<Seq<char>>, separator: Seq<char>)
    requires
        rest.len() > 0,
    ensures
        joined(seq![head] + rest, separator) == head + separator + joined(rest, separator),
    decreases rest.len(),
{
    let all = seq![head] + rest;
    assert(all.drop_last() =~= seq![head] + rest.drop_last());
    assert(all.last() == rest.last());
    if rest.len() == 1 {
        assert(all.drop_last() =~= seq![head]);
        assert(joined(seq![head], separator) == head);
        assert(joined(rest, separator) == rest[0]);
    } else {
        lemma_join_first(head, rest.drop_last(), separator);
        assert(head + separator + joined(rest.drop_last(), separator) + separator + rest.last()
            =~= head + separator + joined(rest, separator));
    }
}

/// A text without the occurrences of a character at its end keeps everything before them.
pub proof fn stripping_removes_only_the_end(s: Seq<char>, c: char)
    ensures
        stripped_end(s, c).is_prefix_of(s),
        stripped_end(s, c).len() > 0 ==> stripped_end(s, c).last() != c,
        forall|i: int| stripped_end(s, c).len() <= i < s.len() ==> #[trigger] s[i] == c,
    decreases s.len(),
{
    if s.len() > 0 && s.last() == c {
        let rest = s.drop_last();
        stripping_removes_only_the_end(rest, c);
        assert forall|i: int| stripped_end(s, c).len() <= i < s.len() implies #[trigger] s[i] == c by {
            if i < s.len() - 1 {
                assert(rest[i] == s[i]);
            }
        }
    }
}

} // verus!
