//! What holds of every list item: its lines fit, it begins with a marker, and it stays as it is
//! when it is made into a list item again.
use crate::text::{
    blank, first_index, joined, lines_of, trimmed, trimmed_end, trimmed_start,
    whitespace, word_length, words_of,
};
use crate::wrap::{
    authored_line, authored_list, bare_item, hung, indent_of, list_item, marker_of,
    prefix_of, room, said_by, spaces, with_piece, with_pieces, wrapped, wrapping, BareItem,
    CHANGELOG_LINE_WIDTH,
};
use vstd::prelude::*;

verus! {

/// Whether texts are words: none is empty, and none holds white space.
spec fn solid(words: Seq<Seq<char>>) -> bool {
    forall|i: int| 0 <= i < words.len() ==> word(#[trigger] words[i])
}

/// Whether a text is a word.
spec fn word(w: Seq<char>) -> bool {
    &&& w.len() > 0
    &&& forall|j: int| 0 <= j < w.len() ==> !whitespace(#[trigger] w[j])
}

/// Words with a space between each two.
spec fn spaced(words: Seq<Seq<char>>) -> Seq<char> {
    joined(words, seq![' '])
}

/// Lines with a line feed between each two.
spec fn stacked(lines: Seq<Seq<char>>) -> Seq<char> {
    joined(lines, seq!['\n'])
}

/// Whether some words stand on one line: they fit, or there is one word only.
spec fn on_one_line(words: Seq<Seq<char>>, width: nat) -> bool {
    &&& solid(words)
    &&& words.len() > 0
    &&& spaced(words).len() <= width || words.len() == 1
}

/// Whether a piece is made of words that stand on one line.
spec fn is_piece(piece: Seq<char>, width: nat) -> bool {
    exists|words: Seq<Seq<char>>| #[trigger] on_one_line(words, width) && piece == spaced(words)
}

/// Whether a text is an indent with a bullet and a space behind it.
spec fn bulleted(q: Seq<char>) -> bool {
    &&& q.len() >= 2
    &&& q[q.len() - 1] == ' '
    &&& q[q.len() - 2] == '-' || q[q.len() - 2] == '*' || q[q.len() - 2] == '+'
    &&& forall|i: int| 0 <= i < q.len() - 2 ==> whitespace(#[trigger] q[i]) && q[i] != '\n'
}

/// Whether a line can begin with a text.
spec fn leads(q: Seq<char>) -> bool {
    bulleted(q) || q == spaces(q.len())
}

/// Whether a line is some words behind a beginning that leaves them room.
spec fn hangs(line: Seq<char>, q: Seq<char>, words: Seq<Seq<char>>) -> bool {
    &&& leads(q)
    &&& on_one_line(words, room(q))
    &&& line == q + spaced(words)
}

/// Whether a line is as a list item has it.
spec fn settled(line: Seq<char>) -> bool {
    ||| line.len() == 0
    ||| exists|q: Seq<char>, words: Seq<Seq<char>>| hangs(line, q, words)
}

/// Whether a line is as a list item has it, behind a bullet.
spec fn opens(line: Seq<char>) -> bool {
    exists|q: Seq<char>, words: Seq<Seq<char>>| #[trigger] hangs(line, q, words) && bulleted(q)
}

proof fn lemma_joined_push(parts: Seq<Seq<char>>, part: Seq<char>, separator: Seq<char>)
    ensures
        parts.len() == 0 ==> joined(parts.push(part), separator) == part,
        parts.len() > 0 ==> joined(parts.push(part), separator) == joined(parts, separator)
            + separator + part,
{
    assert(parts.push(part).drop_last() =~= parts);
}

proof fn lemma_joined_front(parts: Seq<Seq<char>>, separator: Seq<char>)
    requires
        parts.len() >= 2,
    ensures
        joined(parts, separator) == parts[0] + separator + joined(parts.drop_first(), separator),
    decreases parts.len(),
{
    let tail = parts.drop_first();
    if parts.len() == 2 {
        assert(tail =~= seq![parts[1]]);
        assert(parts.drop_last() =~= seq![parts[0]]);
        assert(joined(tail, separator) == parts[1]);
        assert(joined(parts.drop_last(), separator) == parts[0]);
        assert(parts.last() == parts[1]);
    } else {
        let rest = parts.drop_last();
        lemma_joined_front(rest, separator);
        assert(rest.drop_first() =~= tail.drop_last());
        assert(tail.last() == parts.last());
        assert(joined(parts, separator) =~= parts[0] + separator + joined(tail, separator));
    }
}

proof fn lemma_joined_concat(
    left: Seq<Seq<char>>,
    right: Seq<Seq<char>>,
    separator: Seq<char>,
)
    requires
        left.len() > 0,
        right.len() > 0,
    ensures
        joined(left + right, separator) == joined(left, separator) + separator + joined(
            right,
            separator,
        ),
    decreases right.len(),
{
    let part = right.last();
    let rest = right.drop_last();
    assert(left + right =~= (left + rest).push(part));
    lemma_joined_push(left + rest, part, separator);
    if rest.len() == 0 {
        assert(left + rest =~= left);
    } else {
        lemma_joined_concat(left, rest, separator);
        assert(joined(left + right, separator) =~= joined(left, separator) + separator + joined(
            right,
            separator,
        ));
    }
}

proof fn lemma_start(s: Seq<char>)
    ensures
        0 <= indent_of(s) <= s.len(),
        trimmed_start(s) == s.skip(indent_of(s)),
        forall|i: int| 0 <= i < indent_of(s) ==> whitespace(#[trigger] s[i]),
        indent_of(s) < s.len() ==> !whitespace(s[indent_of(s)]),
    decreases s.len(),
{
    if s.len() > 0 && whitespace(s[0]) {
        let t = s.drop_first();
        lemma_start(t);
        assert(t.skip(indent_of(t)) =~= s.skip(indent_of(s)));
        assert forall|i: int| 0 <= i < indent_of(s) implies whitespace(#[trigger] s[i]) by {
            if i > 0 {
                assert(t[i - 1] == s[i]);
            }
        }
        if indent_of(s) < s.len() {
            assert(t[indent_of(t)] == s[indent_of(s)]);
        }
    } else {
        assert(s.skip(0) =~= s);
    }
}

proof fn lemma_starts_at(s: Seq<char>, n: int)
    requires
        0 <= n < s.len(),
        forall|i: int| 0 <= i < n ==> whitespace(#[trigger] s[i]),
        !whitespace(s[n]),
    ensures
        indent_of(s) == n,
        trimmed_start(s) == s.skip(n),
{
    lemma_start(s);
    if indent_of(s) < n {
        assert(whitespace(s[indent_of(s)]));
    }
    if n < indent_of(s) {
        assert(whitespace(s[n]));
    }
}

proof fn lemma_word_ends(w: Seq<char>, rest: Seq<char>)
    requires
        forall|j: int| 0 <= j < w.len() ==> !whitespace(#[trigger] w[j]),
        rest.len() > 0 ==> whitespace(rest[0]),
    ensures
        word_length(w + rest) == w.len(),
    decreases w.len(),
{
    let s = w + rest;
    if w.len() > 0 {
        assert(s[0] == w[0]);
        let t = w.drop_first();
        assert forall|j: int| 0 <= j < t.len() implies !whitespace(#[trigger] t[j]) by {
            assert(t[j] == w[j + 1]);
        }
        lemma_word_ends(t, rest);
        assert(s.drop_first() =~= t + rest);
    } else {
        assert(s =~= rest);
    }
}

proof fn lemma_spaced_ends(words: Seq<Seq<char>>)
    requires
        solid(words),
        words.len() > 0,
    ensures
        spaced(words).len() > 0,
        !whitespace(spaced(words)[0]),
        !whitespace(spaced(words).last()),
        spaced(words).len() >= words[0].len(),
        forall|i: int| 0 <= i < words[0].len() ==> #[trigger] spaced(words)[i] == words[0][i],
        words.len() == 1 ==> spaced(words) == words[0],
        words.len() > 1 ==> spaced(words).len() > words[0].len() && spaced(
            words,
        )[words[0].len() as int] == ' ',
    decreases words.len(),
{
    assert(word(words[0]));
    assert(word(words[words.len() - 1]));
    let first = words[0];
    let last = words.last();
    assert(!whitespace(first[0]));
    assert(!whitespace(last[last.len() - 1]));
    if words.len() > 1 {
        lemma_joined_front(words, seq![' ']);
        let tail = words.drop_first();
        assert(spaced(words) == first + seq![' '] + spaced(tail));
        assert(spaced(words) == spaced(words.drop_last()) + seq![' '] + last);
    }
}

proof fn lemma_spaced_plain(words: Seq<Seq<char>>)
    requires
        solid(words),
    ensures
        forall|i: int| 0 <= i < spaced(words).len() ==> #[trigger] spaced(words)[i] != '\n',
    decreases words.len(),
{
    if words.len() > 0 {
        let last = words.last();
        assert(word(words[words.len() - 1]));
        let rest = words.drop_last();
        assert forall|i: int| 0 <= i < rest.len() implies word(#[trigger] rest[i]) by {
            assert(rest[i] == words[i]);
        }
        lemma_spaced_plain(rest);
        let all = spaced(words);
        assert forall|i: int| 0 <= i < all.len() implies #[trigger] all[i] != '\n' by {
            if words.len() == 1 {
                assert(!whitespace(last[i]));
            } else {
                let before = spaced(rest);
                assert(all == before + seq![' '] + last);
                if i < before.len() {
                    assert(all[i] == before[i]);
                } else if i > before.len() {
                    assert(all[i] == last[i - before.len() - 1]);
                    assert(!whitespace(last[i - before.len() - 1]));
                }
            }
        }
    }
}

/// The words of words with spaces between them are these words.
proof fn lemma_words_of_spaced(words: Seq<Seq<char>>)
    requires
        solid(words),
    ensures
        words_of(spaced(words)) == words,
    decreases words.len(),
{
    let s = spaced(words);
    if words.len() == 0 {
        assert(words_of(s) =~= words);
    } else {
        lemma_spaced_ends(words);
        assert(trimmed_start(s) == s);
        let first = words[0];
        assert(word(first));
        let tail = words.drop_first();
        assert forall|i: int| 0 <= i < tail.len() implies word(#[trigger] tail[i]) by {
            assert(tail[i] == words[i + 1]);
        }
        lemma_words_of_spaced(tail);
        if words.len() == 1 {
            assert(s =~= first + Seq::<char>::empty());
            lemma_word_ends(first, Seq::empty());
            assert(s.take(word_length(s)) =~= first);
            let rest = s.skip(word_length(s));
            assert(rest.len() == 0);
            assert(trimmed_start(rest) == rest);
            assert(words_of(rest) =~= Seq::empty());
            assert(words_of(s) =~= seq![first]);
            assert(words =~= seq![first]);
        } else {
            lemma_joined_front(words, seq![' ']);
            let rest = seq![' '] + spaced(tail);
            assert(s =~= first + rest);
            lemma_word_ends(first, rest);
            assert(s.take(word_length(s)) =~= first);
            assert(s.skip(word_length(s)) =~= rest);
            assert(rest.drop_first() =~= spaced(tail));
            assert(trimmed_start(rest) == trimmed_start(spaced(tail)));
            assert(words_of(rest) == words_of(spaced(tail)));
            assert(words_of(s) == seq![first] + tail);
            assert(words =~= seq![first] + tail);
        }
    }
}

proof fn lemma_words_solid(s: Seq<char>)
    ensures
        solid(words_of(s)),
        words_of(s).len() == 0 <==> blank(s),
    decreases s.len(),
{
    lemma_start(s);
    let t = trimmed_start(s);
    if t.len() == 0 {
        assert(indent_of(s) == s.len());
    } else {
        assert(t[0] == s[indent_of(s)]);
        assert(!whitespace(s[indent_of(s)]));
        crate::text::lemma_word_length(t);
        let n = word_length(t);
        assert(n > 0);
        lemma_words_solid(t.skip(n));
        let first = t.take(n);
        let rest = words_of(t.skip(n));
        assert forall|j: int| 0 <= j < first.len() implies !whitespace(#[trigger] first[j]) by {
            assert(first[j] == t[j]);
        }
        assert(word(first));
        assert forall|i: int| 0 <= i < words_of(s).len() implies word(
            #[trigger] words_of(s)[i],
        ) by {
            if i > 0 {
                assert(words_of(s)[i] == rest[i - 1]);
            }
        }
    }
}

/// What words wrap to is made of words that stand on one line.
proof fn lemma_wrapped_pieces(words: Seq<Seq<char>>, width: nat)
    requires
        solid(words),
    ensures
        forall|k: int|
            0 <= k < wrapped(words, width).len() ==> is_piece(
                #[trigger] wrapped(words, width)[k],
                width,
            ),
        words.len() > 0 <==> wrapped(words, width).len() > 0,
{
    lemma_wrapping_pieces(words, width);
}

proof fn lemma_wrapping_pieces(words: Seq<Seq<char>>, width: nat)
    requires
        solid(words),
    ensures
        forall|k: int|
            0 <= k < wrapping(words, width).full.len() ==> is_piece(
                #[trigger] wrapping(words, width).full[k],
                width,
            ),
        wrapping(words, width).current.len() > 0 ==> is_piece(
            wrapping(words, width).current,
            width,
        ),
        words.len() > 0 <==> wrapping(words, width).current.len() > 0,
        words.len() == 0 ==> wrapping(words, width).full.len() == 0,
    decreases words.len(),
{
    if words.len() > 0 {
        let rest = words.drop_last();
        let last = words.last();
        assert(word(words[words.len() - 1]));
        assert forall|i: int| 0 <= i < rest.len() implies word(#[trigger] rest[i]) by {
            assert(rest[i] == words[i]);
        }
        lemma_wrapping_pieces(rest, width);
        let w = wrapping(rest, width);
        let next = wrapping(words, width);
        assert(on_one_line(seq![last], width));
        assert(spaced(seq![last]) == last);
        assert(is_piece(last, width));
        if w.current.len() > 0 && w.current.len() + 1 + last.len() <= width {
            let held = choose|held: Seq<Seq<char>>|
                #[trigger] on_one_line(held, width) && w.current == spaced(held);
            let more = held.push(last);
            lemma_joined_push(held, last, seq![' ']);
            assert(next.current =~= spaced(held) + seq![' '] + last);
            assert forall|i: int| 0 <= i < more.len() implies word(#[trigger] more[i]) by {
                if i < held.len() {
                    assert(more[i] == held[i]);
                }
            }
            assert(on_one_line(more, width));
        }
        assert forall|k: int| 0 <= k < next.full.len() implies is_piece(
            #[trigger] next.full[k],
            width,
        ) by {
            if k < w.full.len() {
                assert(next.full[k] == w.full[k]);
            } else {
                assert(next.full[k] == w.current);
            }
        }
    }
}

/// Words that stand on one line wrap to it.
proof fn lemma_one_line_wraps(words: Seq<Seq<char>>, width: nat)
    requires
        on_one_line(words, width),
    ensures
        wrapped(words, width) == seq![spaced(words)],
{
    lemma_one_line_wrapping(words, width);
    lemma_spaced_ends(words);
    assert(wrapped(words, width) =~= seq![spaced(words)]);
}

proof fn lemma_one_line_wrapping(words: Seq<Seq<char>>, width: nat)
    requires
        on_one_line(words, width),
    ensures
        wrapping(words, width).full.len() == 0,
        wrapping(words, width).current == spaced(words),
    decreases words.len(),
{
    let rest = words.drop_last();
    let last = words.last();
    if words.len() > 1 {
        assert(word(words[words.len() - 1]));
        assert forall|i: int| 0 <= i < rest.len() implies word(#[trigger] rest[i]) by {
            assert(rest[i] == words[i]);
        }
        assert(spaced(words) == spaced(rest) + seq![' '] + last);
        lemma_one_line_wrapping(rest, width);
        lemma_spaced_ends(rest);
        assert(spaced(rest).push(' ') + last =~= spaced(words));
    } else {
        assert(wrapping(rest, width).current.len() == 0);
    }
}

proof fn lemma_trimmed_whole(s: Seq<char>)
    requires
        s.len() > 0,
        !whitespace(s[0]),
        !whitespace(s.last()),
    ensures
        trimmed(s) == s,
{
}

/// A line of a list item is kept as it is, under its own beginning.
proof fn lemma_hanging_line(line: Seq<char>, q: Seq<char>, words: Seq<Seq<char>>)
    requires
        hangs(line, q, words),
    ensures
        authored_line(line) == line,
        bulleted(q) ==> marker_of(line) == Some(q),
        words.len() == 1 ==> words_of(said_by(line)) == words,
        line.len() <= CHANGELOG_LINE_WIDTH || words.len() == 1,
        well_ended(line),
{
    let n = q.len() as int;
    lemma_hanging_ends(line, q, words);
    if bulleted(q) {
        assert forall|i: int| 0 <= i < n - 2 implies whitespace(#[trigger] line[i]) by {
            assert(line[i] == q[i]);
        }
        assert(line[n - 2] == q[n - 2]);
        assert(line[n - 1] == q[n - 1]);
        lemma_starts_at(line, n - 2);
        let rest = line.skip(n - 2);
        assert(rest[0] == line[n - 2]);
        assert(rest[1] == line[n - 1]);
        assert(line.take(n) =~= q);
        lemma_kept(line, q, words);
    } else {
        lemma_indented_line(line, q, words);
    }
}

/// Whether a line holds no line feed and ends in a character that is not white space.
spec fn well_ended(line: Seq<char>) -> bool {
    &&& line.len() > 0
    &&& !whitespace(line.last())
    &&& forall|i: int| 0 <= i < line.len() ==> #[trigger] line[i] != '\n'
}

proof fn lemma_hanging_ends(line: Seq<char>, q: Seq<char>, words: Seq<Seq<char>>)
    requires
        hangs(line, q, words),
    ensures
        well_ended(line),
        !blank(line),
        line.len() <= CHANGELOG_LINE_WIDTH || words.len() == 1,
{
    let p = spaced(words);
    lemma_spaced_ends(words);
    lemma_spaced_plain(words);
    let n = q.len() as int;
    assert(line[n] == p[0]);
    assert(!whitespace(line[n]));
    assert(line.last() == p.last());
    assert forall|i: int| 0 <= i < line.len() implies #[trigger] line[i] != '\n' by {
        if i < n {
            assert(line[i] == q[i]);
        } else {
            assert(line[i] == p[i - n]);
        }
    }
}

proof fn lemma_indented_line(line: Seq<char>, q: Seq<char>, words: Seq<Seq<char>>)
    requires
        hangs(line, q, words),
        q == spaces(q.len()),
    ensures
        authored_line(line) == line,
        words.len() == 1 ==> words_of(said_by(line)) == words,
{
    let p = spaced(words);
    let n = q.len() as int;
    lemma_hanging_ends(line, q, words);
    lemma_spaced_ends(words);
    assert(line.skip(n) =~= p);
    assert(line[n] == p[0]);
    assert forall|i: int| 0 <= i < n implies whitespace(#[trigger] line[i]) by {
        assert(line[i] == q[i]);
    }
    lemma_starts_at(line, n);
    if p.len() >= 2 && p[1] == ' ' && (p[0] == '-' || p[0] == '*' || p[0] == '+') {
        let first = words[0];
        assert(word(first));
        if first.len() >= 2 {
            assert(p[1] == first[1]);
            assert(whitespace(first[1]));
        }
        assert(first.len() == 1);
        assert(words.len() > 1);
        let tail = words.drop_first();
        assert forall|i: int| 0 <= i < tail.len() implies word(#[trigger] tail[i]) by {
            assert(tail[i] == words[i + 1]);
        }
        lemma_joined_front(words, seq![' ']);
        assert(p =~= first + seq![' '] + spaced(tail));
        let marker = line.take(n + 2);
        assert(marker_of(line) == Some(marker));
        lemma_spaced_ends(tail);
        assert(on_one_line(tail, room(marker)));
        assert(line =~= marker + spaced(tail));
        lemma_kept(line, marker, tail);
    } else {
        lemma_words_of_spaced(words);
        lemma_one_line_wraps(words, room(q));
        lemma_trimmed_whole(p);
        assert(marker_of(line) is None);
        assert(prefix_of(line) == q);
        assert(said_by(line) == p);
        assert(hung(seq![p], q) == q + p);
    }
}

proof fn lemma_kept(line: Seq<char>, marker: Seq<char>, words: Seq<Seq<char>>)
    requires
        marker_of(line) == Some(marker),
        on_one_line(words, room(marker)),
        line == marker + spaced(words),
        !blank(line),
    ensures
        authored_line(line) == line,
        words_of(said_by(line)) == words,
{
    let p = spaced(words);
    lemma_spaced_ends(words);
    lemma_words_of_spaced(words);
    lemma_one_line_wraps(words, room(marker));
    lemma_trimmed_whole(p);
    assert(line.skip(marker.len() as int) =~= p);
    assert(hung(seq![p], marker) == marker + p);
}

proof fn lemma_stacked_nonempty(flat: Seq<Seq<char>>)
    requires
        flat.len() > 0,
        flat[0].len() > 0,
    ensures
        stacked(flat).len() > 0,
{
    if flat.len() > 1 {
        lemma_joined_front(flat, seq!['\n']);
    }
}

/// The lines of lines with line feeds between them are these lines.
proof fn lemma_lines_of_stacked(flat: Seq<Seq<char>>)
    requires
        flat.len() > 0,
        forall|i: int| 0 <= i < flat.len() ==> (#[trigger] flat[i]).len() == 0 || well_ended(flat[i]),
        flat.last().len() > 0,
    ensures
        lines_of(stacked(flat)) == flat,
    decreases flat.len(),
{
    let s = stacked(flat);
    let first = flat[0];
    crate::text::lemma_first_index(s, '\n');
    let n = first_index(s, '\n');
    if flat.len() == 1 {
        assert(s == first);
        if n < s.len() {
            assert(first[n] != '\n');
        }
        assert(lines_of(s) =~= seq![first]);
        assert(flat =~= seq![first]);
    } else {
        let tail = flat.drop_first();
        lemma_joined_front(flat, seq!['\n']);
        let m = first.len() as int;
        assert(s[m] == '\n');
        if n < m {
            assert(s[n] == first[n]);
            assert(first[n] != '\n');
        }
        assert(n == m);
        assert(s.take(n) =~= first);
        assert(s.skip(n + 1) =~= stacked(tail));
        assert forall|i: int| 0 <= i < tail.len() implies (#[trigger] tail[i]).len() == 0
            || well_ended(tail[i]) by {
            assert(tail[i] == flat[i + 1]);
        }
        lemma_lines_of_stacked(tail);
        assert(lines_of(s) == seq![first] + tail);
        assert(flat =~= seq![first] + tail);
    }
}

/// Whether a line holds no line feed.
spec fn unbroken(line: Seq<char>) -> bool {
    forall|i: int| 0 <= i < line.len() ==> #[trigger] line[i] != '\n'
}

proof fn lemma_lines_unbroken(s: Seq<char>)
    ensures
        forall|k: int| 0 <= k < lines_of(s).len() ==> unbroken(#[trigger] lines_of(s)[k]),
    decreases s.len(),
{
    if s.len() > 0 {
        crate::text::lemma_first_index(s, '\n');
        let n = first_index(s, '\n');
        if n < s.len() {
            let rest = s.skip(n + 1);
            lemma_lines_unbroken(rest);
            assert forall|k: int| 0 <= k < lines_of(s).len() implies unbroken(
                #[trigger] lines_of(s)[k],
            ) by {
                if k > 0 {
                    assert(lines_of(s)[k] == lines_of(rest)[k - 1]);
                } else {
                    let line = lines_of(s)[0];
                    assert forall|i: int| 0 <= i < line.len() implies #[trigger] line[i]
                        != '\n' by {
                        assert(line[i] == s[i]);
                    }
                }
            }
        } else {
            assert(unbroken(s));
        }
    }
}

proof fn lemma_last_line(s: Seq<char>)
    requires
        s.len() > 0,
        !whitespace(s.last()),
    ensures
        lines_of(s).len() > 0,
        lines_of(s).last().len() > 0,
        lines_of(s).last().last() == s.last(),
    decreases s.len(),
{
    crate::text::lemma_first_index(s, '\n');
    let n = first_index(s, '\n');
    if n < s.len() {
        let rest = s.skip(n + 1);
        assert(s[n] == '\n');
        assert(rest.len() > 0);
        assert(rest.last() == s.last());
        lemma_last_line(rest);
        assert(lines_of(s).last() == lines_of(rest).last());
    }
}

proof fn lemma_end(s: Seq<char>)
    ensures
        trimmed_end(s).len() > 0 ==> !whitespace(trimmed_end(s).last()),
    decreases s.len(),
{
    if s.len() > 0 && whitespace(s.last()) {
        lemma_end(s.drop_last());
    }
}

proof fn lemma_blank_says_nothing(line: Seq<char>)
    requires
        blank(line),
    ensures
        marker_of(line) is None,
        said_by(line).len() == 0,
{
    lemma_start(line);
    let n = indent_of(line);
    if n < line.len() {
        assert(whitespace(line[n]));
    }
}

proof fn lemma_says(line: Seq<char>)
    requires
        line.len() > 0,
        !whitespace(line.last()),
    ensures
        words_of(said_by(line)).len() > 0,
{
    lemma_start(line);
    let rest = match marker_of(line) {
        Some(marker) => line.skip(marker.len() as int),
        None => line,
    };
    if marker_of(line) is Some {
        let n = indent_of(line);
        assert(trimmed_start(line)[1] == line[n + 1]);
        assert(n + 2 < line.len());
    }
    assert(rest.len() > 0);
    assert(rest.last() == line.last());
    lemma_start(rest);
    let from = indent_of(rest);
    if from == rest.len() {
        assert(whitespace(rest[rest.len() - 1]));
    }
    let t = trimmed_start(rest);
    assert(t.last() == rest.last());
    assert(t[0] == rest[from]);
    lemma_trimmed_whole(t);
    assert(said_by(line) == t);
    lemma_words_solid(t);
    assert(!whitespace(t[0]));
}

proof fn lemma_prefix_leads(line: Seq<char>)
    requires
        unbroken(line),
    ensures
        leads(prefix_of(line)),
        marker_of(line) is Some ==> bulleted(prefix_of(line)),
{
    lemma_start(line);
    match marker_of(line) {
        Some(marker) => {
            let n = indent_of(line);
            let rest = trimmed_start(line);
            assert(rest[0] == line[n]);
            assert(rest[1] == line[n + 1]);
            assert forall|i: int| 0 <= i < marker.len() - 2 implies whitespace(
                #[trigger] marker[i],
            ) && marker[i] != '\n' by {
                assert(marker[i] == line[i]);
            }
            assert(bulleted(marker));
        },
        None => {
            let n = indent_of(line) as nat;
            assert(spaces(n).len() == n);
        },
    }
}

proof fn lemma_behind(q: Seq<char>, piece: Seq<char>)
    requires
        leads(q),
        is_piece(piece, room(q)),
    ensures
        settled(q + piece),
        (q + piece).len() > 0,
        bulleted(q) ==> opens(q + piece),
{
    let words = choose|words: Seq<Seq<char>>|
        #[trigger] on_one_line(words, room(q)) && piece == spaced(words);
    assert(hangs(q + piece, q, words));
    lemma_hanging_ends(q + piece, q, words);
}

/// The lines of some pieces behind a beginning.
proof fn lemma_hung(pieces: Seq<Seq<char>>, q: Seq<char>) -> (flat: Seq<Seq<char>>)
    requires
        leads(q),
        pieces.len() > 0,
        forall|i: int| 0 <= i < pieces.len() ==> is_piece(#[trigger] pieces[i], room(q)),
    ensures
        hung(pieces, q) == stacked(flat),
        flat.len() > 0,
        forall|i: int| 0 <= i < flat.len() ==> settled(#[trigger] flat[i]),
        flat.last().len() > 0,
        bulleted(q) ==> opens(flat[0]),
    decreases pieces.len(),
{
    let last = pieces.last();
    assert(is_piece(pieces[pieces.len() - 1], room(q)));
    if pieces.len() == 1 {
        lemma_behind(q, last);
        let flat = seq![q + last];
        assert(hung(pieces, q) == q + last);
        flat
    } else {
        let rest = pieces.drop_last();
        assert forall|i: int| 0 <= i < rest.len() implies is_piece(
            #[trigger] rest[i],
            room(q),
        ) by {
            assert(rest[i] == pieces[i]);
        }
        let before = lemma_hung(rest, q);
        let margin = spaces(q.len());
        assert(margin.len() == q.len());
        assert(leads(margin));
        lemma_behind(margin, last);
        let flat = before.push(margin + last);
        lemma_joined_push(before, margin + last, seq!['\n']);
        assert(hung(pieces, q) =~= stacked(flat));
        assert forall|i: int| 0 <= i < flat.len() implies settled(#[trigger] flat[i]) by {
            if i < before.len() {
                assert(flat[i] == before[i]);
            }
        }
        assert(flat[0] == before[0]);
        flat
    }
}

/// The lines that an authored line becomes.
proof fn lemma_authored_line(line: Seq<char>) -> (flat: Seq<Seq<char>>)
    requires
        unbroken(line),
    ensures
        authored_line(line) == stacked(flat),
        flat.len() > 0,
        forall|i: int| 0 <= i < flat.len() ==> settled(#[trigger] flat[i]),
        words_of(said_by(line)).len() > 0 ==> flat.last().len() > 0,
        words_of(said_by(line)).len() > 0 && marker_of(line) is Some ==> opens(flat[0]),
{
    let words = words_of(said_by(line));
    lemma_words_solid(said_by(line));
    lemma_prefix_leads(line);
    let q = prefix_of(line);
    let pieces = wrapped(words, room(q));
    lemma_wrapped_pieces(words, room(q));
    if blank(line) {
        lemma_blank_says_nothing(line);
    }
    if words.len() == 0 {
        assert(pieces.len() == 0);
        let nothing = Seq::<char>::empty();
        assert(authored_line(line) =~= nothing);
        assert(stacked(seq![nothing]) == nothing);
        assert(settled(nothing));
        seq![nothing]
    } else {
        lemma_hung(pieces, q)
    }
}

/// The lines that an authored list becomes.
proof fn lemma_authored(lines: Seq<Seq<char>>) -> (flat: Seq<Seq<char>>)
    requires
        lines.len() > 0,
        forall|i: int| 0 <= i < lines.len() ==> unbroken(#[trigger] lines[i]),
    ensures
        authored_list(lines) == stacked(flat),
        flat.len() > 0,
        forall|i: int| 0 <= i < flat.len() ==> settled(#[trigger] flat[i]),
        words_of(said_by(lines.last())).len() > 0 ==> flat.last().len() > 0,
        words_of(said_by(lines[0])).len() > 0 && marker_of(lines[0]) is Some ==> opens(flat[0]),
    decreases lines.len(),
{
    let rest = lines.drop_last();
    let last = lines.last();
    assert(unbroken(lines[lines.len() - 1]));
    let more = lemma_authored_line(last);
    let before = authored_list(rest);
    if rest.len() == 0 {
        assert(authored_list(lines) =~= stacked(more));
        more
    } else {
        assert forall|i: int| 0 <= i < rest.len() implies unbroken(#[trigger] rest[i]) by {
            assert(rest[i] == lines[i]);
        }
        let prior = lemma_authored(rest);
        assert(rest[0] == lines[0]);
        if before.len() > 0 {
            let flat = prior + more;
            lemma_joined_concat(prior, more, seq!['\n']);
            assert(authored_list(lines) =~= stacked(flat));
            assert forall|i: int| 0 <= i < flat.len() implies settled(#[trigger] flat[i]) by {
                if i < prior.len() {
                    assert(flat[i] == prior[i]);
                } else {
                    assert(flat[i] == more[i - prior.len()]);
                }
            }
            assert(flat.last() == more.last());
            assert(flat[0] == prior[0]);
            flat
        } else {
            assert(authored_list(lines) =~= stacked(more));
            if opens(prior[0]) {
                lemma_opens(prior[0]);
                lemma_stacked_nonempty(prior);
            }
            more
        }
    }
}

proof fn lemma_opens(line: Seq<char>)
    requires
        opens(line),
    ensures
        line.len() > 0,
        marker_of(line) is Some,
{
    let (q, words) = choose|q: Seq<char>, words: Seq<Seq<char>>|
        #[trigger] hangs(line, q, words) && bulleted(q);
    lemma_hanging_line(line, q, words);
}

/// The room that the mark of a bare body leaves.
spec fn bare_room() -> nat {
    (CHANGELOG_LINE_WIDTH - 2) as nat
}

/// The lines of a bare body after some more pieces.
proof fn lemma_bare_pieces(
    item: BareItem,
    prior: Seq<Seq<char>>,
    pieces: Seq<Seq<char>>,
) -> (flat: Seq<Seq<char>>)
    requires
        item.out == stacked(prior),
        prior.len() > 0 <==> item.out.len() > 0,
        prior.len() == 0 ==> !item.begun,
        forall|i: int| 0 <= i < prior.len() ==> settled(#[trigger] prior[i]),
        forall|i: int| 0 <= i < pieces.len() ==> is_piece(#[trigger] pieces[i], bare_room()),
    ensures
        with_pieces(item, pieces).out == stacked(flat),
        flat.len() == prior.len() + pieces.len(),
        flat.len() > 0 <==> with_pieces(item, pieces).out.len() > 0,
        flat.len() == 0 ==> !with_pieces(item, pieces).begun,
        forall|i: int| 0 <= i < flat.len() ==> settled(#[trigger] flat[i]),
        pieces.len() > 0 ==> flat.last().len() > 0,
        prior.len() > 0 ==> flat[0] == prior[0],
        prior.len() == 0 && pieces.len() > 0 ==> opens(flat[0]),
    decreases pieces.len(),
{
    if pieces.len() == 0 {
        prior
    } else {
        let rest = pieces.drop_last();
        let last = pieces.last();
        assert(is_piece(pieces[pieces.len() - 1], bare_room()));
        assert forall|i: int| 0 <= i < rest.len() implies is_piece(
            #[trigger] rest[i],
            bare_room(),
        ) by {
            assert(rest[i] == pieces[i]);
        }
        let before = lemma_bare_pieces(item, prior, rest);
        let held = with_pieces(item, rest);
        reveal_strlit("  ");
        reveal_strlit("- ");
        assert("  "@ =~= spaces(2));
        assert("- "@ =~= seq!['-', ' ']);
        let q = if held.begun {
            "  "@
        } else {
            "- "@
        };
        assert(leads(q));
        lemma_behind(q, last);
        let flat = before.push(q + last);
        lemma_joined_push(before, q + last, seq!['\n']);
        assert(with_piece(held, last).out =~= stacked(flat));
        assert forall|i: int| 0 <= i < flat.len() implies settled(#[trigger] flat[i]) by {
            if i < before.len() {
                assert(flat[i] == before[i]);
            }
        }
        flat
    }
}

/// The lines that a bare body becomes.
proof fn lemma_bare(lines: Seq<Seq<char>>) -> (flat: Seq<Seq<char>>)
    ensures
        bare_item(lines).out == stacked(flat),
        flat.len() > 0 <==> lines.len() > 0,
        flat.len() > 0 <==> bare_item(lines).out.len() > 0,
        flat.len() == 0 ==> !bare_item(lines).begun,
        forall|i: int| 0 <= i < flat.len() ==> settled(#[trigger] flat[i]),
        lines.len() > 0 && !blank(lines.last()) ==> flat.last().len() > 0,
        lines.len() > 0 && !blank(lines[0]) ==> opens(flat[0]),
    decreases lines.len(),
{
    if lines.len() == 0 {
        Seq::empty()
    } else {
        let rest = lines.drop_last();
        let line = lines.last();
        let prior = lemma_bare(rest);
        let item = bare_item(rest);
        if rest.len() > 0 {
            assert(rest[0] == lines[0]);
        }
        let nothing = Seq::<char>::empty();
        assert(settled(nothing));
        if blank(line) {
            if prior.len() == 0 {
                let flat = seq![nothing, nothing];
                assert(flat.drop_last() =~= seq![nothing]);
                assert(stacked(flat.drop_last()) == nothing);
                assert(item.out.push('\n') =~= stacked(flat));
                flat
            } else {
                let flat = prior.push(nothing);
                lemma_joined_push(prior, nothing, seq!['\n']);
                assert(item.out.push('\n') =~= stacked(flat));
                assert forall|i: int| 0 <= i < flat.len() implies settled(
                    #[trigger] flat[i],
                ) by {
                    if i < prior.len() {
                        assert(flat[i] == prior[i]);
                    }
                }
                assert(flat[0] == prior[0]);
                flat
            }
        } else {
            let words = words_of(trimmed(line));
            lemma_words_solid(trimmed(line));
            lemma_trimmed_says(line);
            lemma_wrapped_pieces(words, bare_room());
            lemma_bare_pieces(item, prior, wrapped(words, bare_room()))
        }
    }
}

proof fn lemma_trimmed_says(line: Seq<char>)
    requires
        !blank(line),
    ensures
        words_of(trimmed(line)).len() > 0,
{
    lemma_start(line);
    let t = trimmed_start(line);
    assert(t.len() > 0);
    assert(t[0] == line[indent_of(line)]);
    lemma_end_keeps_first(t);
    lemma_words_solid(trimmed(line));
    assert(!whitespace(trimmed(line)[0]));
}

proof fn lemma_end_keeps_first(s: Seq<char>)
    requires
        s.len() > 0,
        !whitespace(s[0]),
    ensures
        trimmed_end(s).len() > 0,
        trimmed_end(s)[0] == s[0],
    decreases s.len(),
{
    if whitespace(s.last()) {
        lemma_end_keeps_first(s.drop_last());
    }
}

/// The lines of a list item.
proof fn lemma_item_lines(body: Seq<char>) -> (flat: Seq<Seq<char>>)
    requires
        trimmed_end(body).len() > 0,
    ensures
        list_item(body) == stacked(flat),
        lines_of(list_item(body)) == flat,
        flat.len() > 0,
        forall|i: int| 0 <= i < flat.len() ==> settled(#[trigger] flat[i]),
        well_ended(flat.last()),
        lines_of(trimmed_end(body)).len() > 0,
        !blank(said_by(lines_of(trimmed_end(body))[0])) ==> opens(flat[0]),
{
    let text = trimmed_end(body);
    let lines = lines_of(text);
    lemma_end(body);
    lemma_last_line(text);
    lemma_lines_unbroken(text);
    lemma_says(lines.last());
    lemma_words_solid(said_by(lines[0]));
    if blank(lines[0]) {
        lemma_blank_says_nothing(lines[0]);
    }
    let last = lines.last();
    assert(!whitespace(last[last.len() - 1]));
    let flat = if marker_of(lines[0]) is Some {
        lemma_authored(lines)
    } else {
        lemma_bare(lines)
    };
    assert forall|i: int| 0 <= i < flat.len() implies (#[trigger] flat[i]).len() == 0
        || well_ended(flat[i]) by {
        lemma_settled(flat[i]);
    }
    assert(flat[flat.len() - 1].len() > 0);
    lemma_lines_of_stacked(flat);
    flat
}

proof fn lemma_settled(line: Seq<char>)
    requires
        settled(line),
    ensures
        line.len() == 0 || well_ended(line),
        authored_line(line) == line,
        line.len() <= CHANGELOG_LINE_WIDTH || words_of(said_by(line)).len() == 1,
{
    if line.len() > 0 {
        let (q, words) = choose|q: Seq<char>, words: Seq<Seq<char>>| hangs(line, q, words);
        lemma_hanging_line(line, q, words);
    } else {
        assert(authored_line(line) =~= line);
    }
}

proof fn lemma_settled_list(flat: Seq<Seq<char>>)
    requires
        flat.len() > 0,
        flat[0].len() > 0,
        forall|i: int| 0 <= i < flat.len() ==> settled(#[trigger] flat[i]),
    ensures
        authored_list(flat) == stacked(flat),
    decreases flat.len(),
{
    let rest = flat.drop_last();
    let last = flat.last();
    assert(settled(flat[flat.len() - 1]));
    lemma_settled(last);
    if rest.len() == 0 {
        assert(authored_list(rest).len() == 0);
        assert(authored_list(flat) =~= last);
    } else {
        assert forall|i: int| 0 <= i < rest.len() implies settled(#[trigger] rest[i]) by {
            assert(rest[i] == flat[i]);
        }
        assert(rest[0] == flat[0]);
        lemma_settled_list(rest);
        lemma_stacked_nonempty(rest);
        assert(authored_list(flat) =~= stacked(flat));
    }
}

proof fn lemma_nothing(body: Seq<char>)
    requires
        trimmed_end(body).len() == 0,
    ensures
        list_item(body).len() == 0,
{
}

/// No line of a list item is wider than a line of the file, unless it says a single word.
pub proof fn item_lines_fit(body: Seq<char>, k: int)
    requires
        0 <= k < lines_of(list_item(body)).len(),
    ensures
        lines_of(list_item(body))[k].len() <= CHANGELOG_LINE_WIDTH || words_of(
            said_by(lines_of(list_item(body))[k]),
        ).len() == 1,
{
    if trimmed_end(body).len() == 0 {
        lemma_nothing(body);
    } else {
        let flat = lemma_item_lines(body);
        lemma_settled(flat[k]);
    }
}

/// A body whose first line says something becomes a list item: its first line carries a marker.
pub proof fn items_begin_with_a_marker(body: Seq<char>)
    requires
        lines_of(trimmed_end(body)).len() > 0,
        !blank(said_by(lines_of(trimmed_end(body))[0])),
    ensures
        lines_of(list_item(body)).len() > 0,
        marker_of(lines_of(list_item(body))[0]) is Some,
{
    let flat = lemma_item_lines(body);
    lemma_opens(flat[0]);
}

/// A list item made into a list item again stays as it is: what carries a marker gets no
/// second one, and what is wrapped is not wrapped otherwise.
pub proof fn items_stay_as_they_are(body: Seq<char>)
    requires
        list_item(body).len() > 0 ==> marker_of(lines_of(list_item(body))[0]) is Some,
    ensures
        list_item(list_item(body)) == list_item(body),
{
    let item = list_item(body);
    if trimmed_end(body).len() == 0 {
        lemma_nothing(body);
        assert(trimmed_end(item).len() == 0);
        lemma_nothing(item);
        assert(list_item(item) =~= item);
    } else {
        let flat = lemma_item_lines(body);
        let last = flat.last();
        if flat.len() > 1 {
            assert(item == stacked(flat.drop_last()) + seq!['\n'] + last);
        }
        assert(item.last() == last.last());
        assert(trimmed_end(item) == item);
        lemma_start(flat[0]);
        assert(flat[0].len() > 0);
        lemma_settled_list(flat);
    }
}

/// Whether a line is a bullet and nothing else.
pub open spec fn lone_bullet(line: Seq<char>) -> bool {
    trimmed(line) == seq!['-'] || trimmed(line) == seq!['*'] || trimmed(line) == seq!['+']
}

proof fn lemma_end_drops_blank(s: Seq<char>, n: int)
    requires
        0 < n <= s.len(),
        !whitespace(s[n - 1]),
        forall|i: int| n <= i < s.len() ==> whitespace(#[trigger] s[i]),
    ensures
        trimmed_end(s) == s.take(n),
    decreases s.len(),
{
    if s.len() > n {
        assert(whitespace(s[s.len() - 1]));
        let shorter = s.drop_last();
        lemma_end_drops_blank(shorter, n);
        assert(shorter.take(n) =~= s.take(n));
    } else {
        assert(s.take(n) =~= s);
    }
}

proof fn lemma_more_than_a_bullet_says(line: Seq<char>)
    requires
        !blank(line),
        !lone_bullet(line),
    ensures
        !blank(said_by(line)),
{
    lemma_words_solid(said_by(line));
    if marker_of(line) is None {
        lemma_trimmed_says(line);
    } else {
        lemma_start(line);
        let n = indent_of(line);
        let text = trimmed_start(line);
        assert(text[0] == line[n]);
        let rest = line.skip(n + 2);
        if blank(rest) {
            assert forall|i: int| 1 <= i < text.len() implies whitespace(#[trigger] text[i]) by {
                if i > 1 {
                    assert(text[i] == rest[i - 2]);
                }
            }
            lemma_end_drops_blank(text, 1);
            assert(text.take(1) =~= seq![text[0]]);
        } else {
            lemma_trimmed_says(rest);
        }
    }
}

/// Rendering a body twice gives what rendering it once gives, where its first line is not blank
/// and not a lone bullet.
pub proof fn items_are_rendered_once(body: Seq<char>)
    requires
        lines_of(trimmed_end(body)).len() > 0 ==> !blank(lines_of(trimmed_end(body))[0])
            && !lone_bullet(lines_of(trimmed_end(body))[0]),
    ensures
        list_item(list_item(body)) == list_item(body),
{
    if lines_of(trimmed_end(body)).len() > 0 {
        lemma_more_than_a_bullet_says(lines_of(trimmed_end(body))[0]);
        items_begin_with_a_marker(body);
    }
    items_stay_as_they_are(body);
}

} // verus!
