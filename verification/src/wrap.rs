//! Free text as list items: words wrapped at a width, markers and nesting kept.
use crate::text::{
    blank, char_count, chars_of, is_blank, is_whitespace, joined, lines, lines_of, text_between,
    trim, trim_end, trimmed, trimmed_end, trimmed_start, views, whitespace, words, words_of,
};
use vstd::prelude::*;

verus! {

/// The width of a line of the file.
pub const CHANGELOG_LINE_WIDTH: usize = 75;

/// Where wrapping stands after some words: the lines that are full, and the line being filled.
#[verifier::ext_equal]
pub struct Wrapping {
    pub full: Seq<Seq<char>>,
    pub current: Seq<char>,
}

/// One more word: it goes on the current line where it fits, and otherwise opens the next one.
pub open spec fn with_word(w: Wrapping, word: Seq<char>, width: nat) -> Wrapping {
    if w.current.len() == 0 {
        Wrapping { full: w.full, current: word }
    } else if w.current.len() + 1 + word.len() > width {
        Wrapping { full: w.full.push(w.current), current: word }
    } else {
        Wrapping { full: w.full, current: w.current.push(' ') + word }
    }
}

/// Wrapping some words.
pub open spec fn wrapping(words: Seq<Seq<char>>, width: nat) -> Wrapping
    decreases words.len(),
{
    if words.len() == 0 {
        Wrapping { full: Seq::empty(), current: Seq::empty() }
    } else {
        with_word(wrapping(words.drop_last(), width), words.last(), width)
    }
}

/// The lines that some words wrap to.
pub open spec fn wrapped(words: Seq<Seq<char>>, width: nat) -> Seq<Seq<char>> {
    let w = wrapping(words, width);
    if w.current.len() > 0 {
        w.full.push(w.current)
    } else {
        w.full
    }
}

/// The lines that the words of a line wrap to.
pub fn wrap_words(line: &str, width: usize) -> (r: Vec<String>)
    ensures
        views(r@) == wrapped(words_of(line@), width as nat),
{
    let all = words(line);
    let ghost texts = views(all@);
    let mut out: Vec<String> = Vec::new();
    let mut current = String::new();
    assert(texts.take(0) =~= Seq::<Seq<char>>::empty());
    for i in 0..all.len()
        invariant
            texts == views(all@),
            wrapping(texts.take(i as int), width as nat) == (Wrapping {
                full: views(out@),
                current: current@,
            }),
    {
        let ghost before = texts.take(i as int);
        let ghost next = texts.take(i + 1);
        proof {
            assert(next.drop_last() =~= before);
            assert(next.last() == all@[i as int]@);
        }
        let word = all[i].as_str();
        let held: usize = char_count(current.as_str());
        let more: usize = char_count(word);
        if held > 0 && (held >= width || more >= width - held) {
            let ghost prior = views(out@);
            let ghost full = current@;
            out.push(current);
            current = word.to_string();
            proof {
                assert(views(out@) =~= prior.push(full));
            }
        } else {
            if held > 0 {
                current.push(' ');
            }
            let ghost start = current@;
            current.append(word);
            proof {
                if held == 0 {
                    assert(current@ =~= word@);
                }
            }
        }
    }
    assert(texts.take(texts.len() as int) =~= texts);
    if !current.as_str().is_empty() {
        let ghost prior = views(out@);
        let ghost last = current@;
        out.push(current);
        proof {
            assert(views(out@) =~= prior.push(last));
        }
    }
    out
}

/// Wrapping keeps every word, in order: the lines joined by spaces are the words joined by
/// spaces.
pub proof fn wrapping_keeps_words(words: Seq<Seq<char>>, width: nat)
    requires
        forall|i: int| 0 <= i < words.len() ==> (#[trigger] words[i]).len() > 0,
    ensures
        joined(wrapped(words, width), seq![' ']) == joined(words, seq![' ']),
{
    lemma_wrapping_keeps(words, width);
}

proof fn lemma_wrapping_keeps(words: Seq<Seq<char>>, width: nat)
    requires
        forall|i: int| 0 <= i < words.len() ==> (#[trigger] words[i]).len() > 0,
    ensures
        joined(wrapped(words, width), seq![' ']) == joined(words, seq![' ']),
        words.len() > 0 <==> wrapping(words, width).current.len() > 0,
        words.len() == 0 ==> wrapping(words, width).full.len() == 0,
    decreases words.len(),
{
    let space = seq![' '];
    if words.len() > 0 {
        let rest = words.drop_last();
        assert forall|i: int| 0 <= i < rest.len() implies (#[trigger] rest[i]).len() > 0 by {
            assert(rest[i] == words[i]);
        }
        lemma_wrapping_keeps(rest, width);
        let w = wrapping(rest, width);
        let word = words.last();
        assert(words[words.len() - 1].len() > 0);
        let before = wrapped(rest, width);
        let after = wrapped(words, width);
        if rest.len() == 0 {
            assert(after =~= seq![word]);
        } else {
            assert(before =~= w.full.push(w.current));
            assert(before.drop_last() =~= w.full);
            if w.current.len() + 1 + word.len() > width {
                assert(after =~= before.push(word));
                assert(after.drop_last() =~= before);
            } else {
                let line = w.current.push(' ') + word;
                assert(after =~= w.full.push(line));
                assert(after.drop_last() =~= w.full);
                assert(line =~= w.current + space + word);
                if w.full.len() > 0 {
                    assert(joined(w.full, space) + space + line =~= joined(w.full, space) + space
                        + w.current + space + word);
                }
            }
        }
    }
}

/// No wrapped line is wider than the width, unless it is a single word that is.
pub proof fn wrapped_lines_fit(words: Seq<Seq<char>>, width: nat, k: int)
    requires
        0 <= k < wrapped(words, width).len(),
    ensures
        wrapped(words, width)[k].len() <= width || words.contains(wrapped(words, width)[k]),
{
    lemma_lines_fit(words, width);
    let w = wrapping(words, width);
    if k < w.full.len() {
        assert(fits_or_is_word(words, width, w.full[k]));
    }
}

/// Whether a line is no wider than the width, or is a single word.
spec fn fits_or_is_word(words: Seq<Seq<char>>, width: nat, line: Seq<char>) -> bool {
    line.len() <= width || words.contains(line)
}

proof fn lemma_lines_fit(words: Seq<Seq<char>>, width: nat)
    ensures
        forall|k: int|
            0 <= k < wrapping(words, width).full.len() ==> fits_or_is_word(
                words,
                width,
                #[trigger] wrapping(words, width).full[k],
            ),
        wrapping(words, width).current.len() > 0 ==> fits_or_is_word(
            words,
            width,
            wrapping(words, width).current,
        ),
    decreases words.len(),
{
    if words.len() > 0 {
        let rest = words.drop_last();
        lemma_lines_fit(rest, width);
        let w = wrapping(rest, width);
        let next = wrapping(words, width);
        let word = words.last();
        assert(words[words.len() - 1] == word);
        assert(words.contains(word));
        assert forall|line: Seq<char>| fits_or_is_word(rest, width, line) implies
            #[trigger] fits_or_is_word(words, width, line) by {
            if rest.contains(line) {
                let i = choose|i: int| 0 <= i < rest.len() && rest[i] == line;
                assert(words[i] == line);
            }
        }
        assert forall|k: int| 0 <= k < next.full.len() implies fits_or_is_word(
            words,
            width,
            #[trigger] next.full[k],
        ) by {
            if k < w.full.len() {
                assert(next.full[k] == w.full[k]);
            } else {
                assert(next.full[k] == w.current);
            }
        }
    }
}

/// The number of characters of white space that a line begins with.
pub open spec fn indent_of(line: Seq<char>) -> int {
    line.len() - trimmed_start(line).len()
}

/// The marker that a line carries: its indent and a bullet with a space behind it.
pub open spec fn marker_of(line: Seq<char>) -> Option<Seq<char>> {
    let rest = trimmed_start(line);
    if rest.len() >= 2 && rest[1] == ' ' && (rest[0] == '-' || rest[0] == '*' || rest[0] == '+') {
        Some(line.take(indent_of(line) + 2))
    } else {
        None
    }
}

proof fn lemma_indent_skips(line: Seq<char>)
    ensures
        0 <= indent_of(line) <= line.len(),
        trimmed_start(line) == line.skip(indent_of(line)),
    decreases line.len(),
{
    if line.len() > 0 && whitespace(line[0]) {
        let rest = line.drop_first();
        lemma_indent_skips(rest);
        assert(rest.skip(indent_of(rest)) =~= line.skip(indent_of(line)));
    } else {
        assert(line.skip(0) =~= line);
    }
}

/// The number of characters of the marker that a line carries.
fn marker_length(chars: &Vec<char>) -> (r: Option<usize>)
    ensures
        match r {
            Some(n) => n <= chars@.len() && n == indent_of(chars@) + 2 && marker_of(chars@) == Some(
                chars@.take(n as int),
            ),
            None => marker_of(chars@) is None,
        },
{
    let i: usize = count_indent(chars);
    proof {
        lemma_indent_skips(chars@);
    }
    let total: usize = chars.len();
    if total - i >= 2 && chars[i + 1] == ' ' && (chars[i] == '-' || chars[i] == '*' || chars[i]
        == '+') {
        Some(i + 2)
    } else {
        None
    }
}

/// The marker that a line carries.
pub fn line_marker(line: &str) -> (r: Option<String>)
    ensures
        match r {
            Some(marker) => marker_of(line@) == Some(marker@),
            None => marker_of(line@) is None,
        },
{
    let chars = chars_of(line);
    match marker_length(&chars) {
        Some(n) => {
            let marker = text_between(&chars, 0, n);
            assert(marker@ =~= line@.take(n as int));
            Some(marker)
        },
        None => None,
    }
}

/// A number of spaces.
pub open spec fn spaces(n: nat) -> Seq<char> {
    Seq::new(n, |i: int| ' ')
}

/// A number of spaces.
pub fn make_spaces(n: usize) -> (r: String)
    ensures
        r@ == spaces(n as nat),
{
    let mut out = String::new();
    for i in 0..n
        invariant
            out@ == spaces(i as nat),
    {
        out.push(' ');
        assert(out@ =~= spaces((i + 1) as nat));
    }
    out
}

fn count_indent(chars: &Vec<char>) -> (r: usize)
    ensures
        r == indent_of(chars@),
        r <= chars@.len(),
{
    let mut i: usize = 0;
    assert(chars@.skip(0) =~= chars@);
    while i < chars.len() && is_whitespace(chars[i])
        invariant
            i <= chars@.len(),
            trimmed_start(chars@.skip(i as int)) == trimmed_start(chars@),
        decreases chars.len() - i,
    {
        assert(chars@.skip(i as int).drop_first() =~= chars@.skip(i + 1));
        i += 1;
    }
    assert(trimmed_start(chars@.skip(i as int)) == chars@.skip(i as int));
    i
}

/// How an authored line begins: with its marker, or with as many spaces as its indent is wide.
pub open spec fn prefix_of(line: Seq<char>) -> Seq<char> {
    match marker_of(line) {
        Some(marker) => marker,
        None => spaces(indent_of(line) as nat),
    }
}

/// What an authored line says behind its beginning.
pub open spec fn said_by(line: Seq<char>) -> Seq<char> {
    match marker_of(line) {
        Some(marker) => trimmed(line.skip(marker.len() as int)),
        None => trimmed(line),
    }
}

/// The first piece behind the prefix, and every further piece on a line of its own under it.
pub open spec fn hung(pieces: Seq<Seq<char>>, prefix: Seq<char>) -> Seq<char>
    decreases pieces.len(),
{
    if pieces.len() == 0 {
        Seq::empty()
    } else if pieces.len() == 1 {
        prefix + pieces[0]
    } else {
        hung(pieces.drop_last(), prefix) + seq!['\n'] + spaces(prefix.len()) + pieces.last()
    }
}

/// The room that a prefix leaves on a line.
pub open spec fn room(prefix: Seq<char>) -> nat {
    if prefix.len() >= CHANGELOG_LINE_WIDTH {
        0
    } else {
        (CHANGELOG_LINE_WIDTH - prefix.len()) as nat
    }
}

/// An authored line, wrapped under its own marker.
pub open spec fn authored_line(line: Seq<char>) -> Seq<char> {
    if blank(line) {
        Seq::empty()
    } else {
        hung(wrapped(words_of(said_by(line)), room(prefix_of(line))), prefix_of(line))
    }
}

/// A list that its author wrote, each line wrapped under its own marker.
pub open spec fn authored_list(lines: Seq<Seq<char>>) -> Seq<char>
    decreases lines.len(),
{
    if lines.len() == 0 {
        Seq::empty()
    } else {
        let before = authored_list(lines.drop_last());
        (if before.len() > 0 {
            before.push('\n')
        } else {
            before
        }) + authored_line(lines.last())
    }
}

fn hang(pieces: &Vec<String>, prefix: &str) -> (r: String)
    ensures
        r@ == hung(views(pieces@), prefix@),
{
    let mut out = String::new();
    let continuation = make_spaces(char_count(prefix));
    let ghost texts = views(pieces@);
    assert(texts.take(0) =~= Seq::<Seq<char>>::empty());
    for k in 0..pieces.len()
        invariant
            texts == views(pieces@),
            continuation@ == spaces(prefix@.len()),
            out@ == hung(texts.take(k as int), prefix@),
    {
        let ghost before = texts.take(k as int);
        let ghost next = texts.take(k + 1);
        let ghost so_far = out@;
        proof {
            assert(next.drop_last() =~= before);
            assert(next.last() == pieces@[k as int]@);
        }
        if k > 0 {
            out.push('\n');
            out.append(continuation.as_str());
        } else {
            out.append(prefix);
        }
        out.append(pieces[k].as_str());
        proof {
            if k > 0 {
                assert(out@ =~= so_far + seq!['\n'] + continuation@ + pieces@[k as int]@);
            } else {
                assert(so_far.len() == 0);
                assert(out@ =~= prefix@ + pieces@[k as int]@);
            }
        }
    }
    assert(texts.take(texts.len() as int) =~= texts);
    out
}

fn wrap_authored_line(line: &str) -> (r: String)
    ensures
        r@ == authored_line(line@),
{
    if is_blank(line) {
        return String::new();
    }
    let chars = chars_of(line);
    let (prefix, said) = match marker_length(&chars) {
        Some(n) => {
            let marker = text_between(&chars, 0, n);
            let rest = text_between(&chars, n, chars.len());
            assert(marker@ =~= line@.take(n as int));
            assert(rest@ =~= line@.skip(n as int));
            (marker, trim(rest.as_str()))
        },
        None => (make_spaces(count_indent(&chars)), trim(line)),
    };
    let held: usize = char_count(prefix.as_str());
    let width: usize = if held >= CHANGELOG_LINE_WIDTH {
        0
    } else {
        CHANGELOG_LINE_WIDTH - held
    };
    let pieces = wrap_words(said.as_str(), width);
    hang(&pieces, prefix.as_str())
}

/// A body whose author already wrote it as a list, each line wrapped under its own marker.
pub fn wrap_authored_list(body: &str) -> (r: String)
    ensures
        r@ == authored_list(lines_of(body@)),
{
    let all = lines(body);
    let ghost texts = views(all@);
    let mut out = String::new();
    assert(texts.take(0) =~= Seq::<Seq<char>>::empty());
    for k in 0..all.len()
        invariant
            texts == views(all@),
            texts == lines_of(body@),
            out@ == authored_list(texts.take(k as int)),
    {
        let ghost before = out@;
        proof {
            assert(texts.take(k + 1).drop_last() =~= texts.take(k as int));
            assert(texts[k as int] == all@[k as int]@);
        }
        if !out.as_str().is_empty() {
            out.push('\n');
        }
        let line = wrap_authored_line(all[k].as_str());
        out.append(line.as_str());
    }
    assert(texts.take(texts.len() as int) =~= texts);
    out
}

/// Where a bare body stands after some of its lines: the text so far, and whether the item has
/// begun.
#[verifier::ext_equal]
pub struct BareItem {
    pub out: Seq<char>,
    pub begun: bool,
}

/// A piece of a bare body: on a line of its own, with a bullet where the item begins.
pub open spec fn with_piece(item: BareItem, piece: Seq<char>) -> BareItem {
    BareItem {
        out: (if item.out.len() > 0 {
            item.out.push('\n')
        } else {
            item.out
        }) + (if item.begun {
            "  "@
        } else {
            "- "@
        }) + piece,
        begun: true,
    }
}

/// Some pieces of a bare body.
pub open spec fn with_pieces(item: BareItem, pieces: Seq<Seq<char>>) -> BareItem
    decreases pieces.len(),
{
    if pieces.len() == 0 {
        item
    } else {
        with_piece(with_pieces(item, pieces.drop_last()), pieces.last())
    }
}

/// The lines of a bare body: a blank line is a paragraph break, any other is wrapped.
pub open spec fn bare_item(lines: Seq<Seq<char>>) -> BareItem
    decreases lines.len(),
{
    if lines.len() == 0 {
        BareItem { out: Seq::empty(), begun: false }
    } else {
        let item = bare_item(lines.drop_last());
        let line = lines.last();
        if blank(line) {
            BareItem { out: item.out.push('\n'), begun: item.begun }
        } else {
            with_pieces(
                item,
                wrapped(words_of(trimmed(line)), (CHANGELOG_LINE_WIDTH - 2) as nat),
            )
        }
    }
}

/// A body as a list item: what its author wrote as a list keeps its markers and nesting, and
/// anything else becomes one item.
pub open spec fn list_item(body: Seq<char>) -> Seq<char> {
    let lines = lines_of(trimmed_end(body));
    if lines.len() == 0 {
        Seq::empty()
    } else if marker_of(lines[0]) is Some {
        authored_list(lines)
    } else {
        bare_item(lines).out
    }
}

/// A body as a list item.
pub fn as_list_item(body: &str) -> (r: String)
    ensures
        r@ == list_item(body@),
{
    let body = trim_end(body);
    let all = lines(body.as_str());
    if all.len() == 0 {
        return String::new();
    }
    let ghost texts = views(all@);
    assert(texts[0] == all@[0]@);
    if line_marker(all[0].as_str()).is_some() {
        return wrap_authored_list(body.as_str());
    }
    let mut out = String::new();
    let mut begun = false;
    assert(texts.take(0) =~= Seq::<Seq<char>>::empty());
    for k in 0..all.len()
        invariant
            texts == views(all@),
            bare_item(texts.take(k as int)) == (BareItem { out: out@, begun }),
    {
        proof {
            assert(texts.take(k + 1).drop_last() =~= texts.take(k as int));
            assert(texts.take(k + 1).last() == all@[k as int]@);
        }
        let line = all[k].as_str();
        if is_blank(line) {
            out.push('\n');
        } else {
            let pieces = wrap_words(trim(line).as_str(), CHANGELOG_LINE_WIDTH - 2);
            let ghost start = BareItem { out: out@, begun };
            let ghost parts = views(pieces@);
            assert(parts.take(0) =~= Seq::<Seq<char>>::empty());
            for m in 0..pieces.len()
                invariant
                    parts == views(pieces@),
                    with_pieces(start, parts.take(m as int)) == (BareItem { out: out@, begun }),
            {
                proof {
                    assert(parts.take(m + 1).drop_last() =~= parts.take(m as int));
                    assert(parts.take(m + 1).last() == pieces@[m as int]@);
                }
                if !out.as_str().is_empty() {
                    out.push('\n');
                }
                if begun {
                    out.append("  ");
                } else {
                    out.append("- ");
                }
                out.append(pieces[m].as_str());
                begun = true;
            }
            assert(parts.take(parts.len() as int) =~= parts);
        }
    }
    assert(texts.take(texts.len() as int) =~= texts);
    out
}

} // verus!
