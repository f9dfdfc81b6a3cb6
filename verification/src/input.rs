//! What callers write: durations, tags and bodies.
use crate::table::{ascending, insert_name, lemma_views_listed, listed};
use crate::text::{
    all_digits, among, chars_of, digits_value, is_whitespace, parse_number, same, text_between,
    trim, trimmed, views, whitespace,
};
use vstd::prelude::*;

verus! {

/// Why a text is not a duration.
#[derive(Debug, PartialEq, Eq, Structural)]
pub enum DurationError {
    Empty,
    NotANumber,
    NumberTooLarge,
    Zero,
    UnknownUnit,
    TooLarge,
}

/// The seconds of one unit of a duration.
pub open spec fn unit_seconds(unit: char) -> Option<nat> {
    if unit == 's' {
        Some(1)
    } else if unit == 'm' {
        Some(60)
    } else if unit == 'h' {
        Some(3600)
    } else {
        None
    }
}

/// The seconds that a text stands for: a positive number in decimal digits and a unit behind it.
pub open spec fn duration_of(raw: Seq<char>) -> Result<nat, DurationError> {
    if raw.len() == 0 {
        Err(DurationError::Empty)
    } else {
        let number = raw.drop_last();
        let value = digits_value(number);
        if number.len() == 0 || !all_digits(number) {
            Err(DurationError::NotANumber)
        } else if value > u64::MAX {
            Err(DurationError::NumberTooLarge)
        } else if value == 0 {
            Err(DurationError::Zero)
        } else {
            match unit_seconds(raw.last()) {
                None => Err(DurationError::UnknownUnit),
                Some(unit) => if value * unit > i64::MAX {
                    Err(DurationError::TooLarge)
                } else {
                    Ok(value * unit)
                },
            }
        }
    }
}

/// The seconds that a text stands for.
pub fn parse_duration(raw: &str) -> (r: Result<u64, DurationError>)
    ensures
        match r {
            Ok(seconds) => duration_of(raw@) == Ok::<nat, DurationError>(seconds as nat),
            Err(error) => duration_of(raw@) == Err::<nat, DurationError>(error),
        },
{
    let chars = chars_of(raw);
    let n: usize = chars.len();
    if n == 0 {
        return Err(DurationError::Empty);
    }
    let unit: char = chars[n - 1];
    let number = text_between(&chars, 0, n - 1);
    assert(number@ =~= raw@.drop_last());
    if n == 1 {
        return Err(DurationError::NotANumber);
    }
    for i in 0..n - 1
        invariant
            n == chars@.len(),
            n > 1,
            chars@ == raw@,
            number@ == raw@.drop_last(),
            forall|k: int| 0 <= k < i ==> 48 <= #[trigger] number@[k] as u32 <= 57,
    {
        let code: u32 = chars[i] as u32;
        if code < 48 || code > 57 {
            assert(number@[i as int] == chars@[i as int]);
            return Err(DurationError::NotANumber);
        }
        assert(number@[i as int] == chars@[i as int]);
    }
    assert(all_digits(number@));
    assert(number@[0] != '+') by {
        assert(48 <= number@[0] as u32 <= 57);
    }
    let value: u64 = match parse_number(number.as_str()) {
        Some(value) => value,
        None => {
            return Err(DurationError::NumberTooLarge);
        },
    };
    if value == 0 {
        return Err(DurationError::Zero);
    }
    let multiplier: u64 = match unit {
        's' => 1,
        'm' => 60,
        'h' => 3600,
        _ => {
            return Err(DurationError::UnknownUnit);
        },
    };
    match value.checked_mul(multiplier) {
        Some(seconds) => if seconds <= 0x7fff_ffff_ffff_ffff {
            Ok(seconds)
        } else {
            Err(DurationError::TooLarge)
        },
        None => Err(DurationError::TooLarge),
    }
}

/// Whether a text holds white space.
pub open spec fn spaced(s: Seq<char>) -> bool {
    exists|i: int| 0 <= i < s.len() && whitespace(#[trigger] s[i])
}

/// Whether a text holds white space.
pub fn has_space(text: &str) -> (r: bool)
    ensures
        r == spaced(text@),
{
    let chars = chars_of(text);
    for i in 0..chars.len()
        invariant
            chars@ == text@,
            forall|k: int| 0 <= k < i ==> !whitespace(#[trigger] text@[k]),
    {
        if is_whitespace(chars[i]) {
            return true;
        }
    }
    false
}

/// Whether a text is a tag: not empty and without white space.
pub open spec fn is_tag(s: Seq<char>) -> bool {
    s.len() > 0 && !spaced(s)
}

/// Whether a text is what one of some raw tags trims to.
pub open spec fn tagged(raw: Seq<String>) -> spec_fn(Seq<char>) -> bool {
    |tag: Seq<char>| exists|i: int| 0 <= i < raw.len() && trimmed((#[trigger] raw[i])@) == tag
}

/// Whether every raw tag trims to a tag.
pub open spec fn all_tags(raw: Seq<String>) -> bool {
    forall|i: int| 0 <= i < raw.len() ==> is_tag(trimmed((#[trigger] raw[i])@))
}

/// Whether `text` is what the first raw tag that trims to no tag trims to.
pub open spec fn first_invalid(raw: Seq<String>, text: Seq<char>) -> bool {
    exists|i: int|
        {
            &&& 0 <= i < raw.len()
            &&& text == trimmed((#[trigger] raw[i])@)
            &&& !is_tag(text)
            &&& forall|k: int| 0 <= k < i ==> is_tag(trimmed((#[trigger] raw[k])@))
        }
}

/// A raw tag is empty or holds white space.
#[derive(Debug)]
pub struct InvalidTag {
    pub tag: String,
}

/// The tags, trimmed, in ascending order and each once, or the first that is none.
pub fn normalize_tags(tags: &Vec<String>) -> (r: Result<Vec<String>, InvalidTag>)
    ensures
        match r {
            Ok(normalized) => {
                &&& all_tags(tags@)
                &&& views(normalized@) == listed(tagged(tags@))
                &&& ascending(views(normalized@))
                &&& forall|x: Seq<char>| #[trigger]
                    among(normalized@, x) <==> tagged(tags@)(x)
            },
            Err(invalid) => first_invalid(tags@, invalid.tag@),
        },
{
    let mut normalized: Vec<String> = Vec::new();
    for i in 0..tags.len()
        invariant
            ascending(views(normalized@)),
            forall|k: int| 0 <= k < i ==> is_tag(trimmed((#[trigger] tags@[k])@)),
            forall|x: Seq<char>| #[trigger]
                among(normalized@, x) <==> exists|k: int|
                    0 <= k < i && trimmed((#[trigger] tags@[k])@) == x,
    {
        let tag = trim(tags[i].as_str());
        if tag.as_str().is_empty() || has_space(tag.as_str()) {
            return Err(InvalidTag { tag });
        }
        insert_name(&mut normalized, tag.as_str());
    }
    proof {
        lemma_views_listed(normalized@, tagged(tags@));
    }
    Ok(normalized)
}

/// Normalizing tags that are normalized changes nothing.
pub proof fn normalizing_is_idempotent(tags: Seq<String>)
    requires
        ascending(views(tags)),
        forall|i: int| 0 <= i < tags.len() ==> is_tag((#[trigger] tags[i])@),
    ensures
        forall|i: int| 0 <= i < tags.len() ==> trimmed((#[trigger] tags[i])@) == tags[i]@,
        listed(tagged(tags)) == views(tags),
{
    assert forall|i: int| 0 <= i < tags.len() implies trimmed((#[trigger] tags[i])@)
        == tags[i]@ by {
        lemma_tag_trims_to_itself(tags[i]@);
    }
    assert forall|x: Seq<char>| #[trigger] among(tags, x) <==> tagged(tags)(x) by {
        if among(tags, x) {
            let i = choose|i: int| 0 <= i < tags.len() && #[trigger] tags[i]@ == x;
            assert(trimmed(tags[i]@) == x);
        }
        if tagged(tags)(x) {
            let i = choose|i: int| 0 <= i < tags.len() && trimmed((#[trigger] tags[i])@) == x;
            assert(tags[i]@ == x);
        }
    }
    lemma_views_listed(tags, tagged(tags));
}

proof fn lemma_tag_trims_to_itself(s: Seq<char>)
    requires
        !spaced(s),
    ensures
        trimmed(s) == s,
{
    if s.len() > 0 {
        assert(!whitespace(s[0]));
        assert(!whitespace(s[s.len() - 1]));
    }
}

/// Where the body of an entry comes from.
#[derive(Debug)]
pub enum BodySource {
    Given(String),
    Stdin,
    File(String),
}

/// Why there is no body.
#[derive(Debug, PartialEq, Eq, Structural)]
pub enum BodyError {
    Missing,
    Both,
    Empty,
}

/// Whether `r` says where the body comes from.
pub open spec fn is_body_source(
    body: Option<String>,
    body_file: Option<String>,
    r: Result< BodySource, BodyError, >,
) -> bool {
    match (body, body_file) {
            (Some(text), None) => r == Ok::<BodySource, BodyError>(BodySource::Given(text)),
            (None, Some(path)) => if path@ == "-"@ {
                r == Ok::<BodySource, BodyError>(BodySource::Stdin)
            } else {
                r == Ok::<BodySource, BodyError>(BodySource::File(path))
            },
            (None, None) => r == Err::<BodySource, BodyError>(BodyError::Missing),
            (Some(_), Some(_)) => r == Err::<BodySource, BodyError>(BodyError::Both),
        }
}

/// Where the body comes from: it is given, or a file names it, and `-` is standard input.
pub fn body_source(body: Option<String>, body_file: Option<String>) -> (r: Result<
    BodySource,
    BodyError,
>)
    ensures
        is_body_source(body, body_file, r),
{
    match body {
        Some(text) => match body_file {
            Some(_) => Err(BodyError::Both),
            None => Ok(BodySource::Given(text)),
        },
        None => match body_file {
            Some(path) => if same(path.as_str(), "-") {
                Ok(BodySource::Stdin)
            } else {
                Ok(BodySource::File(path))
            },
            None => Err(BodyError::Missing),
        },
    }
}

/// Whether `r` is a body without the white space around it.
pub open spec fn reads_body(
    text: &str,
    r: Result<String, BodyError>,
) -> bool {
    match r {
            Ok(body) => trimmed(text@).len() > 0 && body@ == trimmed(text@),
            Err(error) => trimmed(text@).len() == 0 && error == BodyError::Empty,
        }
}

/// A body without the white space around it, which has to leave something.
pub fn read_body(text: &str) -> (r: Result<String, BodyError>)
    ensures
        reads_body(text, r),
{
    let body = trim(text);
    if body.as_str().is_empty() {
        Err(BodyError::Empty)
    } else {
        Ok(body)
    }
}

/// A number of minutes is sixty times as many seconds, and a number of hours sixty times as many
/// minutes; a duration is never nothing.
pub proof fn units_multiply_durations(number: Seq<char>)
    requires
        number.len() > 0,
        all_digits(number),
        0 < digits_value(number),
        digits_value(number) * 3600 <= i64::MAX,
    ensures
        duration_of(number.push('s')) == Ok::<nat, DurationError>(digits_value(number)),
        duration_of(number.push('m')) == Ok::<nat, DurationError>(digits_value(number) * 60),
        duration_of(number.push('h')) == Ok::<nat, DurationError>(digits_value(number) * 3600),
{
    assert(number.push('s').drop_last() =~= number);
    assert(number.push('m').drop_last() =~= number);
    assert(number.push('h').drop_last() =~= number);
}

/// What is a duration is digits and one of three units, and stands for a positive number of seconds
/// that fits; the text without its unit is none.
pub proof fn durations_have_a_unit(raw: Seq<char>)
    requires
        duration_of(raw) is Ok,
    ensures
        duration_of(raw)->Ok_0 > 0,
        duration_of(raw)->Ok_0 <= i64::MAX,
        raw.len() > 1,
        all_digits(raw.drop_last()),
        raw.last() == 's' || raw.last() == 'm' || raw.last() == 'h',
{
    let value = digits_value(raw.drop_last());
    let unit = unit_seconds(raw.last())->0;
    assert(value * unit > 0) by (nonlinear_arith)
        requires
            value > 0,
            unit > 0,
    ;
}

/// Tags are accepted exactly where none is empty or holds white space inside, and then each of them
/// is there without the white space around it.
pub proof fn tags_hold_no_space(raw: Seq<String>)
    ensures
        all_tags(raw) <==> forall|i: int, k: int|
            #![trigger trimmed(raw[i]@)[k]]
            0 <= i < raw.len() ==> trimmed(raw[i]@).len() > 0 && (0 <= k < trimmed(raw[i]@).len()
                ==> !whitespace(trimmed(raw[i]@)[k])),
{
    if all_tags(raw) {
        assert forall|i: int, k: int|
            #![trigger trimmed(raw[i]@)[k]]
            0 <= i < raw.len() implies trimmed(raw[i]@).len() > 0 && (0 <= k < trimmed(
            raw[i]@,
        ).len() ==> !whitespace(trimmed(raw[i]@)[k])) by {
            assert(is_tag(trimmed(raw[i]@)));
        }
    } else {
        let i = choose|i: int| 0 <= i < raw.len() && !is_tag(trimmed((#[trigger] raw[i])@));
        let tag = trimmed(raw[i]@);
        if tag.len() > 0 {
            let k = choose|k: int| 0 <= k < tag.len() && whitespace(#[trigger] tag[k]);
            assert(whitespace(trimmed(raw[i]@)[k]));
        } else {
            assert(trimmed(raw[i]@)[0] == tag[0]);
        }
    }
}

/// A body comes from exactly one place, and from standard input only where a dash says so.
pub proof fn bodies_come_from_one_place(
    body: Option<String>,
    body_file: Option<String>,
    r: Result<BodySource, BodyError>,
)
    requires
        is_body_source(body, body_file, r),
    ensures
        r is Ok <==> body is Some != body_file is Some,
        r matches Ok(BodySource::Stdin) ==> body_file is Some && body_file->0@ == "-"@,
        r matches Ok(BodySource::File(path)) ==> body_file == Some(path),
        r matches Ok(BodySource::Given(text)) ==> body == Some(text),
        body_file is Some && body is None && body_file->0@ == "-"@ ==> r matches Ok(
            BodySource::Stdin,
        ),
{
}

/// A body says something.
pub proof fn bodies_say_something(text: &str, r: Result<String, BodyError>)
    requires
        reads_body(text, r),
    ensures
        r is Ok <==> trimmed(text@).len() > 0,
        r matches Ok(body) ==> body@ == trimmed(text@),
{
}

} // verus!
