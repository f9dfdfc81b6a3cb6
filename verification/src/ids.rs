//! Event identities: ULIDs, each of which comes after the one before it.
use crate::text::precedes;
use vstd::prelude::*;

verus! {

/// The number of random values that a ULID can hold within one millisecond.
pub const RANDOM_VALUES: u128 = 1208925819614629174706176;

/// The number that `ulid::Ulid::from_string` reads from a text, where the text is a ULID.
pub uninterp spec fn ulid_of(text: Seq<char>) -> Option<u128>;

/// The text that `ulid::Ulid::to_string` writes for a number.
pub uninterp spec fn ulid_text(value: u128) -> Seq<char>;

/// `ulid::Ulid::from_string`: the number that a text of 26 base-32 digits stands for.
#[verifier::external_body]
fn parse_ulid(text: &str) -> (r: Option<u128>)
    ensures
        r == ulid_of(text@),
{
    ulid::Ulid::from_string(text).ok().map(|id| id.0)
}

/// `ulid::Ulid::to_string`: 26 base-32 digits for a number. Reading the text gives the number
/// back, and the text of a smaller number comes before it.
#[verifier::external_body]
fn write_ulid(value: u128) -> (r: String)
    ensures
        r@ == ulid_text(value),
        ulid_of(r@) == Some(value),
        forall|smaller: u128| smaller < value ==> precedes(#[trigger] ulid_text(smaller), r@),
{
    ulid::Ulid(value).to_string()
}

/// `ulid::Ulid::increment`: the next number, unless the random part is at its last value.
#[verifier::external_body]
fn next_ulid(value: u128) -> (r: Option<u128>)
    ensures
        match r {
            Some(next) => next == value + 1 && value % RANDOM_VALUES != RANDOM_VALUES - 1,
            None => value % RANDOM_VALUES == RANDOM_VALUES - 1,
        },
{
    ulid::Ulid(value).increment().map(|id| id.0)
}

/// `ulid::Ulid::new`: a number made of the current time and chance.
#[verifier::external_body]
fn fresh_ulid() -> u128 {
    ulid::Ulid::new().0
}

/// Why an event has no identity after another.
#[derive(Debug, PartialEq, Eq, Structural)]
pub enum EventIdError {
    NotAUlid,
    Overflowed,
}

/// The identity that follows `previous` when the clock offers `current`: the current one where it
/// comes later, and otherwise the one right after `previous`.
pub open spec fn identity_after(previous: Seq<char>, current: u128) -> Result<Seq<char>, EventIdError> {
    match ulid_of(previous) {
        None => Err(EventIdError::NotAUlid),
        Some(held) => if current > held {
            Ok(ulid_text(current))
        } else if held % RANDOM_VALUES != RANDOM_VALUES - 1 {
            Ok(ulid_text((held + 1) as u128))
        } else {
            Err(EventIdError::Overflowed)
        },
    }
}

/// An event identity after `previous`, given the number that the clock and chance offer.
pub fn event_id_from(previous: &str, current: u128) -> (r: Result<String, EventIdError>)
    ensures
        match r {
            Ok(id) => identity_after(previous@, current) == Ok::<Seq<char>, EventIdError>(id@) && (
            exists|held: u128, value: u128|
                ulid_of(previous@) == Some(held) && ulid_of(id@) == Some(value) && held < value
                    && precedes(#[trigger] ulid_text(held), #[trigger] ulid_text(value)) && id@
                    == ulid_text(value)),
            Err(error) => identity_after(previous@, current) == Err::<Seq<char>, EventIdError>(
                error,
            ),
        },
{
    let held: u128 = match parse_ulid(previous) {
        Some(held) => held,
        None => {
            return Err(EventIdError::NotAUlid);
        },
    };
    if current > held {
        let id = write_ulid(current);
        assert(precedes(ulid_text(held), ulid_text(current)));
        Ok(id)
    } else {
        match next_ulid(held) {
            Some(next) => {
                let id = write_ulid(next);
                assert(precedes(ulid_text(held), ulid_text(next)));
                Ok(id)
            },
            None => Err(EventIdError::Overflowed),
        }
    }
}

/// An event identity after `previous`.
pub fn event_id_after(previous: &str) -> (r: Result<String, EventIdError>)
    ensures
        exists|current: u128|
            match r {
                Ok(id) => #[trigger] identity_after(previous@, current) == Ok::<
                    Seq<char>,
                    EventIdError,
                >(id@),
                Err(error) => identity_after(previous@, current) == Err::<Seq<char>, EventIdError>(
                    error,
                ),
            },
        ulid_of(previous@) is None <==> r == Err::<String, EventIdError>(EventIdError::NotAUlid),
        r matches Ok(id) ==> exists|held: u128, value: u128|
            ulid_of(previous@) == Some(held) && ulid_of(id@) == Some(value) && held < value
                && precedes(#[trigger] ulid_text(held), #[trigger] ulid_text(value)) && id@
                == ulid_text(value),
{
    event_id_from(previous, fresh_ulid())
}

/// The identity that a text names, as identities are written: events are compared by it with what
/// they come after.
pub fn cursor(text: &str) -> (r: Result<String, EventIdError>)
    ensures
        match r {
            Ok(id) => ulid_of(text@) matches Some(value) && id@ == ulid_text(value) && ulid_of(id@)
                == Some(value),
            Err(error) => error == EventIdError::NotAUlid && ulid_of(text@) is None,
        },
{
    match parse_ulid(text) {
        Some(value) => Ok(write_ulid(value)),
        None => Err(EventIdError::NotAUlid),
    }
}

} // verus!
