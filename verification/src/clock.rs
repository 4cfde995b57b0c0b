//! Timestamps and fresh identifiers.

use crate::error::Error;
use crate::text;
use std::time::{Duration, SystemTime, SystemTimeError, UNIX_EPOCH};
use uuid::Uuid;
use vstd::prelude::*;
use vstd::string::*;

verus! {

/// A point in time of the system clock.
#[verifier::external_type_specification]
#[verifier::external_body]
pub struct ExSystemTime(SystemTime);

/// The error of a point in time that lies before the one it is compared with.
#[verifier::external_type_specification]
#[verifier::external_body]
pub struct ExSystemTimeError(SystemTimeError);

/// `SystemTime::now`: the current time. Nothing is claimed of it.
#[verifier::external_body]
fn system_now() -> (r: SystemTime) {
    SystemTime::now()
}

/// `SystemTime::duration_since` from the Unix epoch: how long after the epoch
/// `time` lies, or an error when it lies before. Nothing is claimed of it.
#[verifier::external_body]
fn since_epoch(time: SystemTime) -> (r: Result<Duration, SystemTimeError>) {
    time.duration_since(UNIX_EPOCH)
}

/// `Duration::as_millis`: the whole milliseconds of a duration. Nothing is
/// claimed of it.
#[verifier::external_body]
fn whole_millis(duration: &Duration) -> (r: u128) {
    duration.as_millis()
}

/// `ToString::to_string` of a `SystemTimeError`: the text that shows it. Nothing is
/// claimed of it.
#[verifier::external_body]
fn shown(e: &SystemTimeError) -> (r: String) {
    e.to_string()
}

/// The message of a number that its target type cannot hold.
pub open spec fn out_of_range() -> Seq<char> {
    "out of range integral type conversion attempted"@
}

/// The timestamp for a reading of the clock in milliseconds after the epoch, or for the
/// cause that a clock before the epoch has none.
pub open spec fn timestamp_outcome(reading: Result<u128, Seq<char>>) -> Result<int, Seq<char>> {
    match reading {
        Err(cause) => Err("system clock is before the Unix epoch: "@ + cause),
        Ok(millis) => if millis <= i64::MAX {
            Ok(millis as int)
        } else {
            Err(out_of_range())
        },
    }
}

/// The outcome of an operation that yields a number.
pub open spec fn number_outcome(r: Result<i64, Error>) -> Result<int, Seq<char>> {
    match r {
        Ok(n) => Ok(n as int),
        Err(e) => Err(e@),
    }
}

/// Turns a number into a signed 64-bit one.
pub fn to_i64(n: u128) -> (r: Result<i64, Error>)
    ensures
        number_outcome(r) == (if n <= i64::MAX {
            Ok::<int, Seq<char>>(n as int)
        } else {
            Err(out_of_range())
        }),
{
    if n <= 0x7fff_ffff_ffff_ffff {
        Ok(n as i64)
    } else {
        Err(Error::new("out of range integral type conversion attempted"))
    }
}

/// The model of a reading of the clock.
pub open spec fn read(reading: Result<u128, String>) -> Result<u128, Seq<char>> {
    match reading {
        Ok(millis) => Ok(millis),
        Err(cause) => Err(cause@),
    }
}

/// Turns a reading of the clock into a timestamp.
pub fn timestamp(reading: Result<u128, String>) -> (r: Result<i64, Error>)
    ensures
        number_outcome(r) == timestamp_outcome(read(reading)),
{
    match reading {
        Err(cause) => Err(Error::of2("system clock is before the Unix epoch: ", cause.as_str())),
        Ok(millis) => to_i64(millis),
    }
}

/// Holds of the texts that can show an error of the clock.
spec fn is_shown(e: SystemTimeError, cause: Seq<char>) -> bool {
    exists|text: String| #[trigger] call_ensures(shown, (&e,), text) && text@ == cause
}

/// Holds of the readings that the system clock can give: how many whole milliseconds
/// after the Unix epoch the current time lies, or where it lies before the text of that
/// error.
pub closed spec fn clock_gives(reading: Result<u128, Seq<char>>) -> bool {
    exists|time: SystemTime, elapsed: Result<Duration, SystemTimeError>|
        call_ensures(system_now, (), time) && #[trigger] call_ensures(
            since_epoch,
            (time,),
            elapsed,
        ) && match elapsed {
            Ok(duration) => reading matches Ok(millis) && call_ensures(
                whole_millis,
                (&duration,),
                millis,
            ),
            Err(e) => reading matches Err(cause) && is_shown(e, cause),
        }
}

/// Holds of the times that the system clock can give, in milliseconds after the epoch.
pub open spec fn clock_time(now: int) -> bool {
    exists|reading: Result<u128, Seq<char>>| #[trigger]
        clock_gives(reading) && timestamp_outcome(reading) == Ok::<int, Seq<char>>(now)
}

/// Holds of the messages that a reading which the system clock gave is refused with.
pub open spec fn clock_refusal(message: Seq<char>) -> bool {
    exists|reading: Result<u128, Seq<char>>| #[trigger]
        clock_gives(reading) && timestamp_outcome(reading) == Err::<int, Seq<char>>(message)
}

/// The current time in milliseconds after the Unix epoch: the timestamp for a reading
/// that the system clock gave.
pub fn unix_millis() -> (r: Result<i64, Error>)
    ensures
        match r {
            Ok(now) => clock_time(now as int),
            Err(e) => clock_refusal(e@),
        },
{
    let time: SystemTime = system_now();
    let elapsed: Result<Duration, SystemTimeError> = since_epoch(time);
    assert(call_ensures(since_epoch, (time,), elapsed));
    let reading: Result<u128, String> = match &elapsed {
        Ok(duration) => Ok(whole_millis(duration)),
        Err(e) => {
            let cause: String = shown(e);
            assert(call_ensures(shown, (e,), cause));
            Err(cause)
        },
    };
    assert(clock_gives(read(reading)));
    timestamp(reading)
}

/// The form of an identifier: 36 characters, hyphens at four places and
/// lower-case hexadecimal digits at the others.
pub open spec fn hyphenated(id: Seq<char>) -> bool {
    &&& id.len() == 36
    &&& forall|i: int|
        0 <= i < 36 ==> if i == 8 || i == 13 || i == 18 || i == 23 {
            #[trigger] id[i] == '-'
        } else {
            hex_digit(id[i])
        }
}

/// The lower-case hexadecimal digits.
pub open spec fn hex_digit(c: char) -> bool {
    0x30 <= c as u32 <= 0x39 || 0x61 <= c as u32 <= 0x66
}

/// `Uuid::now_v7`, written out: a version 7 UUID of the current time in its
/// lower-case hyphenated form. Which one it is depends on time and chance.
#[verifier::external_body]
fn new_id() -> (r: String)
    ensures
        hyphenated(r@),
{
    Uuid::now_v7().to_string()
}

/// Holds of the identifiers that are drawn.
pub closed spec fn drawn(id: Seq<char>) -> bool {
    exists|given: String| #[trigger] call_ensures(new_id, (), given) && given@ == id
}

/// Draws an identifier.
pub(crate) fn draw_id() -> (r: String)
    ensures
        drawn(r@),
        hyphenated(r@),
{
    let id: String = new_id();
    assert(call_ensures(new_id, (), id));
    id
}

/// A drawn identifier is in hyphenated form.
pub proof fn law_drawn_identifiers_are_hyphenated(id: Seq<char>)
    requires
        drawn(id),
    ensures
        hyphenated(id),
{
}

/// An identifier in hyphenated form is not blank and trimming leaves it as it is.
pub proof fn lemma_hyphenated_is_trimmed(id: Seq<char>)
    requires
        hyphenated(id),
    ensures
        text::trimmed(id) == id,
        !text::blank(id),
{
    assert(hex_digit(id[0]));
    assert(hex_digit(id.last()));
}

} // verus!
