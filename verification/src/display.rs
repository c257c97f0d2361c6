//! Text for the screen: dates, spans of time and sizes.
//!
//! The texts are written by `chrono` and `indicatif`. What they write is not
//! proved here: each text is given a name, and the contracts of this library
//! speak of that name.

use chrono::TimeZone;
use std::fmt::Write;
use vstd::prelude::*;

use crate::text::{parse_u64, parsed_u64, text_of};

verus! {

/// The format in which dates are shown: year, month and day.
pub const DATE_FORMAT: &'static str = "%Y/%m/%d";

/// What `chrono` writes for the moment `secs` seconds after the epoch, taken
/// in UTC, in the format `format`: nothing where the moment is beyond the
/// dates that `chrono` holds, or where it refuses the format.
pub uninterp spec fn utc_text(secs: int, format: Seq<char>) -> Option<Seq<char>>;

/// What `indicatif::HumanDuration` writes for a span of `secs` seconds.
pub uninterp spec fn duration_text(secs: nat) -> Seq<char>;

/// What `indicatif::HumanBytes` writes for a size of `bytes` bytes.
pub uninterp spec fn bytes_text(bytes: nat) -> Seq<char>;

/// Makes the moment with `chrono::TimeZone::timestamp_opt` on `chrono::Utc`
/// and writes it with `chrono::DateTime::format`.
///
/// Believed, not proved: the text is the one that is named `utc_text`.
#[verifier::external_body]
fn format_utc(secs: i64, format: &str) -> (text: Option<String>)
    ensures
        text_of(text) == utc_text(secs as int, format@),
{
    let moment = chrono::Utc.timestamp_opt(secs, 0).single()?;
    let mut text = String::new();
    write!(text, "{}", moment.format(format)).ok()?;
    Some(text)
}

/// Writes a span of `secs` seconds as `indicatif::HumanDuration` shows it.
///
/// Believed, not proved: the text is the one that is named `duration_text`.
#[verifier::external_body]
pub(crate) fn human_duration(secs: u64) -> (text: String)
    ensures
        text@ == duration_text(secs as nat),
{
    format!("{}", indicatif::HumanDuration(std::time::Duration::from_secs(secs)))
}

/// Writes a size of `bytes` bytes as `indicatif::HumanBytes` shows it.
///
/// Believed, not proved: the text is the one that is named `bytes_text`.
#[verifier::external_body]
fn human_bytes(bytes: u64) -> (text: String)
    ensures
        text@ == bytes_text(bytes as nat),
{
    format!("{}", indicatif::HumanBytes(bytes))
}

/// The date of the moment `time` seconds after the epoch, in UTC.
pub open spec fn date_text(time: nat) -> Option<Seq<char>> {
    if time <= i64::MAX {
        utc_text(time as int, DATE_FORMAT@)
    } else {
        None
    }
}

/// The date of the moment `time` seconds after the epoch, in UTC, as year,
/// month and day; nothing where the moment is beyond the dates that can be
/// shown.
pub fn date_of(time: usize) -> (date: Option<String>)
    ensures
        text_of(date) == date_text(time as nat),
{
    if time as u64 > i64::MAX as u64 {
        return None;
    }
    format_utc(time as i64, DATE_FORMAT)
}

/// The size that the text `file_size` gives in bytes, as it is shown.
pub open spec fn size_text(file_size: Seq<char>) -> Option<Seq<char>> {
    match parsed_u64(file_size) {
        Some(bytes) => Some(bytes_text(bytes as nat)),
        None => None,
    }
}

/// The size that the remote catalog gives as the text `file_size`, as it is
/// shown in a list; nothing where `file_size` is no number.
pub fn size_label(file_size: &str) -> (label: Option<String>)
    ensures
        text_of(label) == size_text(file_size@),
{
    match parse_u64(file_size) {
        Some(bytes) => Some(human_bytes(bytes)),
        None => None,
    }
}

} // verus!
