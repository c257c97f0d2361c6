//! Small helpers of the menus: identifiers in file names and links, and sizes
//! as they are shown.

use vstd::prelude::*;
use vstd::string::StringExecFns;

use crate::binary::{tenths, tenths_of};
use crate::pattern::{
    capture_first, compiles, find_first, first_captures, first_match, groups_of,
};
use crate::text::{decimal, decimal_of, digit, digit_of, text_of};

verus! {

/// What a menu hands back when it is left.
pub struct MenuResult {}

/// A run of seven or more digits.
pub const ADDON_ID_PATTERN: &'static str = "([0-9]{7,})";

/// A link to a workshop page, with the identifier of the item as its second
/// group.
pub const WORKSHOP_URL_PATTERN: &'static str =
    "https?://steamcommunity.com/(workshop|sharedfiles)/filedetails/\\?id=([0-9]+)";

/// Where the page of a workshop item is found, up to its identifier.
pub const WORKSHOP_PAGE: &'static str = "https://steamcommunity.com/sharedfiles/filedetails/?id=";

/// The link to the page of the workshop item `id`.
pub fn workshop_page(id: &str) -> (url: String)
    ensures
        url@ == WORKSHOP_PAGE@ + id@,
{
    WORKSHOP_PAGE.to_owned().concat(id)
}

/// The identifier that a file name carries: the first match of
/// `ADDON_ID_PATTERN` in it.
pub open spec fn addon_id_in(filename: Seq<char>) -> Option<Seq<char>> {
    if compiles(ADDON_ID_PATTERN@) {
        first_match(ADDON_ID_PATTERN@, filename)
    } else {
        None
    }
}

/// The identifier among the capture groups of a link to a workshop page: the
/// last of exactly three groups.
pub open spec fn id_among(groups: Seq<Option<Seq<char>>>) -> Option<Seq<char>> {
    if groups.len() == 3 {
        groups[2]
    } else {
        None
    }
}

/// The identifier that a link to a workshop page carries.
pub open spec fn workshop_id_in(url: Seq<char>) -> Option<Seq<char>> {
    if compiles(WORKSHOP_URL_PATTERN@) {
        match first_captures(WORKSHOP_URL_PATTERN@, url) {
            Some(groups) => id_among(groups),
            None => None,
        }
    } else {
        None
    }
}

/// The unit in which a size is shown.
#[derive(Clone, Copy, PartialEq, Eq, Debug)]
pub enum ByteUnit {
    /// Single bytes.
    Bytes,
    /// Thousands of bytes.
    Kilobytes,
    /// Millions of bytes.
    Megabytes,
    /// Thousand millions of bytes.
    Gigabytes,
}

/// The unit in which `bytes` is shown: the largest decimal unit that the size
/// exceeds. A size of exactly one unit is still shown in the unit below.
pub open spec fn unit_of(bytes: u64) -> ByteUnit {
    if bytes > 1_000_000_000 {
        ByteUnit::Gigabytes
    } else if bytes > 1_000_000 {
        ByteUnit::Megabytes
    } else if bytes > 1_000 {
        ByteUnit::Kilobytes
    } else {
        ByteUnit::Bytes
    }
}

/// How many bytes make one of `unit`.
pub open spec fn bytes_per(unit: ByteUnit) -> u64 {
    match unit {
        ByteUnit::Bytes => 1,
        ByteUnit::Kilobytes => 1_000,
        ByteUnit::Megabytes => 1_000_000,
        ByteUnit::Gigabytes => 1_000_000_000,
    }
}

/// The abbreviation of `unit`.
pub open spec fn suffix_of(unit: ByteUnit) -> Seq<char> {
    match unit {
        ByteUnit::Bytes => "B"@,
        ByteUnit::Kilobytes => "KB"@,
        ByteUnit::Megabytes => "MB"@,
        ByteUnit::Gigabytes => "GB"@,
    }
}

impl ByteUnit {
    /// The unit in which `bytes` is shown.
    pub fn of(bytes: u64) -> (unit: ByteUnit)
        ensures
            unit == unit_of(bytes),
            unit != ByteUnit::Bytes ==> bytes > bytes_per(unit),
    {
        if bytes > 1_000_000_000 {
            ByteUnit::Gigabytes
        } else if bytes > 1_000_000 {
            ByteUnit::Megabytes
        } else if bytes > 1_000 {
            ByteUnit::Kilobytes
        } else {
            ByteUnit::Bytes
        }
    }

    /// How many bytes make one of this unit.
    pub fn size(&self) -> (n: u64)
        ensures
            n == bytes_per(*self),
    {
        match self {
            ByteUnit::Bytes => 1,
            ByteUnit::Kilobytes => 1_000,
            ByteUnit::Megabytes => 1_000_000,
            ByteUnit::Gigabytes => 1_000_000_000,
        }
    }

    /// The abbreviation that follows the number.
    pub fn suffix(&self) -> (text: &'static str)
        ensures
            text@ == suffix_of(*self),
    {
        match self {
            ByteUnit::Bytes => "B",
            ByteUnit::Kilobytes => "KB",
            ByteUnit::Megabytes => "MB",
            ByteUnit::Gigabytes => "GB",
        }
    }
}

/// The size `bytes` as it is shown: a count of bytes as it is, a larger size
/// in its unit with one decimal, then a blank and the abbreviation of the
/// unit.
pub open spec fn formatted_bytes(bytes: u64) -> Seq<char> {
    let unit = unit_of(bytes);
    if unit == ByteUnit::Bytes {
        decimal_of(bytes as nat) + seq![' '] + suffix_of(unit)
    } else {
        let t = tenths(bytes as nat, bytes_per(unit) as nat);
        decimal_of(t / 10) + seq!['.'] + seq![digit_of(t % 10)] + seq![' '] + suffix_of(unit)
    }
}

/// The size `bytes` as it is shown: `"999 B"`, `"1.5 KB"`, `"2.0 GB"`.
///
/// The decimal is that of the quotient as double-precision arithmetic has
/// it, rounded to the nearest tenth, so that the text is the one that
/// printing the quotient of two doubles with one decimal gives.
pub fn format_bytes(bytes: u64) -> (text: String)
    ensures
        text@ == formatted_bytes(bytes),
{
    proof {
        reveal_strlit(" ");
        reveal_strlit(".");
    }
    assert(" "@ =~= seq![' ']);
    assert("."@ =~= seq!['.']);
    let unit = ByteUnit::of(bytes);
    match unit {
        ByteUnit::Bytes => decimal(bytes as u128).concat(" ").concat(unit.suffix()),
        _ => {
            let t = tenths_of(bytes, unit.size());
            decimal(t / 10).concat(".").concat(digit((t % 10) as usize)).concat(" ").concat(
                unit.suffix(),
            )
        },
    }
}

/// The patterns by which identifiers are found in text.
pub struct Regexes {}

impl Regexes {
    /// The identifier in the name of an addon file: its first run of seven
    /// or more digits.
    pub fn get_filename_addonid(filename: &str) -> (id: Option<String>)
        ensures
            text_of(id) == addon_id_in(filename@),
            id matches Some(text) ==> exists|from: int, to: int|
                0 <= from <= to <= filename@.len() && text@ == #[trigger] filename@.subrange(
                    from,
                    to,
                ),
    {
        match find_first(ADDON_ID_PATTERN, filename) {
            Ok(found) => found,
            Err(_) => None,
        }
    }

    /// The identifier among the capture groups of a link to a workshop page.
    pub fn id_from_groups(groups: &Vec<Option<String>>) -> (id: Option<String>)
        ensures
            text_of(id) == id_among(groups_of(groups@)),
    {
        if groups.len() == 3 {
            match &groups[2] {
                Some(id) => Some(id.clone()),
                None => None,
            }
        } else {
            None
        }
    }

    /// The identifier of the item that `url` links to, if `url` is a link to
    /// a workshop page.
    pub fn get_id_from_workshop_url(url: &str) -> (id: Option<String>)
        ensures
            text_of(id) == workshop_id_in(url@),
    {
        match capture_first(WORKSHOP_URL_PATTERN, url) {
            Ok(Some(groups)) => Regexes::id_from_groups(&groups),
            _ => None,
        }
    }
}

} // verus!
