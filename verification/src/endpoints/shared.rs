//! Values that all three endpoint views are built from.

use crate::state::node::{IdentityView, UniqueNodeIdentity};
use vstd::pervasive::unreached;
use vstd::prelude::*;

verus! {

/// The identity of a node as the endpoints show it.
#[derive(Debug)]
pub struct SUniqueNodeIdentity {
    pub node_name: String,
    pub network_id: String,
}

impl View for SUniqueNodeIdentity {
    type V = IdentityView;

    open spec fn view(&self) -> IdentityView {
        IdentityView { node_name: self.node_name@, network_id: self.network_id@ }
    }
}

impl SUniqueNodeIdentity {
    /// The shown form of `value`: the same name and network id.
    pub fn from(value: &UniqueNodeIdentity) -> (r: Self)
        ensures
            r@ == value@,
    {
        SUniqueNodeIdentity {
            node_name: value.node_name.clone(),
            network_id: value.network_id.clone(),
        }
    }
}

impl Clone for SUniqueNodeIdentity {
    fn clone(&self) -> (r: Self)
        ensures
            r@ == self@,
    {
        SUniqueNodeIdentity {
            node_name: self.node_name.clone(),
            network_id: self.network_id.clone(),
        }
    }
}

/// The first instant that has a calendar date: the start of the year
/// 262144 BCE, in milliseconds since the Unix epoch.
pub const MIN_UTC_MILLIS: i64 = -8_334_601_228_800_000;

/// The last instant that has a calendar date: the last millisecond of the
/// year 262142 CE, in milliseconds since the Unix epoch.
pub const MAX_UTC_MILLIS: i64 = 8_210_266_876_799_999;

/// Whether the instant `millis` milliseconds after the Unix epoch has a
/// calendar date.
pub open spec fn has_utc_date(millis: i64) -> bool {
    MIN_UTC_MILLIS <= millis <= MAX_UTC_MILLIS
}

/// The text that chrono writes for the UTC date and time of the instant
/// `millis` milliseconds after the Unix epoch.
pub uninterp spec fn utc_text(millis: i64) -> Seq<char>;

/// Calls `chrono::DateTime::from_timestamp_millis` and, where that gives a
/// date and time, `timestamp_millis` and `to_string` on it. Nothing of this
/// is proved. Claimed: chrono gives a date and time exactly for the instants
/// from the first day of its least year to the last day of its greatest, and
/// `timestamp_millis` gives back the milliseconds it was made from. The text
/// is only named.
#[verifier::external_body]
fn utc_date_time(millis: i64) -> (r: Option<(i64, String)>)
    ensures
        r is Some <==> has_utc_date(millis),
        r matches Some(parts) ==> parts.0 == millis && parts.1@ == utc_text(millis),
{
    match chrono::DateTime::from_timestamp_millis(millis) {
        Some(date_time) => Some((date_time.timestamp_millis(), date_time.to_string())),
        None => None,
    }
}

/// A point in time as the endpoints show it: milliseconds since the Unix
/// epoch, and the UTC date and time as text.
#[derive(Debug)]
pub struct SDateTime {
    timestamp: i64,
    date: String,
}

/// A shown point in time, with its date as a sequence of characters.
pub ghost struct SDateTimeView {
    pub timestamp: i64,
    pub date: Seq<char>,
}

impl View for SDateTime {
    type V = SDateTimeView;

    closed spec fn view(&self) -> SDateTimeView {
        SDateTimeView { timestamp: self.timestamp, date: self.date@ }
    }
}

/// The signed number with the same 64 bits as `value`.
pub open spec fn reinterpret(value: u64) -> i64 {
    if value <= i64::MAX {
        value as i64
    } else {
        (value - 0x1_0000_0000_0000_0000) as i64
    }
}

/// How `value` milliseconds are shown. The 64 bits are read as a signed
/// number; an instant without a calendar date is shown as the epoch.
pub open spec fn date_time_of(value: u64) -> SDateTimeView {
    let millis = reinterpret(value);
    if has_utc_date(millis) {
        SDateTimeView { timestamp: millis, date: utc_text(millis) }
    } else {
        SDateTimeView { timestamp: 0, date: utc_text(0) }
    }
}

impl SDateTime {
    /// A shown point in time from its two parts.
    pub fn new(timestamp: i64, date: String) -> (r: Self)
        ensures
            r@ == (SDateTimeView { timestamp, date: date@ }),
    {
        SDateTime { timestamp, date }
    }

    /// Shows `value` milliseconds since the Unix epoch.
    pub fn from(value: u64) -> (r: Self)
        ensures
            r@ == date_time_of(value),
    {
        let millis: i64 = if value <= 0x7fff_ffff_ffff_ffff {
            value as i64
        } else {
            ((value - 0x8000_0000_0000_0000) as i64) + i64::MIN
        };
        match utc_date_time(millis) {
            Some(parts) => SDateTime::new(parts.0, parts.1),
            None => match utc_date_time(0) {
                Some(epoch) => SDateTime::new(epoch.0, epoch.1),
                None => unreached(),
            },
        }
    }

    /// Milliseconds since the Unix epoch.
    pub fn timestamp(&self) -> (r: i64)
        ensures
            r == self@.timestamp,
    {
        self.timestamp
    }

    /// The UTC date and time as text.
    pub fn date(&self) -> (r: &str)
        ensures
            r@ == self@.date,
    {
        self.date.as_str()
    }
}

impl Clone for SDateTime {
    fn clone(&self) -> (r: Self)
        ensures
            r@ == self@,
    {
        SDateTime { timestamp: self.timestamp, date: self.date.clone() }
    }
}

/// The node that proposed a block, and when its proposal started and ended.
#[derive(Debug)]
pub struct BlockProducer {
    pub identity: SUniqueNodeIdentity,
    pub start: SDateTime,
    pub end: SDateTime,
}

/// A block producer as views.
pub ghost struct BlockProducerView {
    pub identity: IdentityView,
    pub start: SDateTimeView,
    pub end: SDateTimeView,
}

impl View for BlockProducer {
    type V = BlockProducerView;

    open spec fn view(&self) -> BlockProducerView {
        BlockProducerView { identity: self.identity@, start: self.start@, end: self.end@ }
    }
}

impl Clone for BlockProducer {
    fn clone(&self) -> (r: Self)
        ensures
            r@ == self@,
    {
        BlockProducer {
            identity: self.identity.clone(),
            start: self.start.clone(),
            end: self.end.clone(),
        }
    }
}

} // verus!
