//! The measurement record and its construction from command-line text.
//!
//! A `DataEntry` is built all-or-nothing: every required argument must be
//! present and must parse, and the first missing or malformed field wins,
//! in the order dosage, time, lat, long.

use vstd::prelude::*;
use crate::num::check_number;
use crate::num::int_text_val;
use crate::num::is_int_text;
use crate::num::is_number_text;
use crate::num::parse_i64;

verus! {

/// One of the four required measurement arguments.
#[derive(Clone, Copy, PartialEq, Eq, Structural, Debug)]
pub enum Field {
    Dosage,
    Time,
    Lat,
    Long,
}

/// Why the arguments could not be turned into a `DataEntry`.
#[derive(Clone, Copy, PartialEq, Eq, Structural, Debug)]
pub enum ArgError {
    /// The named option was not supplied.
    Missing(Field),
    /// The named option's value is not a numeral the field accepts (for
    /// the timestamp: not an integer numeral, or out of 64-bit range).
    NotNumeric(Field),
}

/// One radiation measurement, ready for submission.  The dosage and the
/// two coordinates are carried as the validated decimal text the caller
/// supplied, so that serialization reproduces it exactly; the timestamp
/// is Unix epoch seconds.
#[derive(Debug)]
pub struct DataEntry {
    pub dosage: String,
    pub timestamp: i64,
    pub lat: String,
    pub long: String,
}

impl DataEntry {
    /// The three textual fields hold decimal numerals.
    pub open spec fn wf(self) -> bool {
        is_number_text(self.dosage@) && is_number_text(self.lat@) && is_number_text(self.long@)
    }
}

/// The timestamp text is an integer numeral whose value fits 64 bits.
pub open spec fn time_in_range(s: Seq<char>) -> bool {
    is_int_text(s) && i64::MIN <= int_text_val(s) <= i64::MAX
}

/// What `build_entry` decides from the four optional argument texts.
pub open spec fn build_spec(
    dosage: Option<Seq<char>>,
    time: Option<Seq<char>>,
    lat: Option<Seq<char>>,
    long: Option<Seq<char>>,
) -> Result<(Seq<char>, int, Seq<char>, Seq<char>), ArgError> {
    if dosage is None {
        Err(ArgError::Missing(Field::Dosage))
    } else if !is_number_text(dosage->0) {
        Err(ArgError::NotNumeric(Field::Dosage))
    } else if time is None {
        Err(ArgError::Missing(Field::Time))
    } else if !time_in_range(time->0) {
        Err(ArgError::NotNumeric(Field::Time))
    } else if lat is None {
        Err(ArgError::Missing(Field::Lat))
    } else if !is_number_text(lat->0) {
        Err(ArgError::NotNumeric(Field::Lat))
    } else if long is None {
        Err(ArgError::Missing(Field::Long))
    } else if !is_number_text(long->0) {
        Err(ArgError::NotNumeric(Field::Long))
    } else {
        Ok((dosage->0, int_text_val(time->0), lat->0, long->0))
    }
}

/// Validates the four argument texts and constructs the entry, or
/// reports the first missing or malformed field.  No entry exists in any
/// partial state: construction succeeds exactly when every field is
/// present and parses.
pub fn build_entry(
    dosage: Option<String>,
    time: Option<String>,
    lat: Option<String>,
    long: Option<String>,
) -> (r: Result<DataEntry, ArgError>)
    ensures
        ({
            let sp = build_spec(dosage.deep_view(), time.deep_view(), lat.deep_view(), long.deep_view());
            match r {
                Ok(e) => sp is Ok && e.dosage@ == sp->Ok_0.0 && e.timestamp as int == sp->Ok_0.1
                    && e.lat@ == sp->Ok_0.2 && e.long@ == sp->Ok_0.3,
                Err(er) => sp is Err && er == sp->Err_0,
            }
        }),
        r is Ok ==> r->Ok_0.wf(),
{
    let d: String = match dosage {
        Some(d) => d,
        None => {
            return Err(ArgError::Missing(Field::Dosage));
        },
    };
    if !check_number(d.as_str()) {
        return Err(ArgError::NotNumeric(Field::Dosage));
    }
    let t: String = match time {
        Some(t) => t,
        None => {
            return Err(ArgError::Missing(Field::Time));
        },
    };
    let ts: i64 = match parse_i64(t.as_str()) {
        Some(v) => v,
        None => {
            return Err(ArgError::NotNumeric(Field::Time));
        },
    };
    let la: String = match lat {
        Some(la) => la,
        None => {
            return Err(ArgError::Missing(Field::Lat));
        },
    };
    if !check_number(la.as_str()) {
        return Err(ArgError::NotNumeric(Field::Lat));
    }
    let lo: String = match long {
        Some(lo) => lo,
        None => {
            return Err(ArgError::Missing(Field::Long));
        },
    };
    if !check_number(lo.as_str()) {
        return Err(ArgError::NotNumeric(Field::Long));
    }
    Ok(DataEntry { dosage: d, timestamp: ts, lat: la, long: lo })
}

} // verus!
