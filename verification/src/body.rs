//! Serialization of a measurement into the JSON document the service
//! accepts: exactly the keys `uSv`, `time` and `location`, in that
//! order, with the location as a quoted Well-Known-Text point.

use vstd::prelude::*;
use vstd::string::StringExecFns;
use crate::entry::DataEntry;
use crate::num::dec_str_of;
use crate::num::i64_to_string;

verus! {

/// Well-Known-Text point built from latitude and longitude text, in the
/// order the service stores them: `POINT(<lat> <long>)`.
pub open spec fn wkt_point(lat: Seq<char>, long: Seq<char>) -> Seq<char> {
    "POINT("@ + lat + " "@ + long + ")"@
}

/// The JSON document submitted for a measurement.
pub open spec fn json_body_of(dosage: Seq<char>, time: int, lat: Seq<char>, long: Seq<char>) -> Seq<
    char,
> {
    "{\"uSv\":"@ + dosage + ",\"time\":"@ + dec_str_of(time) + ",\"location\":\""@ + wkt_point(
        lat,
        long,
    ) + "\"}"@
}

/// Returns the location string used by the API to insert a location,
/// built from latitude and longitude text.
pub fn location_to_string(lat: &str, long: &str) -> (r: String)
    ensures
        r@ == wkt_point(lat@, long@),
{
    let mut r: String = String::from_str("POINT(");
    r.append(lat);
    r.append(" ");
    r.append(long);
    r.append(")");
    proof {
        assert(r@ =~= wkt_point(lat@, long@));
    }
    r
}

/// Generates the JSON document for a `DataEntry` that can be used to
/// insert a value through the API.  The numeric fields appear exactly as
/// the entry carries them; the timestamp in canonical decimal.
pub fn to_json(data: &DataEntry) -> (r: String)
    ensures
        r@ == json_body_of(data.dosage@, data.timestamp as int, data.lat@, data.long@),
{
    let mut r: String = String::from_str("{\"uSv\":");
    r.append(data.dosage.as_str());
    r.append(",\"time\":");
    let ts: String = i64_to_string(data.timestamp);
    r.append(ts.as_str());
    r.append(",\"location\":\"");
    let loc: String = location_to_string(data.lat.as_str(), data.long.as_str());
    r.append(loc.as_str());
    r.append("\"}");
    proof {
        assert(r@ =~= json_body_of(data.dosage@, data.timestamp as int, data.lat@, data.long@));
    }
    r
}

/// The generated document carries its fields verbatim: the dosage text
/// follows the `uSv` key unchanged, the value of the `location` key is
/// exactly the WKT point, and the point carries the latitude and
/// longitude texts unchanged, in that order.
pub proof fn lemma_body_embeds(dosage: Seq<char>, time: int, lat: Seq<char>, long: Seq<char>)
    ensures
        ({
            let body = json_body_of(dosage, time, lat, long);
            let w = wkt_point(lat, long);
            let dl = dosage.len() as int;
            let tl = dec_str_of(time).len() as int;
            let wl = w.len() as int;
            let ll = lat.len() as int;
            let gl = long.len() as int;
            &&& body.len() == 30 + dl + tl + wl
            &&& body.subrange(7, 7 + dl) == dosage
            &&& body.subrange(28 + dl + tl, 28 + dl + tl + wl) == w
            &&& w.subrange(6, 6 + ll) == lat
            &&& w.subrange(7 + ll, 7 + ll + gl) == long
        }),
{
    reveal_strlit("{\"uSv\":");
    reveal_strlit(",\"time\":");
    reveal_strlit(",\"location\":\"");
    reveal_strlit("\"}");
    reveal_strlit("POINT(");
    reveal_strlit(" ");
    reveal_strlit(")");
    let body = json_body_of(dosage, time, lat, long);
    let w = wkt_point(lat, long);
    let dl = dosage.len() as int;
    let tl = dec_str_of(time).len() as int;
    let wl = w.len() as int;
    let ll = lat.len() as int;
    let gl = long.len() as int;
    assert(body.subrange(7, 7 + dl) =~= dosage);
    assert(body.subrange(28 + dl + tl, 28 + dl + tl + wl) =~= w);
    assert(w.subrange(6, 6 + ll) =~= lat);
    assert(w.subrange(7 + ll, 7 + ll + gl) =~= long);
}

} // verus!
