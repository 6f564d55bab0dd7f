//! The measurement list returned by the service: a decoded JSON value
//! tree, the shape expected of it, and the lines printed for it.
//!
//! Each printed line labels `coordinates[0]` as `Lat` and
//! `coordinates[1]` as `Long`.  That order is taken from the service as
//! it emits the pair, deliberately without relabeling.

use vstd::prelude::*;
use vstd::assert_by_contradiction;
use vstd::std_specs::iter::IteratorSpec;
use vstd::string::StringExecFns;
use crate::num::all_digits;
use crate::num::is_digit;
use crate::num::is_digit_char;
use crate::text::str_eq;

verus! {

/// A decoded JSON value.  Numbers are carried as the decimal text the
/// decoder renders for them.
pub enum JsonNode {
    Null,
    Bool(bool),
    Num(String),
    Str(String),
    Arr(Vec<JsonNode>),
    Obj(Vec<(String, JsonNode)>),
}

/// Mathematical model of a JSON value.
pub enum JsonVal {
    Null,
    Bool(bool),
    Num(Seq<char>),
    Str(Seq<char>),
    Arr(Seq<JsonVal>),
    Obj(Seq<(Seq<char>, JsonVal)>),
}

/// The model of a decoded JSON value.
pub open spec fn node_view(n: JsonNode) -> JsonVal
    decreases n,
    via node_view_dec
{
    match n {
        JsonNode::Null => JsonVal::Null,
        JsonNode::Bool(b) => JsonVal::Bool(b),
        JsonNode::Num(s) => JsonVal::Num(s@),
        JsonNode::Str(s) => JsonVal::Str(s@),
        JsonNode::Arr(v) => JsonVal::Arr(
            Seq::new(
                v@.len(),
                |i: int|
                    if 0 <= i < v@.len() {
                        node_view(v@[i])
                    } else {
                        JsonVal::Null
                    },
            ),
        ),
        JsonNode::Obj(v) => JsonVal::Obj(
            Seq::new(
                v@.len(),
                |i: int|
                    if 0 <= i < v@.len() {
                        (v@[i].0@, node_view(v@[i].1))
                    } else {
                        (Seq::empty(), JsonVal::Null)
                    },
            ),
        ),
    }
}

#[via_fn]
proof fn node_view_dec(n: JsonNode) {
    broadcast use vstd::std_specs::vec::axiom_vec_index_decreases;

    match n {
        JsonNode::Arr(v) => {
            assert forall|i: int| 0 <= i < v@.len() implies decreases_to!(n => v@[i]) by {
                assert(decreases_to!(n => v));
                assert(decreases_to!(v => v[i]));
            }
        },
        JsonNode::Obj(v) => {
            assert forall|i: int| 0 <= i < v@.len() implies decreases_to!(n => v@[i].1) by {
                assert(decreases_to!(n => v));
                assert(decreases_to!(v => v[i]));
                assert(decreases_to!(v[i] => v[i].1));
            }
        },
        _ => {},
    }
}

/// Model of an object's pair list.
pub open spec fn pairs_view(s: Seq<(String, JsonNode)>) -> Seq<(Seq<char>, JsonVal)> {
    Seq::new(
        s.len(),
        |i: int|
            if 0 <= i < s.len() {
                (s[i].0@, node_view(s[i].1))
            } else {
                (Seq::empty(), JsonVal::Null)
            },
    )
}

/// Model of an array's element list.
pub open spec fn elems_view(s: Seq<JsonNode>) -> Seq<JsonVal> {
    Seq::new(
        s.len(),
        |i: int|
            if 0 <= i < s.len() {
                node_view(s[i])
            } else {
                JsonVal::Null
            },
    )
}

/// The value under the first occurrence of `key`, if any.  The decoder
/// keeps object keys unique, so the first occurrence is the only one.
pub open spec fn jlookup(pairs: Seq<(Seq<char>, JsonVal)>, key: Seq<char>) -> Option<JsonVal>
    decreases pairs.len(),
{
    if pairs.len() == 0 {
        None
    } else if pairs[0].0 == key {
        Some(pairs[0].1)
    } else {
        jlookup(pairs.skip(1), key)
    }
}

/// Why a response does not have the expected shape: a JSON array of
/// objects carrying `uSv`, `time`, and `location.coordinates[0]`/`[1]`.
#[derive(Clone, Copy, PartialEq, Eq, Structural, Debug)]
pub enum ResponseError {
    /// The top-level response value is not an array.
    NotAnArray,
    /// An element of the array is not an object.
    NotAnObject,
    /// `uSv` is missing or not a number.
    BadUSv,
    /// `time` is missing or not a number.
    BadTime,
    /// `location` is missing or not an object.
    BadLocation,
    /// `coordinates` is missing, not an array, or does not begin with
    /// two numbers.
    BadCoordinates,
}

/// The number text under an optional value, when it is a number.
pub open spec fn num_text_of(v: Option<JsonVal>) -> Option<Seq<char>> {
    match v {
        Some(JsonVal::Num(s)) => Some(s),
        _ => None,
    }
}

/// The four field texts printed for one measurement object, or the
/// first field that is missing or of the wrong type, in the order
/// `uSv`, `time`, `location`, `coordinates`.
pub open spec fn fields_spec(m: JsonVal) -> Result<
    (Seq<char>, Seq<char>, Seq<char>, Seq<char>),
    ResponseError,
> {
    match m {
        JsonVal::Obj(ps) => {
            let u = num_text_of(jlookup(ps, "uSv"@));
            let t = num_text_of(jlookup(ps, "time"@));
            if u is None {
                Err(ResponseError::BadUSv)
            } else if t is None {
                Err(ResponseError::BadTime)
            } else {
                match jlookup(ps, "location"@) {
                    Some(JsonVal::Obj(lps)) => {
                        match jlookup(lps, "coordinates"@) {
                            Some(JsonVal::Arr(cs)) => {
                                if cs.len() >= 2 && cs[0] is Num && cs[1] is Num {
                                    Ok((u->0, t->0, cs[0]->Num_0, cs[1]->Num_0))
                                } else {
                                    Err(ResponseError::BadCoordinates)
                                }
                            },
                            _ => Err(ResponseError::BadCoordinates),
                        }
                    },
                    _ => Err(ResponseError::BadLocation),
                }
            }
        },
        _ => Err(ResponseError::NotAnObject),
    }
}

/// The line printed for one measurement, from its four field texts.
pub open spec fn line_of(u: Seq<char>, t: Seq<char>, c0: Seq<char>, c1: Seq<char>) -> Seq<char> {
    "Dosage: "@ + u + " Time: "@ + t + " Lat: "@ + c0 + " Long: "@ + c1
}

/// The lines printed for a measurement list, or the first shape error.
pub open spec fn lines_spec(ms: Seq<JsonVal>) -> Result<Seq<Seq<char>>, ResponseError>
    decreases ms.len(),
{
    if ms.len() == 0 {
        Ok(Seq::empty())
    } else {
        match fields_spec(ms[0]) {
            Err(e) => Err(e),
            Ok(f) => match lines_spec(ms.skip(1)) {
                Err(e) => Err(e),
                Ok(rest) => Ok(seq![line_of(f.0, f.1, f.2, f.3)] + rest),
            },
        }
    }
}

proof fn lemma_lines_spec_all(ms: Seq<JsonVal>)
    requires
        lines_spec(ms) is Ok,
    ensures
        lines_spec(ms)->Ok_0.len() == ms.len(),
        forall|i: int| 0 <= i < ms.len() ==> #[trigger] fields_spec(ms[i]) is Ok,
        forall|i: int|
            0 <= i < ms.len() ==> ({
                let f = (#[trigger] fields_spec(ms[i]))->Ok_0;
                lines_spec(ms)->Ok_0[i] == line_of(f.0, f.1, f.2, f.3)
            }),
    decreases ms.len(),
{
    if ms.len() > 0 {
        lemma_lines_spec_all(ms.skip(1));
        assert forall|i: int| 0 <= i < ms.len() implies #[trigger] fields_spec(ms[i]) is Ok && ({
            let f = fields_spec(ms[i])->Ok_0;
            lines_spec(ms)->Ok_0[i] == line_of(f.0, f.1, f.2, f.3)
        }) by {
            if i > 0 {
                assert(ms.skip(1)[i - 1] == ms[i]);
            }
        }
    }
}

/// Round trip: every line printed for a well-shaped measurement list
/// carries the four field texts of its source element unchanged.  Line
/// `i` is built from element `i` alone, and holds its `uSv` text, its
/// `time` text, and its two coordinate texts as contiguous, unmodified
/// runs, in that order.
pub proof fn lemma_lines_preserve_fields(ms: Seq<JsonVal>, i: int)
    requires
        lines_spec(ms) is Ok,
        0 <= i < ms.len(),
    ensures
        lines_spec(ms)->Ok_0.len() == ms.len(),
        fields_spec(ms[i]) is Ok,
        ({
            let f = fields_spec(ms[i])->Ok_0;
            let line = lines_spec(ms)->Ok_0[i];
            let ul = f.0.len() as int;
            let tl = f.1.len() as int;
            let al = f.2.len() as int;
            let ol = f.3.len() as int;
            &&& line == line_of(f.0, f.1, f.2, f.3)
            &&& line.subrange(8, 8 + ul) == f.0
            &&& line.subrange(15 + ul, 15 + ul + tl) == f.1
            &&& line.subrange(21 + ul + tl, 21 + ul + tl + al) == f.2
            &&& line.subrange(28 + ul + tl + al, 28 + ul + tl + al + ol) == f.3
        }),
{
    lemma_lines_spec_all(ms);
    reveal_strlit("Dosage: ");
    reveal_strlit(" Time: ");
    reveal_strlit(" Lat: ");
    reveal_strlit(" Long: ");
    let f = fields_spec(ms[i])->Ok_0;
    let line = lines_spec(ms)->Ok_0[i];
    let ul = f.0.len() as int;
    let tl = f.1.len() as int;
    let al = f.2.len() as int;
    let ol = f.3.len() as int;
    assert(line.subrange(8, 8 + ul) =~= f.0);
    assert(line.subrange(15 + ul, 15 + ul + tl) =~= f.1);
    assert(line.subrange(21 + ul + tl, 21 + ul + tl + al) =~= f.2);
    assert(line.subrange(28 + ul + tl + al, 28 + ul + tl + al + ol) =~= f.3);
}

/// What is printed for a whole decoded response.
pub open spec fn response_spec(v: JsonVal) -> Result<Seq<Seq<char>>, ResponseError> {
    match v {
        JsonVal::Arr(ms) => lines_spec(ms),
        _ => Err(ResponseError::NotAnArray),
    }
}

/// The value under the first occurrence of `key` in an object's pairs.
fn obj_get<'a>(ps: &'a Vec<(String, JsonNode)>, key: &str) -> (r: Option<&'a JsonNode>)
    ensures
        ({
            let lk = jlookup(pairs_view(ps@), key@);
            match r {
                Some(node) => lk is Some && node_view(*node) == lk->0,
                None => lk is None,
            }
        }),
{
    let ghost pv: Seq<(Seq<char>, JsonVal)> = pairs_view(ps@);
    proof {
        assert(pv.skip(0) =~= pv);
    }
    let mut i: usize = 0;
    while i < ps.len()
        invariant
            i <= ps.len(),
            pv == pairs_view(ps@),
            pv.len() == ps@.len(),
            jlookup(pv, key@) == jlookup(pv.skip(i as int), key@),
        decreases ps.len() - i,
    {
        proof {
            assert(pv.skip(i as int)[0] == pv[i as int]);
        }
        if str_eq(ps[i].0.as_str(), key) {
            return Some(&ps[i].1);
        }
        proof {
            assert(pv.skip(i as int).skip(1) =~= pv.skip(i as int + 1));
        }
        i = i + 1;
    }
    proof {
        assert(pv.skip(i as int).len() == 0);
    }
    None
}

fn render_line(u: &str, t: &str, c0: &str, c1: &str) -> (r: String)
    ensures
        r@ == line_of(u@, t@, c0@, c1@),
{
    let mut r: String = String::from_str("Dosage: ");
    r.append(u);
    r.append(" Time: ");
    r.append(t);
    r.append(" Lat: ");
    r.append(c0);
    r.append(" Long: ");
    r.append(c1);
    proof {
        assert(r@ =~= line_of(u@, t@, c0@, c1@));
    }
    r
}

/// The line printed for one measurement object, or the first field of
/// it that is missing or of the wrong type.
fn render_measurement(m: &JsonNode) -> (r: Result<String, ResponseError>)
    ensures
        ({
            let fs = fields_spec(node_view(*m));
            match r {
                Ok(line) => fs is Ok && line@ == line_of(
                    fs->Ok_0.0,
                    fs->Ok_0.1,
                    fs->Ok_0.2,
                    fs->Ok_0.3,
                ),
                Err(e) => fs is Err && e == fs->Err_0,
            }
        }),
{
    let ps: &Vec<(String, JsonNode)> = match m {
        JsonNode::Obj(ps) => ps,
        _ => {
            return Err(ResponseError::NotAnObject);
        },
    };
    proof {
        assert(node_view(*m)->Obj_0 =~= pairs_view(ps@));
    }
    let u: &String = match obj_get(ps, "uSv") {
        Some(JsonNode::Num(s)) => s,
        _ => {
            return Err(ResponseError::BadUSv);
        },
    };
    let t: &String = match obj_get(ps, "time") {
        Some(JsonNode::Num(s)) => s,
        _ => {
            return Err(ResponseError::BadTime);
        },
    };
    let lps: &Vec<(String, JsonNode)> = match obj_get(ps, "location") {
        Some(JsonNode::Obj(lps)) => lps,
        _ => {
            return Err(ResponseError::BadLocation);
        },
    };
    proof {
        assert(jlookup(pairs_view(ps@), "location"@)->0->Obj_0 =~= pairs_view(lps@));
    }
    let cs: &Vec<JsonNode> = match obj_get(lps, "coordinates") {
        Some(JsonNode::Arr(cs)) => cs,
        _ => {
            return Err(ResponseError::BadCoordinates);
        },
    };
    proof {
        assert(jlookup(pairs_view(lps@), "coordinates"@)->0->Arr_0 =~= elems_view(cs@));
    }
    if cs.len() < 2 {
        return Err(ResponseError::BadCoordinates);
    }
    let c0: &String = match &cs[0] {
        JsonNode::Num(s) => s,
        _ => {
            return Err(ResponseError::BadCoordinates);
        },
    };
    let c1: &String = match &cs[1] {
        JsonNode::Num(s) => s,
        _ => {
            return Err(ResponseError::BadCoordinates);
        },
    };
    Ok(render_line(u.as_str(), t.as_str(), c0.as_str(), c1.as_str()))
}

/// The lines printed for a decoded response, or the first shape error:
/// the response must be an array of measurement objects, and no line is
/// produced for a response that has any malformed element.
pub fn render_measurements(root: &JsonNode) -> (r: Result<Vec<String>, ResponseError>)
    ensures
        ({
            let sp = response_spec(node_view(*root));
            match r {
                Ok(lines) => sp is Ok && lines.deep_view() == sp->Ok_0,
                Err(e) => sp is Err && e == sp->Err_0,
            }
        }),
{
    let ms: &Vec<JsonNode> = match root {
        JsonNode::Arr(v) => v,
        _ => {
            return Err(ResponseError::NotAnArray);
        },
    };
    proof {
        assert(node_view(*root)->Arr_0 =~= elems_view(ms@));
    }
    let ghost mv: Seq<JsonVal> = elems_view(ms@);
    let mut lines: Vec<String> = Vec::new();
    proof {
        assert(mv.skip(0) =~= mv);
        assert(lines.deep_view() =~= Seq::<Seq<char>>::empty());
        if lines_spec(mv) is Ok {
            assert(lines.deep_view() + lines_spec(mv)->Ok_0 =~= lines_spec(mv)->Ok_0);
        }
    }
    let mut i: usize = 0;
    while i < ms.len()
        invariant
            i <= ms.len(),
            mv == elems_view(ms@),
            mv.len() == ms@.len(),
            response_spec(node_view(*root)) == lines_spec(mv),
            lines_spec(mv.skip(i as int)) is Ok ==> lines_spec(mv) is Ok && lines_spec(mv)->Ok_0
                == lines.deep_view() + lines_spec(mv.skip(i as int))->Ok_0,
            lines_spec(mv.skip(i as int)) is Err ==> lines_spec(mv) == lines_spec(
                mv.skip(i as int),
            ),
        decreases ms.len() - i,
    {
        proof {
            assert(mv.skip(i as int)[0] == mv[i as int]);
            assert(mv[i as int] == node_view(ms@[i as int]));
        }
        match render_measurement(&ms[i]) {
            Err(e) => {
                return Err(e);
            },
            Ok(line) => {
                proof {
                    assert(mv.skip(i as int).skip(1) =~= mv.skip(i as int + 1));
                }
                let ghost old_lines: Seq<Seq<char>> = lines.deep_view();
                lines.push(line);
                proof {
                    assert(lines.deep_view() =~= old_lines.push(line@));
                    let f = fields_spec(mv[i as int])->Ok_0;
                    if lines_spec(mv.skip(i as int + 1)) is Ok {
                        assert(lines_spec(mv.skip(i as int))->Ok_0 == seq![
                            line_of(f.0, f.1, f.2, f.3),
                        ] + lines_spec(mv.skip(i as int + 1))->Ok_0);
                        assert(old_lines + (seq![line_of(f.0, f.1, f.2, f.3)] + lines_spec(
                            mv.skip(i as int + 1),
                        )->Ok_0) =~= lines.deep_view() + lines_spec(mv.skip(i as int + 1))->Ok_0);
                    }
                }
            },
        }
        i = i + 1;
    }
    proof {
        assert(mv.skip(i as int).len() == 0);
        assert(lines.deep_view() + lines_spec(mv.skip(i as int))->Ok_0 =~= lines.deep_view());
    }
    Ok(lines)
}

/// Longest run of consecutive decimal digits admitted in a response
/// body.  The decoder counts a numeral's fraction digits in a 16-bit
/// exponent, so a run tens of thousands of digits long could overflow
/// it; anything the service can send stays far below this bound.
pub const MAX_DIGIT_RUN: usize = 10000;

/// `s` holds a run of more than `MAX_DIGIT_RUN` consecutive digits.
pub open spec fn has_long_digit_run(s: Seq<char>) -> bool {
    exists|i: int|
        0 <= i && i + MAX_DIGIT_RUN as int + 1 <= s.len() && all_digits(
            #[trigger] s.subrange(i, i + MAX_DIGIT_RUN as int + 1),
        )
}

/// Decides `has_long_digit_run` in one pass over the text.
pub fn check_long_digit_run(s: &str) -> (b: bool)
    ensures
        b == has_long_digit_run(s@),
{
    let ghost l: int = MAX_DIGIT_RUN as int + 1;
    let mut it = s.chars();
    let mut run: usize = 0;
    let ghost mut j: int = 0;
    proof {
        assert(it.remaining() =~= s@.skip(0));
    }
    loop
        invariant
            l == MAX_DIGIT_RUN as int + 1,
            0 <= j <= s@.len(),
            it.obeys_prophetic_iter_laws(),
            it.remaining() =~= s@.skip(j),
            run as int <= j,
            run <= MAX_DIGIT_RUN,
            forall|k: int| j - run <= k < j ==> is_digit(#[trigger] s@[k]),
            j - run > 0 ==> !is_digit(s@[j - run - 1]),
            forall|i: int|
                0 <= i && i + l <= j ==> !all_digits(#[trigger] s@.subrange(i, i + l)),
        decreases s@.len() - j,
    {
        let ghost prev: Seq<char> = it.remaining();
        let c_opt: Option<char> = it.next();
        match c_opt {
            None => {
                proof {
                    assert(prev.len() == 0);
                    assert(j == s@.len());
                    assert_by_contradiction!(!has_long_digit_run(s@), {
                        let i = choose|i: int|
                            0 <= i && i + MAX_DIGIT_RUN as int + 1 <= s@.len() && all_digits(
                                #[trigger] s@.subrange(i, i + MAX_DIGIT_RUN as int + 1),
                            );
                        assert(!all_digits(s@.subrange(i, i + l)));
                        assert(s@.subrange(i, i + l) == s@.subrange(
                            i,
                            i + MAX_DIGIT_RUN as int + 1,
                        ));
                    });
                }
                return false;
            },
            Some(c) => {
                proof {
                    assert(it.remaining() == prev.drop_first());
                    assert(c == prev[0]);
                    assert(s@.skip(j)[0] == s@[j]);
                    assert(c == s@[j]);
                    assert(s@.skip(j).drop_first() =~= s@.skip(j + 1));
                }
                if is_digit_char(c) {
                    run = run + 1;
                    if run > MAX_DIGIT_RUN {
                        proof {
                            let i0 = j + 1 - l;
                            let w = s@.subrange(i0, i0 + MAX_DIGIT_RUN as int + 1);
                            assert(0 <= i0);
                            assert(j + 1 <= s@.len());
                            assert(forall|m: int| 0 <= m < l ==> #[trigger] w[m] == s@[i0 + m]);
                            assert(all_digits(w));
                            assert(has_long_digit_run(s@));
                        }
                        return true;
                    }
                    proof {
                        assert forall|i: int| 0 <= i && i + l <= j + 1 implies !all_digits(
                            #[trigger] s@.subrange(i, i + l),
                        ) by {
                            if i + l == j + 1 {
                                let q = j - run;
                                assert(q - i == l - 1 - run);
                                assert(0 <= q - i < l);
                                assert(!is_digit(s@[q]));
                                assert(s@.subrange(i, i + l)[q - i] == s@[q]);
                            }
                        }
                        j = j + 1;
                    }
                } else {
                    run = 0;
                    proof {
                        assert forall|i: int| 0 <= i && i + l <= j + 1 implies !all_digits(
                            #[trigger] s@.subrange(i, i + l),
                        ) by {
                            if i + l == j + 1 {
                                assert(0 <= j - i < l);
                                assert(!is_digit(s@[j]));
                                assert(s@.subrange(i, i + l)[j - i] == s@[j]);
                            }
                        }
                        j = j + 1;
                    }
                }
            },
        }
    }
}

#[verifier::external_type_specification]
#[verifier::external_body]
pub struct ExJsonValue(json::JsonValue);

/// Converts a decoded `json::JsonValue` tree into the library's tree,
/// one arm per variant.  Numbers become the decimal text the decoder's
/// own rendering produces for them.
#[verifier::external_body]
fn json_to_node(v: json::JsonValue) -> JsonNode {
    match v {
        json::JsonValue::Null => JsonNode::Null,
        json::JsonValue::Short(s) => JsonNode::Str(s.as_str().to_owned()),
        json::JsonValue::String(s) => JsonNode::Str(s),
        json::JsonValue::Number(n) => JsonNode::Num(format!("{}", n)),
        json::JsonValue::Boolean(b) => JsonNode::Bool(b),
        json::JsonValue::Array(a) => JsonNode::Arr(a.into_iter().map(json_to_node).collect()),
        json::JsonValue::Object(o) => JsonNode::Obj(
            o.iter().map(|(k, w)| (k.to_string(), json_to_node(w.clone()))).collect(),
        ),
    }
}

/// The value tree that decoding a text yields, when the text is JSON;
/// a function of the text alone.
pub uninterp spec fn json_parse_of(s: Seq<char>) -> Option<JsonVal>;

/// Relies on json::parse: decodes JSON text.  `None` is exactly the
/// decoder's failure: text that is not JSON, or JSON it refuses, such
/// as values nested beyond its depth limit.  The tree it yields on
/// success, converted by `json_to_node`, is the value named
/// `json_parse_of`.  Texts with over-long digit runs are kept out by
/// `requires`: on those the decoder's 16-bit decimal exponent can
/// overflow.
#[verifier::external_body]
fn parse_json_text(s: &str) -> (r: Option<JsonNode>)
    requires
        !has_long_digit_run(s@),
    ensures
        r is Some <==> json_parse_of(s@) is Some,
        r matches Some(node) ==> node_view(node) == json_parse_of(s@)->0,
{
    match json::parse(s) {
        Ok(v) => Some(json_to_node(v)),
        Err(_) => None,
    }
}

/// Why a response body produced no lines.
#[derive(Clone, Copy, PartialEq, Eq, Structural, Debug)]
pub enum QueryError {
    /// The body holds a digit run longer than `MAX_DIGIT_RUN`, which
    /// the decoder is not asked to read.
    OverlongNumber,
    /// The body is not JSON, or JSON the decoder refuses.
    NotJson,
    /// The body is JSON of an unexpected shape.
    Shape(ResponseError),
}

/// What `parse_and_render` yields for a response body.
pub open spec fn query_spec(s: Seq<char>) -> Result<Seq<Seq<char>>, QueryError> {
    if has_long_digit_run(s) {
        Err(QueryError::OverlongNumber)
    } else {
        match json_parse_of(s) {
            None => Err(QueryError::NotJson),
            Some(v) => match response_spec(v) {
                Ok(lines) => Ok(lines),
                Err(e) => Err(QueryError::Shape(e)),
            },
        }
    }
}

/// Decodes a response body and renders its measurement lines: the whole
/// computation between receiving the body and printing.  Bodies with a
/// digit run too long for the decoder are refused before it sees them.
pub fn parse_and_render(body: &str) -> (r: Result<Vec<String>, QueryError>)
    ensures
        ({
            let sp = query_spec(body@);
            match r {
                Ok(lines) => sp is Ok && lines.deep_view() == sp->Ok_0,
                Err(e) => sp is Err && e == sp->Err_0,
            }
        }),
{
    if check_long_digit_run(body) {
        return Err(QueryError::OverlongNumber);
    }
    match parse_json_text(body) {
        None => Err(QueryError::NotJson),
        Some(node) => match render_measurements(&node) {
            Ok(lines) => Ok(lines),
            Err(e) => Err(QueryError::Shape(e)),
        },
    }
}

} // verus!
