//! The binary encoding of stored records: bincode over tuples of plain values.
use vstd::prelude::*;

verus! {

/// Why bincode could not encode or decode; carried, never looked into.
#[verifier::external_type_specification]
#[verifier::external_body]
pub struct ExBincodeErrorKind(bincode::ErrorKind);

/// The bytes that bincode writes for a game's fields.
pub uninterp spec fn game_bytes(
    id: Seq<char>,
    team_name: Seq<char>,
    start_time: Option<(i64, u32)>,
    end_time: Option<(i64, u32)>,
    score: u32,
) -> Seq<u8>;

/// The bytes that bincode writes for an event's fields.
pub uninterp spec fn event_bytes(game_id: Seq<char>, event_type: u32, timestamp: (i64, u32)) -> Seq<u8>;

/// What bincode decodes from bytes as a game's fields, if it decodes them.
pub uninterp spec fn game_decoding(b: Seq<u8>) -> Option<
    (Seq<char>, Seq<char>, Option<(i64, u32)>, Option<(i64, u32)>, u32),
>;

/// What bincode decodes from bytes as an event's fields, if it decodes them.
pub uninterp spec fn event_decoding(b: Seq<u8>) -> Option<(Seq<char>, u32, (i64, u32))>;

/// Relies on bincode::serialize: the encoding of the fields. With no size
/// limit, strings, options and integers always encode.
#[verifier::external_body]
pub(crate) fn encode_game_fields(
    id: &String,
    team_name: &String,
    start_time: Option<(i64, u32)>,
    end_time: Option<(i64, u32)>,
    score: u32,
) -> (r: Result<Vec<u8>, Box<bincode::ErrorKind>>)
    ensures
        r is Ok,
        r matches Ok(b) ==> b@ == game_bytes(id@, team_name@, start_time, end_time, score),
{
    bincode::serialize(&(id, team_name, start_time, end_time, score))
}

/// Relies on bincode::deserialize: the result depends on the bytes alone, and
/// bytes that bincode wrote for some fields decode to those fields.
#[verifier::external_body]
pub(crate) fn decode_game_fields(b: &[u8]) -> (r: Result<
    (String, String, Option<(i64, u32)>, Option<(i64, u32)>, u32),
    Box<bincode::ErrorKind>,
>)
    ensures
        r is Err <==> game_decoding(b@) is None,
        r matches Ok(t) ==> game_decoding(b@) == Some((t.0@, t.1@, t.2, t.3, t.4)),
        r is Err ==> forall|id: Seq<char>, n: Seq<char>, s: Option<(i64, u32)>, e: Option<(i64, u32)>, sc: u32|
            b@ != #[trigger] game_bytes(id, n, s, e, sc),
        r matches Ok(t) ==> forall|id: Seq<char>, n: Seq<char>, s: Option<(i64, u32)>, e: Option<(i64, u32)>, sc: u32|
            b@ == #[trigger] game_bytes(id, n, s, e, sc) ==> t.0@ == id && t.1@ == n && t.2 == s
                && t.3 == e && t.4 == sc,
{
    bincode::deserialize(b)
}

/// Relies on bincode::serialize: the encoding of the fields. With no size
/// limit, strings and integers always encode.
#[verifier::external_body]
pub(crate) fn encode_event_fields(game_id: &String, event_type: u32, timestamp: (i64, u32)) -> (r:
    Result<Vec<u8>, Box<bincode::ErrorKind>>)
    ensures
        r is Ok,
        r matches Ok(b) ==> b@ == event_bytes(game_id@, event_type, timestamp),
{
    bincode::serialize(&(game_id, event_type, timestamp))
}

/// Relies on bincode::deserialize: the result depends on the bytes alone, and
/// bytes that bincode wrote for some fields decode to those fields.
#[verifier::external_body]
pub(crate) fn decode_event_fields(b: &[u8]) -> (r: Result<(String, u32, (i64, u32)), Box<bincode::ErrorKind>>)
    ensures
        r is Err <==> event_decoding(b@) is None,
        r matches Ok(x) ==> event_decoding(b@) == Some((x.0@, x.1, x.2)),
        r is Err ==> forall|g: Seq<char>, k: u32, t: (i64, u32)|
            b@ != #[trigger] event_bytes(g, k, t),
        r matches Ok(x) ==> forall|g: Seq<char>, k: u32, t: (i64, u32)|
            b@ == #[trigger] event_bytes(g, k, t) ==> x.0@ == g && x.1 == k && x.2 == t,
{
    bincode::deserialize(b)
}

} // verus!
