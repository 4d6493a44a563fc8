//! The two entry points of the codec: one value to bytes, and bytes to one
//! value.

use crate::bencode::deserializer::from_reader;
use crate::bencode::error::{outcome_view, Result};
use crate::bencode::grammar::decode_all;
use crate::bencode::reader::Cursor;
use crate::bencode::serializer::from_writer;
use crate::bencode::error::{fails_with, ErrorView};
use crate::bencode::value::{within, Shape, Value, MAX_DEPTH};
use vstd::prelude::*;

verus! {

/// The encoding of one value. A value that nests deeper than
/// [`MAX_DEPTH`] has none.
pub fn encode(value: &Value) -> (r: Result<Vec<u8>>)
    ensures
        within(value@, MAX_DEPTH as nat) ==> (r matches Ok(bytes) && bytes@
            == crate::bencode::value::encode(value@)),
        !within(value@, MAX_DEPTH as nat) ==> fails_with(r, ErrorView::NestingTooDeep),
{
    let mut bytes: Vec<u8> = Vec::new();
    let mut serializer = from_writer(&mut bytes);
    serializer.serialize(value)?;
    assert(bytes@ =~= crate::bencode::value::encode(value@));
    Ok(bytes)
}

/// The one value of the given shape that the bytes encode, followed
/// [`MAX_DEPTH`] levels deep. Bytes that are left after the value are an
/// error.
pub fn decode(bytes: &[u8], shape: &Shape) -> (r: Result<Value>)
    ensures
        outcome_view(r) == decode_all(shape@, bytes@, MAX_DEPTH as nat),
{
    let mut reader = Cursor::new(bytes);
    from_reader(&mut reader, shape)
}

} // verus!
