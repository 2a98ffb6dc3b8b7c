//! The response framing on the wire: one status byte, then for text and
//! errors an eight-byte big-endian length and the UTF-8 payload; a binary
//! payload follows the status byte directly.
use vstd::prelude::*;
use vstd::string::StrSliceExecFns;
use vstd::string::StringExecFns;
use vstd::utf8::encode_utf8;
use crate::codec::{be8, be_u64_bytes};
use crate::disk::clone_bytes;
use crate::dispatch::{RespModel, Response};

verus! {

/// The text an error is sent as.
pub open spec fn err_text(m: Seq<char>) -> Seq<char> {
    "ERR: "@ + m + "\n"@
}

/// The bytes a response is sent as. The status byte is `0x01` exactly when
/// the response is not an error.
pub open spec fn spec_frame(r: RespModel) -> Seq<u8> {
    match r {
        RespModel::Text(t) => seq![1u8] + be8(encode_utf8(t).len() as u64) + encode_utf8(t),
        RespModel::Binary(b) => seq![1u8] + b,
        RespModel::Error(m) => seq![0u8] + be8(encode_utf8(err_text(m)).len() as u64) + encode_utf8(
            err_text(m),
        ),
    }
}

/// A status byte, a length, and a UTF-8 payload.
fn frame_text(status: u8, s: &str) -> (out: Vec<u8>)
    ensures
        out@ == seq![status] + be8(encode_utf8(s@).len() as u64) + encode_utf8(s@),
{
    let mut body = s.as_bytes_vec();
    let mut out: Vec<u8> = Vec::new();
    out.push(status);
    let mut len_bytes = be_u64_bytes(body.len() as u64);
    out.append(&mut len_bytes);
    out.append(&mut body);
    proof {
        assert(out@ =~= seq![status] + be8(encode_utf8(s@).len() as u64) + encode_utf8(s@));
    }
    out
}

/// Frames one response for the wire.
pub fn frame_response(r: &Response) -> (out: Vec<u8>)
    ensures
        out@ == spec_frame(r@),
        out@.len() >= 1,
        (out@[0] == 1u8) <==> !(r@ is Error),
{
    match r {
        Response::Text(s) => frame_text(1, s.as_str()),
        Response::Binary(b) => {
            let mut out: Vec<u8> = Vec::new();
            out.push(1);
            let mut body = clone_bytes(b);
            out.append(&mut body);
            proof {
                assert(out@ =~= seq![1u8] + b@);
            }
            out
        },
        Response::Error(m) => {
            let mut full = String::from_str("ERR: ");
            full.append(m.as_str());
            full.append("\n");
            proof {
                assert(full@ =~= err_text(m@));
            }
            frame_text(0, full.as_str())
        },
    }
}

} // verus!
