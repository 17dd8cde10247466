//! The binary wire protocol: the total mappings between raw bytes and
//! protocol variants, the error taxonomy with its stable wire texts,
//! and the pure request-processing and response-framing logic. The
//! runner reads and writes the socket and hands the bytes here.

use vstd::prelude::*;

use crate::pair::HashPair;
use crate::store::HashStore;

verus! {

/// The protocol version carried by the first request byte.
#[derive(PartialEq, Eq, Structural, Clone, Copy, Debug)]
pub enum ProtoVersion {
    V1,
    Unknown,
}

/// The command carried by the second request byte.
#[derive(PartialEq, Eq, Structural, Clone, Copy, Debug)]
pub enum ProtoCommand {
    Query,
    Update,
    End,
    Unknown,
}

/// The status byte that opens every response.
#[derive(PartialEq, Eq, Structural, Clone, Copy, Debug)]
pub enum ProtoResponseStatus {
    Success,
    Error,
}

/// A request-scoped failure, with a stable one-word wire rendering.
#[derive(PartialEq, Eq, Structural, Clone, Copy, Debug)]
pub enum ProtoError {
    InvalidLength,
    InvalidProtoVersion,
    InvalidCommand,
    ReadFail,
    ChangeDirCheckFail,
    ChangeFileCreateFail,
    ChangeFileWriteFail,
    ChangeFileRemoveFail,
}

pub open spec fn version_of_byte(b: u8) -> ProtoVersion {
    if b == 49 {
        ProtoVersion::V1
    } else {
        ProtoVersion::Unknown
    }
}

pub open spec fn command_of_byte(b: u8) -> ProtoCommand {
    if b == 113 {
        ProtoCommand::Query
    } else if b == 117 {
        ProtoCommand::Update
    } else if b == 101 {
        ProtoCommand::End
    } else {
        ProtoCommand::Unknown
    }
}

pub open spec fn status_byte(s: ProtoResponseStatus) -> u8 {
    match s {
        ProtoResponseStatus::Success => 115,  // 's'
        ProtoResponseStatus::Error => 101,  // 'e'
    }
}

/// The text a client receives after an error status byte.
pub open spec fn error_text(e: ProtoError) -> Seq<char> {
    match e {
        ProtoError::InvalidLength => "ERROR_INVALID_LENGTH"@,
        ProtoError::InvalidProtoVersion => "ERROR_INVALID_PROTO_VERSION"@,
        ProtoError::InvalidCommand => "ERROR_INVALID_COMMAND"@,
        ProtoError::ReadFail => "ERROR_READ_FAIL"@,
        ProtoError::ChangeDirCheckFail => "ERROR_CHANGE_DIR_CHECK_FAIL"@,
        ProtoError::ChangeFileCreateFail => "ERROR_CHANGE_FILE_CREATE_FAIL"@,
        ProtoError::ChangeFileWriteFail => "ERROR_CHANGE_FILE_WRITE_FAIL"@,
        ProtoError::ChangeFileRemoveFail => "ERROR_CHANGE_FILE_REMOVE_FAIL"@,
    }
}

/// The ASCII bytes of a character sequence, truncating each character
/// to its low byte.
pub open spec fn ascii_bytes(s: Seq<char>) -> Seq<u8> {
    s.map_values(|c: char| c as u8)
}

impl ProtoVersion {
    /// The total mapping from the raw version byte: ASCII `'1'` is the
    /// only defined version, everything else is unknown.
    pub fn from_byte(b: u8) -> (r: ProtoVersion)
        ensures
            r == version_of_byte(b),
            r is V1 <==> b == 49,
    {
        if b == 49u8 {
            ProtoVersion::V1
        } else {
            ProtoVersion::Unknown
        }
    }
}

impl ProtoCommand {
    /// The total mapping from the raw command byte: `'q'` query, `'u'`
    /// update, `'e'` end of session, everything else unknown.
    pub fn from_byte(b: u8) -> (r: ProtoCommand)
        ensures
            r == command_of_byte(b),
            r is Query <==> b == 113,
            r is Update <==> b == 117,
            r is End <==> b == 101,
    {
        match b {
            113u8 => ProtoCommand::Query,
            117u8 => ProtoCommand::Update,
            101u8 => ProtoCommand::End,
            _ => ProtoCommand::Unknown,
        }
    }
}

impl ProtoResponseStatus {
    pub fn to_byte(&self) -> (r: u8)
        ensures
            r == status_byte(*self),
    {
        match self {
            ProtoResponseStatus::Success => 115u8,
            ProtoResponseStatus::Error => 101u8,
        }
    }
}

impl ProtoError {
    /// The stable wire rendering of this error.
    pub fn wire_text(&self) -> (r: &'static str)
        ensures
            r@ == error_text(*self),
    {
        match self {
            ProtoError::InvalidLength => "ERROR_INVALID_LENGTH",
            ProtoError::InvalidProtoVersion => "ERROR_INVALID_PROTO_VERSION",
            ProtoError::InvalidCommand => "ERROR_INVALID_COMMAND",
            ProtoError::ReadFail => "ERROR_READ_FAIL",
            ProtoError::ChangeDirCheckFail => "ERROR_CHANGE_DIR_CHECK_FAIL",
            ProtoError::ChangeFileCreateFail => "ERROR_CHANGE_FILE_CREATE_FAIL",
            ProtoError::ChangeFileWriteFail => "ERROR_CHANGE_FILE_WRITE_FAIL",
            ProtoError::ChangeFileRemoveFail => "ERROR_CHANGE_FILE_REMOVE_FAIL",
        }
    }
}

/// Answers a query batch against the store: one byte per input hash,
/// 1 if present and 0 if absent, in input order.
pub fn process_query(store: &HashStore, pairs: &Vec<HashPair>) -> (r: Vec<u8>)
    requires
        store.well_formed(),
    ensures
        r@.len() == pairs@.len(),
        forall|i: int|
            0 <= i < pairs@.len() ==> r@[i] == (if store@.contains(pairs@[i]) {
                1u8
            } else {
                0u8
            }),
{
    let mut r: Vec<u8> = Vec::new();
    let mut i: usize = 0;
    while i < pairs.len()
        invariant
            i <= pairs@.len(),
            store.well_formed(),
            r@.len() == i,
            forall|k: int|
                0 <= k < i ==> r@[k] == (if store@.contains(pairs@[k]) {
                    1u8
                } else {
                    0u8
                }),
        decreases pairs@.len() - i,
    {
        if store.contains(&pairs[i]) {
            r.push(1);
        } else {
            r.push(0);
        }
        i += 1;
    }
    r
}

/// The success response to a query: the status byte, then the result
/// byte of each input hash in input order.
pub fn query_response(results: &Vec<u8>) -> (r: Vec<u8>)
    ensures
        r@ =~= seq![status_byte(ProtoResponseStatus::Success)] + results@,
{
    let mut r: Vec<u8> = Vec::new();
    r.push(115u8);
    let mut i: usize = 0;
    while i < results.len()
        invariant
            i <= results@.len(),
            r@ =~= seq![115u8] + results@.take(i as int),
        decreases results@.len() - i,
    {
        r.push(results[i]);
        proof {
            assert(results@.take(i as int + 1) =~= results@.take(i as int).push(results@[i as int]));
        }
        i += 1;
    }
    proof {
        assert(results@.take(results@.len() as int) =~= results@);
    }
    r
}

/// The success response to an update: the status byte, then the count
/// of newly inserted hashes as a big-endian 16-bit field.
pub fn update_response(count: u16) -> (r: Vec<u8>)
    ensures
        r@ =~= seq![
            status_byte(ProtoResponseStatus::Success),
            ((count as int) / 256) as u8,
            ((count as int) % 256) as u8,
        ],
{
    let (hi, lo) = crate::codec::u16_be_bytes(count);
    let mut r: Vec<u8> = Vec::new();
    r.push(115u8);
    r.push(hi);
    r.push(lo);
    r
}

/// The response that aborts a session: the error status byte followed
/// by the error's wire text as raw bytes.
pub fn error_response(e: &ProtoError) -> (r: Vec<u8>)
    ensures
        r@ =~= seq![status_byte(ProtoResponseStatus::Error)] + ascii_bytes(error_text(*e)),
{
    let t = e.wire_text();
    let mut r: Vec<u8> = Vec::new();
    r.push(101u8);
    let n = t.unicode_len();
    let mut i: usize = 0;
    while i < n
        invariant
            n == t@.len(),
            t@ == error_text(*e),
            i <= n,
            r@ =~= seq![101u8] + ascii_bytes(t@.take(i as int)),
        decreases n - i,
    {
        let c = t.get_char(i);
        r.push(c as u8);
        proof {
            assert(ascii_bytes(t@.take(i as int + 1)) =~= ascii_bytes(t@.take(i as int)).push(
                c as u8,
            ));
        }
        i += 1;
    }
    proof {
        assert(t@.take(t@.len() as int) =~= t@);
    }
    r
}

} // verus!
