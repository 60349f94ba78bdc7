//! Errors that every component of the consensus core returns.

use vstd::prelude::*;
use vstd::string::*;
use protobuf::error::ProtobufError;

verus! {

#[verifier::external_type_specification]
#[verifier::external_body]
pub struct ExProtobufError(ProtobufError);

/// Errors that might occur in a consensus node.
#[derive(Debug)]
pub enum PbftError {
    /// The codec failed to decode or encode a message.
    SerializationError(ProtobufError),
    /// Votes that should agree name different block ids (the ids in conflict).
    MismatchedBlocks(Vec<Vec<u8>>),
    /// The message is in a different view than this node (expected, got).
    ViewMismatch(u64, u64),
    /// An invariant of this node was violated (description).
    InternalError(String),
    /// A phase deadline elapsed with no quorum.
    Timeout,
    /// There is no working block; the operation needs one.
    NoWorkingBlock,
    /// The message may only come from the primary, but a backup sent it.
    NotFromPrimary,
}

/// The lowercase hexadecimal digit of a nibble.
pub open spec fn hex_digit(n: u8) -> char {
    if n == 0 { '0' } else if n == 1 { '1' } else if n == 2 { '2' } else if n == 3 { '3' }
    else if n == 4 { '4' } else if n == 5 { '5' } else if n == 6 { '6' } else if n == 7 { '7' }
    else if n == 8 { '8' } else if n == 9 { '9' } else if n == 10 { 'a' } else if n == 11 { 'b' }
    else if n == 12 { 'c' } else if n == 13 { 'd' } else if n == 14 { 'e' } else { 'f' }
}

/// Two lowercase hex digits per byte, high nibble first.
pub open spec fn hex_of(b: Seq<u8>) -> Seq<char>
    decreases b.len(),
{
    if b.len() == 0 {
        Seq::empty()
    } else {
        let last = b.last();
        hex_of(b.drop_last()) + seq![hex_digit(last / 16), hex_digit(last % 16)]
    }
}

/// Relies on hex::encode: each byte becomes two lowercase hex digits, high nibble first.
#[verifier::external_body]
fn encode_hex(bytes: &Vec<u8>) -> (r: String)
    ensures
        r@ == hex_of(bytes@),
{
    hex::encode(bytes)
}

/// Relies on ProtobufError's Display impl for the text of a codec failure;
/// every variant writes some text.
#[verifier::external_body]
fn codec_failure_text(e: &ProtobufError) -> (r: String)
    ensures
        r@.len() > 0,
{
    e.to_string()
}

/// The hex ids, each followed by ", " but the last, between brackets.
pub open spec fn id_list_text(ids: Seq<Seq<u8>>) -> Seq<char> {
    "["@ + id_items_text(ids) + "]"@
}

pub open spec fn id_items_text(ids: Seq<Seq<u8>>) -> Seq<char>
    decreases ids.len(),
{
    if ids.len() == 0 {
        Seq::empty()
    } else if ids.len() == 1 {
        hex_of(ids[0])
    } else {
        id_items_text(ids.drop_last()) + ", "@ + hex_of(ids.last())
    }
}

/// Decimal digits of a number, most significant first, without leading zeros.
pub open spec fn decimal_of(n: nat) -> Seq<char>
    decreases n,
{
    if n < 10 {
        seq![hex_digit(n as u8)]
    } else {
        decimal_of(n / 10) + seq![hex_digit((n % 10) as u8)]
    }
}

/// Relies on u64's Display impl: the number in decimal digits.
#[verifier::external_body]
fn decimal_text(n: u64) -> (r: String)
    ensures
        r@ == decimal_of(n as nat),
{
    n.to_string()
}

/// Renders a list of block ids as their hex encodings, comma separated, in brackets.
pub fn block_ids_text(ids: &Vec<Vec<u8>>) -> (r: String)
    ensures
        r@ == id_list_text(ids@.map_values(|id: Vec<u8>| id@)),
{
    let ghost views = ids@.map_values(|id: Vec<u8>| id@);
    let mut out = "[".to_string();
    let mut i: usize = 0;
    while i < ids.len()
        invariant
            i <= ids@.len(),
            views == ids@.map_values(|id: Vec<u8>| id@),
            out@ == "["@ + id_items_text(views.take(i as int)),
        decreases ids@.len() - i,
    {
        proof {
            assert(views.take(i + 1).drop_last() =~= views.take(i as int));
        }
        if i > 0 {
            out.append(", ");
        }
        let h = encode_hex(&ids[i]);
        out.append(h.as_str());
        proof {
            if i == 0 {
                assert(views.take(1) =~= seq![views[0]]);
            }
        }
        i = i + 1;
    }
    out.append("]");
    proof {
        assert(views.take(ids@.len() as int) =~= views);
    }
    out
}

impl PbftError {
    /// The name of the variant.
    pub open spec fn kind_name(&self) -> Seq<char> {
        match self {
            PbftError::SerializationError(_) => "SerializationError"@,
            PbftError::MismatchedBlocks(_) => "MismatchedBlocks"@,
            PbftError::ViewMismatch(_, _) => "ViewMismatch"@,
            PbftError::InternalError(_) => "InternalError"@,
            PbftError::Timeout => "Timeout"@,
            PbftError::NoWorkingBlock => "NoWorkingBlock"@,
            PbftError::NotFromPrimary => "NotFromPrimary"@,
        }
    }

    pub fn description(&self) -> (r: &'static str)
        ensures
            r@ == self.kind_name(),
    {
        match self {
            PbftError::SerializationError(_) => "SerializationError",
            PbftError::MismatchedBlocks(_) => "MismatchedBlocks",
            PbftError::ViewMismatch(_, _) => "ViewMismatch",
            PbftError::InternalError(_) => "InternalError",
            PbftError::Timeout => "Timeout",
            PbftError::NoWorkingBlock => "NoWorkingBlock",
            PbftError::NotFromPrimary => "NotFromPrimary",
        }
    }

    /// The text that the variant's payload adds after its name.
    pub open spec fn detail_text(&self) -> Seq<char> {
        match self {
            PbftError::SerializationError(_) => Seq::empty(),
            PbftError::MismatchedBlocks(ids) =>
                "Mismatched blocks: "@ + id_list_text(ids@.map_values(|id: Vec<u8>| id@)),
            PbftError::ViewMismatch(expected, got) =>
                "View mismatch: "@ + decimal_of(*expected as nat) + " != "@ + decimal_of(*got as nat),
            PbftError::InternalError(d) => d@,
            PbftError::Timeout => "Timed out"@,
            PbftError::NoWorkingBlock => "There is no working block"@,
            PbftError::NotFromPrimary => "Message should be from primary, but was sent by secondary"@,
        }
    }

    /// A human-readable message: the variant's name, ": ", then its detail.
    /// A codec failure's detail is the codec's own text.
    pub fn message(&self) -> (r: String)
        ensures
            r@.len() >= self.kind_name().len() + 2,
            r@.subrange(0, self.kind_name().len() + 2 as int) == self.kind_name() + ": "@,
            !(self is SerializationError) ==> r@ == self.kind_name() + ": "@ + self.detail_text(),
            self is SerializationError ==> r@.len() > self.kind_name().len() + 2,
    {
        let mut out = self.description().to_string();
        out.append(": ");
        let ghost head = out@;
        proof {
            reveal_strlit(": ");
        }
        match self {
            PbftError::SerializationError(e) => {
                let t = codec_failure_text(e);
                out.append(t.as_str());
            },
            PbftError::MismatchedBlocks(ids) => {
                out.append("Mismatched blocks: ");
                let t = block_ids_text(ids);
                out.append(t.as_str());
            },
            PbftError::ViewMismatch(expected, got) => {
                out.append("View mismatch: ");
                let a = decimal_text(*expected);
                out.append(a.as_str());
                out.append(" != ");
                let b = decimal_text(*got);
                out.append(b.as_str());
            },
            PbftError::InternalError(d) => {
                out.append(d.as_str());
            },
            PbftError::Timeout => {
                out.append("Timed out");
            },
            PbftError::NoWorkingBlock => {
                out.append("There is no working block");
            },
            PbftError::NotFromPrimary => {
                out.append("Message should be from primary, but was sent by secondary");
            },
        }
        assert(out@.subrange(0, head.len() as int) =~= head);
        out
    }
}

} // verus!
