//! Decoding of operation batches from JSON.
use vstd::prelude::*;
use crate::checksum::wrap32;
use crate::error::SyncError;
use crate::json::{
    as_integer, as_list, as_text, is_null, json_of, json_parse, member, parse_value, Json,
};
use crate::model::{OperationModel, OpKind, PacketModel};
use crate::store::{operations_view, packets_view, text_view, BucketPacket, Operation};

verus! {

/// The member of an object under `key`.
pub open spec fn field(doc: Json, key: Seq<char>) -> Option<Json> {
    match doc {
        Json::Dict(m) => if m.contains_key(key) {
            Some(m[key])
        } else {
            None
        },
        _ => None,
    }
}

/// The text of an optional member: `Some(None)` where the member is absent
/// or null, `None` where it is there and no text.
pub open spec fn optional_text(doc: Json, key: Seq<char>) -> Option<Option<Seq<char>>> {
    match field(doc, key) {
        None => Some(None),
        Some(Json::Null) => Some(None),
        Some(Json::Text(t)) => Some(Some(t)),
        Some(_) => None,
    }
}

/// The kind that the name of an operation stands for.
pub open spec fn decoded_kind(name: Seq<char>) -> OpKind {
    if name == "PUT"@ {
        OpKind::Put
    } else if name == "REMOVE"@ {
        OpKind::Remove
    } else if name == "MOVE"@ {
        OpKind::Move
    } else if name == "CLEAR"@ {
        OpKind::Clear
    } else {
        OpKind::Other
    }
}

/// The horizon that a payload announces: the integer member `target` of
/// the JSON object that the payload is the text of.
pub open spec fn announced_target(data: Option<Seq<char>>) -> Option<i64> {
    match data {
        Some(text) => match json_parse(text) {
            Some(doc) => match field(doc, "target"@) {
                Some(Json::Int(target)) => Some(target),
                _ => None,
            },
            None => None,
        },
        None => None,
    }
}

/// The operation that a JSON object describes, or `None` where a mandatory
/// member (`op_id`, `op`, `checksum`) is missing or a member has the wrong
/// type. A checksum outside the signed 32 bits is wrapped into them.
pub open spec fn decoded_operation(doc: Json) -> Option<OperationModel> {
    match (
        field(doc, "op_id"@),
        field(doc, "op"@),
        field(doc, "checksum"@),
        optional_text(doc, "object_type"@),
        optional_text(doc, "object_id"@),
        optional_text(doc, "data"@),
        optional_text(doc, "subkey"@),
    ) {
        (
            Some(Json::Int(op_id)),
            Some(Json::Text(op)),
            Some(Json::Int(checksum)),
            Some(object_type),
            Some(object_id),
            Some(data),
            Some(subkey),
        ) => Some(
            OperationModel {
                op_id,
                op: decoded_kind(op),
                object_type,
                object_id,
                checksum: wrap32(checksum as int),
                data,
                subkey,
                target: if decoded_kind(op) == OpKind::Move {
                    announced_target(data)
                } else {
                    None
                },
            },
        ),
        _ => None,
    }
}

/// The operations that the elements of a JSON array describe, or `None`
/// where one of them describes none.
pub open spec fn decoded_operations(items: Seq<Json>) -> Option<Seq<OperationModel>> {
    if forall|i: int| 0 <= i < items.len() ==> (#[trigger] decoded_operation(items[i])) is Some {
        Some(Seq::new(items.len(), |i: int| decoded_operation(items[i])->0))
    } else {
        None
    }
}

/// The operations that the text of a JSON array describes.
pub open spec fn decoded_batch(text: Seq<char>) -> Option<Seq<OperationModel>> {
    match json_parse(text) {
        Some(Json::List(items)) => decoded_operations(items),
        _ => None,
    }
}

/// The packet that a JSON object describes: its member `bucket` names the
/// bucket, and its member `data` holds the operations, as an array or as
/// the text of one. Other members are not read.
pub open spec fn decoded_packet(doc: Json) -> Option<PacketModel> {
    match (field(doc, "bucket"@), field(doc, "data"@)) {
        (Some(Json::Text(bucket)), Some(Json::List(items))) => match decoded_operations(items) {
            Some(operations) => Some(PacketModel { bucket, operations }),
            None => None,
        },
        (Some(Json::Text(bucket)), Some(Json::Text(text))) => match decoded_batch(text) {
            Some(operations) => Some(PacketModel { bucket, operations }),
            None => None,
        },
        _ => None,
    }
}

/// The packets that the elements of a JSON array describe, or `None` where
/// one of them describes none.
pub open spec fn decoded_packets(items: Seq<Json>) -> Option<Seq<PacketModel>> {
    if forall|i: int| 0 <= i < items.len() ==> (#[trigger] decoded_packet(items[i])) is Some {
        Some(Seq::new(items.len(), |i: int| decoded_packet(items[i])->0))
    } else {
        None
    }
}

/// The packets of a batch envelope: a JSON object whose member `buckets`
/// is the array of the packets.
pub open spec fn decoded_envelope(text: Seq<char>) -> Option<Seq<PacketModel>> {
    match json_parse(text) {
        Some(doc) => match field(doc, "buckets"@) {
            Some(Json::List(items)) => decoded_packets(items),
            _ => None,
        },
        None => None,
    }
}

/// Wraps an integer into the signed 32 bits of a checksum.
pub fn fold_checksum(value: i64) -> (r: i32)
    ensures
        r == wrap32(value as int),
{
    let m: i64 = if value >= 0 {
        value % 0x1_0000_0000
    } else {
        let r: i64 = (-(value + 1)) % 0x1_0000_0000;
        proof {
            let q = (-(value + 1)) / 0x1_0000_0000;
            vstd::arithmetic::div_mod::lemma_fundamental_div_mod(-(value + 1), 0x1_0000_0000);
            assert(value == (-q - 1) * 0x1_0000_0000 + (0x1_0000_0000 - 1 - r)) by (nonlinear_arith)
                requires
                    -(value + 1) == 0x1_0000_0000 * q + r,
            ;
            vstd::arithmetic::div_mod::lemma_fundamental_div_mod_converse(
                value as int,
                0x1_0000_0000,
                -q - 1,
                0x1_0000_0000 - 1 - r,
            );
        }
        0x1_0000_0000 - 1 - r
    };
    assert(m == (value as int) % 0x1_0000_0000);
    if m > 0x7fff_ffff {
        (m - 0x1_0000_0000) as i32
    } else {
        m as i32
    }
}

/// Whether two texts are the same.
pub fn same_str(a: &str, b: &str) -> (r: bool)
    ensures
        r == (a@ == b@),
{
    a.to_owned() == b.to_owned()
}

/// The kind that the name of an operation stands for.
pub fn decode_kind(name: &str) -> (kind: OpKind)
    ensures
        kind == decoded_kind(name@),
{
    if same_str(name, "PUT") {
        OpKind::Put
    } else if same_str(name, "REMOVE") {
        OpKind::Remove
    } else if same_str(name, "MOVE") {
        OpKind::Move
    } else if same_str(name, "CLEAR") {
        OpKind::Clear
    } else {
        OpKind::Other
    }
}

/// The text of an optional member of a JSON object.
fn decode_text(doc: &serde_json::Value, key: &str) -> (r: Result<Option<String>, SyncError>)
    ensures
        match optional_text(json_of(*doc), key@) {
            Some(t) => r is Ok && text_view(r->Ok_0) == t,
            None => r == Err::<Option<String>, SyncError>(SyncError::MalformedInput),
        },
{
    match member(doc, key) {
        None => Ok(None),
        Some(found) => {
            if is_null(found) {
                Ok(None)
            } else {
                match as_text(found) {
                    Some(text) => Ok(Some(text.to_owned())),
                    None => Err(SyncError::MalformedInput),
                }
            }
        },
    }
}

/// The integer member of a JSON object under `key`.
fn decode_integer(doc: &serde_json::Value, key: &str) -> (r: Option<i64>)
    ensures
        r == match field(json_of(*doc), key@) {
            Some(Json::Int(i)) => Some(i),
            _ => None,
        },
{
    match member(doc, key) {
        Some(found) => as_integer(found),
        None => None,
    }
}

/// The horizon that the payload of a MOVE announces.
pub fn decode_target(data: &Option<String>) -> (target: Option<i64>)
    ensures
        target == announced_target(text_view(*data)),
{
    match data {
        Some(text) => match parse_value(text.as_str()) {
            Ok(doc) => decode_integer(&doc, "target"),
            Err(_) => None,
        },
        None => None,
    }
}

/// Decodes one operation from a JSON object.
fn decode_operation(doc: &serde_json::Value) -> (r: Result<Operation, SyncError>)
    ensures
        match decoded_operation(json_of(*doc)) {
            Some(op) => r is Ok && r->Ok_0@ == op,
            None => r == Err::<Operation, SyncError>(SyncError::MalformedInput),
        },
{
    let op_id = match decode_integer(doc, "op_id") {
        Some(id) => id,
        None => {
            return Err(SyncError::MalformedInput);
        },
    };
    let op = match member(doc, "op") {
        Some(found) => match as_text(found) {
            Some(name) => decode_kind(name),
            None => {
                return Err(SyncError::MalformedInput);
            },
        },
        None => {
            return Err(SyncError::MalformedInput);
        },
    };
    let checksum = match decode_integer(doc, "checksum") {
        Some(sum) => fold_checksum(sum),
        None => {
            return Err(SyncError::MalformedInput);
        },
    };
    let object_type = match decode_text(doc, "object_type") {
        Ok(t) => t,
        Err(e) => {
            return Err(e);
        },
    };
    let object_id = match decode_text(doc, "object_id") {
        Ok(t) => t,
        Err(e) => {
            return Err(e);
        },
    };
    let data = match decode_text(doc, "data") {
        Ok(t) => t,
        Err(e) => {
            return Err(e);
        },
    };
    let subkey = match decode_text(doc, "subkey") {
        Ok(t) => t,
        Err(e) => {
            return Err(e);
        },
    };
    let target = if op == OpKind::Move {
        decode_target(&data)
    } else {
        None
    };
    Ok(Operation { op_id, op, object_type, object_id, checksum, data, subkey, target })
}

/// Decodes the operations of a JSON array, in their order.
fn decode_operations(items: &Vec<serde_json::Value>) -> (r: Result<Vec<Operation>, SyncError>)
    ensures
        match decoded_operations(Seq::new(items@.len(), |i: int| json_of(items@[i]))) {
            Some(ops) => r is Ok && operations_view(r->Ok_0@) == ops,
            None => r == Err::<Vec<Operation>, SyncError>(SyncError::MalformedInput),
        },
{
    let ghost docs = Seq::new(items@.len(), |i: int| json_of(items@[i]));
    let mut ops: Vec<Operation> = Vec::new();
    let mut i: usize = 0;
    while i < items.len()
        invariant
            docs == Seq::new(items@.len(), |i: int| json_of(items@[i])),
            0 <= i <= items@.len(),
            ops@.len() == i,
            forall|j: int|
                0 <= j < i ==> (#[trigger] decoded_operation(docs[j])) == Some(ops@[j]@),
        decreases items@.len() - i,
    {
        match decode_operation(&items[i]) {
            Ok(op) => {
                ops.push(op);
            },
            Err(e) => {
                assert(decoded_operation(docs[i as int]) is None);
                return Err(e);
            },
        }
        i += 1;
    }
    assert(operations_view(ops@) =~= decoded_operations(docs)->0);
    Ok(ops)
}

/// Decodes the operations of a batch from the text of a JSON array.
pub fn decode_batch(data: &str) -> (r: Result<Vec<Operation>, SyncError>)
    ensures
        match decoded_batch(data@) {
            Some(ops) => r is Ok && operations_view(r->Ok_0@) == ops,
            None => r == Err::<Vec<Operation>, SyncError>(SyncError::MalformedInput),
        },
{
    match parse_value(data) {
        Ok(doc) => match as_list(&doc) {
            Some(items) => decode_operations(items),
            None => Err(SyncError::MalformedInput),
        },
        Err(_) => Err(SyncError::MalformedInput),
    }
}

/// Decodes one packet from a JSON object.
fn decode_packet(doc: &serde_json::Value) -> (r: Result<BucketPacket, SyncError>)
    ensures
        match decoded_packet(json_of(*doc)) {
            Some(packet) => r is Ok && r->Ok_0@ == packet,
            None => r == Err::<BucketPacket, SyncError>(SyncError::MalformedInput),
        },
{
    let bucket = match member(doc, "bucket") {
        Some(found) => match as_text(found) {
            Some(name) => name.to_owned(),
            None => {
                return Err(SyncError::MalformedInput);
            },
        },
        None => {
            return Err(SyncError::MalformedInput);
        },
    };
    let data = match member(doc, "data") {
        Some(found) => found,
        None => {
            return Err(SyncError::MalformedInput);
        },
    };
    let decoded = match as_list(data) {
        Some(items) => decode_operations(items),
        None => match as_text(data) {
            Some(text) => decode_batch(text),
            None => Err(SyncError::MalformedInput),
        },
    };
    match decoded {
        Ok(operations) => Ok(BucketPacket { bucket, operations }),
        Err(e) => Err(e),
    }
}

/// Decodes the packets of a batch envelope.
pub fn decode_envelope(data: &str) -> (r: Result<Vec<BucketPacket>, SyncError>)
    ensures
        match decoded_envelope(data@) {
            Some(packets) => r is Ok && packets_view(r->Ok_0@) == packets,
            None => r == Err::<Vec<BucketPacket>, SyncError>(SyncError::MalformedInput),
        },
{
    let doc = match parse_value(data) {
        Ok(doc) => doc,
        Err(_) => {
            return Err(SyncError::MalformedInput);
        },
    };
    let items = match member(&doc, "buckets") {
        Some(found) => match as_list(found) {
            Some(items) => items,
            None => {
                return Err(SyncError::MalformedInput);
            },
        },
        None => {
            return Err(SyncError::MalformedInput);
        },
    };
    let ghost docs = Seq::new(items@.len(), |i: int| json_of(items@[i]));
    let mut packets: Vec<BucketPacket> = Vec::new();
    let mut i: usize = 0;
    assert(decoded_envelope(data@) == decoded_packets(docs));
    while i < items.len()
        invariant
            decoded_envelope(data@) == decoded_packets(docs),
            docs == Seq::new(items@.len(), |i: int| json_of(items@[i])),
            0 <= i <= items@.len(),
            packets@.len() == i,
            forall|j: int| 0 <= j < i ==> (#[trigger] decoded_packet(docs[j])) == Some(packets@[j]@),
        decreases items@.len() - i,
    {
        match decode_packet(&items[i]) {
            Ok(packet) => {
                packets.push(packet);
            },
            Err(e) => {
                assert(decoded_packet(docs[i as int]) is None);
                return Err(e);
            },
        }
        i += 1;
    }
    assert(packets_view(packets@) =~= decoded_packets(docs)->0);
    Ok(packets)
}

} // verus!
