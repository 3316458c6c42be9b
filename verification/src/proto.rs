//! Access to a protobuf descriptor pool. Every call into `prost_reflect`
//! that the library makes stands here, behind a trusted item that hands
//! back plain values or the library's own types.
use crate::action::{Method, Payload};
use prost_reflect::DescriptorPool;
use vstd::prelude::*;

verus! {

#[verifier::external_type_specification]
#[verifier::external_body]
pub struct ExDescriptorPool(prost_reflect::DescriptorPool);

/// `DescriptorPool::clone` (derived): the clone is another handle on the
/// same shared pool (it clones the `Arc` that holds the pool).
///
/// Claimed of it: the clone is the same pool.
pub assume_specification [<prost_reflect::DescriptorPool as std::clone::Clone>::clone] (pool: &prost_reflect::DescriptorPool) -> (r: prost_reflect::DescriptorPool)
    ensures
        r == *pool,
;

/// The name under which a pool finds a definition: the name given, with
/// one leading '.' removed if there is one.
pub open spec fn lookup_name(name: Seq<char>) -> Seq<char> {
    if name.len() > 0 && name[0] == '.' {
        name.drop_first()
    } else {
        name
    }
}

/// What a pool holds of its services: for each service, by its full
/// name, its methods in order, each as (short name, full name, full name
/// of the input type, client streaming, server streaming).
pub uninterp spec fn pool_services(pool: DescriptorPool) -> Map<Seq<char>, Seq<(Seq<char>, Seq<char>, Seq<char>, bool, bool)>>;

/// What a pool holds of its message types: for each type, by its full
/// name, the byte strings on which decoding as that type and encoding the
/// message again returns at all, each with the encodings that can come
/// out (none where the bytes do not decode as the type). An encoding is
/// one of a set because a map field's entries are encoded in the order of
/// a hash map.
pub uninterp spec fn pool_decodings(pool: DescriptorPool) -> Map<Seq<char>, Map<Seq<u8>, Set<Seq<u8>>>>;

/// The full name of the method `name` of the service whose full name is
/// `service`: the two joined by a '.', or the method's name alone where
/// the service's full name is empty.
pub open spec fn method_full_name(service: Seq<char>, name: Seq<char>) -> Seq<char> {
    if service.len() == 0 {
        name
    } else {
        service + "."@ + name
    }
}

/// The plain values of a method, as `pool_services` lists them.
pub open spec fn method_tuple(md: Method) -> (Seq<char>, Seq<char>, Seq<char>, bool, bool) {
    (md.name@, md.full_name@, md.input@, md.client_streaming, md.server_streaming)
}

/// The encodings that can come out of decoding `bytes` as the type named
/// `message_type` and encoding again, or `None` where the pool has no
/// such type or the bytes do not decode as it.
pub open spec fn decode_outcome(pool: DescriptorPool, message_type: Seq<char>, bytes: Seq<u8>) -> Option<Set<Seq<u8>>> {
    let d = pool_decodings(pool);
    let k = lookup_name(message_type);
    if d.contains_key(k) && d[k].contains_key(bytes) && d[k][bytes] != Set::<Seq<u8>>::empty() {
        Some(d[k][bytes])
    } else {
        None
    }
}

/// Decoding `bytes` as the type named `message_type` returns at all
/// (where the pool has the type; where it has not, nothing is decoded).
pub open spec fn decode_safe(pool: DescriptorPool, message_type: Seq<char>, bytes: Seq<u8>) -> bool {
    let d = pool_decodings(pool);
    let k = lookup_name(message_type);
    d.contains_key(k) ==> d[k].contains_key(bytes)
}

/// Looks up the service named `service` with
/// `DescriptorPool::get_service_by_name` and lists its methods
/// (`ServiceDescriptor::methods`), each read into a `Method` through
/// `MethodDescriptor::{name, full_name, input, is_client_streaming,
/// is_server_streaming}` and `MessageDescriptor::full_name`.
///
/// Claimed of it: the lookup finds the service whose full name is the name
/// asked for without one leading '.', and lists that service's methods as
/// `pool_services` holds them; a method's full name is the service's full
/// name and the method's short name, joined by a '.' unless the service's
/// full name is empty; each method holds a handle on `pool`, the pool its
/// input type belongs to.
#[verifier::external_body]
pub(crate) fn service_methods(pool: &DescriptorPool, service: &str) -> (r: Option<Vec<Method>>)
    ensures
        r is Some <==> pool_services(*pool).contains_key(lookup_name(service@)),
        r matches Some(ms) ==> ms@.map_values(|m: Method| method_tuple(m)) == pool_services(*pool)[lookup_name(service@)],
        r matches Some(ms) ==> forall|i: int| 0 <= i < ms@.len() ==> #[trigger] ms@[i].full_name@ == method_full_name(lookup_name(service@), ms@[i].name@),
        r matches Some(ms) ==> forall|i: int| 0 <= i < ms@.len() ==> #[trigger] ms@[i].pool == *pool,
{
    let service = pool.get_service_by_name(service)?;
    Some(
        service.methods().map(|m| Method {
            pool: pool.clone(),
            name: m.name().to_string(),
            full_name: m.full_name().to_string(),
            input: m.input().full_name().to_string(),
            client_streaming: m.is_client_streaming(),
            server_streaming: m.is_server_streaming(),
        }).collect(),
    )
}

/// Decodes `bytes` as a message of the type named `message_type`
/// (`DescriptorPool::get_message_by_name`, `DynamicMessage::decode`) and
/// hands back the decoded message encoded again
/// (`prost::Message::encode_to_vec`), as a payload of that type in `pool`;
/// `None` where the pool has no such type or the bytes do not decode as it.
///
/// Claimed of it: it succeeds exactly as `pool_decodings` holds, and the
/// bytes it hands back are one of the encodings held there. It is not
/// called where it would not return: decoding panics on a map field whose
/// entry type lacks its key or value field, which the pool does not check.
#[verifier::external_body]
pub(crate) fn decode_payload(pool: &DescriptorPool, message_type: &str, bytes: &[u8]) -> (r: Option<Payload>)
    requires
        decode_safe(*pool, message_type@, bytes@),
    ensures
        r is Some <==> (pool_decodings(*pool).contains_key(lookup_name(message_type@)) && pool_decodings(*pool)[lookup_name(message_type@)][bytes@] != Set::<Seq<u8>>::empty()),
        r matches Some(p) ==> pool_decodings(*pool)[lookup_name(message_type@)][bytes@].contains(p.bytes@),
        r matches Some(p) ==> p.pool == *pool && p.message_type@ == message_type@,
{
    let descriptor = pool.get_message_by_name(message_type)?;
    let message = prost_reflect::DynamicMessage::decode(descriptor, bytes).ok()?;
    Some(Payload {
        pool: pool.clone(),
        message_type: message_type.to_string(),
        bytes: prost::Message::encode_to_vec(&message),
    })
}

/// Tells whether two handles are handles on the same pool, with the
/// pool's `==` (which compares the shared pool that each handle points at,
/// `Arc::ptr_eq`).
///
/// Claimed of it: it returns whether the two are the same pool. A handle
/// stands, in every contract here, for the shared pool that it points at;
/// changing a pool through a handle that shares it with others gives that
/// handle a pool of its own.
#[verifier::external_body]
pub(crate) fn same_pool(a: &DescriptorPool, b: &DescriptorPool) -> (r: bool)
    ensures
        r == (*a == *b),
{
    a == b
}

} // verus!
