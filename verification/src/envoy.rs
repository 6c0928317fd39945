//! The types of the properties that the host knows: how the raw bytes of
//! each are to be decoded, and the CEL type of the decoded value.
use crate::cel::ValueKind;
use vstd::prelude::*;

verus! {

/// How the raw bytes of a host property decode.
#[derive(Debug, Clone, Copy, PartialEq, Eq)]
pub enum PropertyDecoder {
    /// Nanoseconds since the epoch, as a little-endian integer.
    Timestamp,
    /// UTF-8 text.
    Str,
    /// A little-endian integer.
    Integer,
    /// A map of strings in the host's serialization.
    StrMap,
    /// A boolean.
    Boolean,
    /// The bytes as they are.
    Bytes,
}

/// The known properties: name, decoder and CEL type.
pub open spec fn envoy_table() -> Seq<(&'static str, PropertyDecoder, ValueKind)> {
    seq![
        ("request.time", PropertyDecoder::Timestamp, ValueKind::Timestamp),
        ("request.id", PropertyDecoder::Str, ValueKind::Str),
        ("request.protocol", PropertyDecoder::Str, ValueKind::Str),
        ("request.scheme", PropertyDecoder::Str, ValueKind::Str),
        ("request.host", PropertyDecoder::Str, ValueKind::Str),
        ("request.method", PropertyDecoder::Str, ValueKind::Str),
        ("request.path", PropertyDecoder::Str, ValueKind::Str),
        ("request.url_path", PropertyDecoder::Str, ValueKind::Str),
        ("request.query", PropertyDecoder::Str, ValueKind::Str),
        ("request.referer", PropertyDecoder::Str, ValueKind::Str),
        ("request.useragent", PropertyDecoder::Str, ValueKind::Str),
        ("request.body", PropertyDecoder::Str, ValueKind::Str),
        ("source.address", PropertyDecoder::Str, ValueKind::Str),
        ("source.service", PropertyDecoder::Str, ValueKind::Str),
        ("source.principal", PropertyDecoder::Str, ValueKind::Str),
        ("source.certificate", PropertyDecoder::Str, ValueKind::Str),
        ("destination.address", PropertyDecoder::Str, ValueKind::Str),
        ("destination.service", PropertyDecoder::Str, ValueKind::Str),
        ("destination.principal", PropertyDecoder::Str, ValueKind::Str),
        ("destination.certificate", PropertyDecoder::Str, ValueKind::Str),
        ("connection.requested_server_name", PropertyDecoder::Str, ValueKind::Str),
        ("connection.tls_session.sni", PropertyDecoder::Str, ValueKind::Str),
        ("connection.tls_version", PropertyDecoder::Str, ValueKind::Str),
        ("connection.subject_local_certificate", PropertyDecoder::Str, ValueKind::Str),
        ("connection.subject_peer_certificate", PropertyDecoder::Str, ValueKind::Str),
        ("connection.dns_san_local_certificate", PropertyDecoder::Str, ValueKind::Str),
        ("connection.dns_san_peer_certificate", PropertyDecoder::Str, ValueKind::Str),
        ("connection.uri_san_local_certificate", PropertyDecoder::Str, ValueKind::Str),
        ("connection.uri_san_peer_certificate", PropertyDecoder::Str, ValueKind::Str),
        ("connection.sha256_peer_certificate_digest", PropertyDecoder::Str, ValueKind::Str),
        ("ratelimit.domain", PropertyDecoder::Str, ValueKind::Str),
        ("request.size", PropertyDecoder::Integer, ValueKind::Int),
        ("source.port", PropertyDecoder::Integer, ValueKind::Int),
        ("destination.port", PropertyDecoder::Integer, ValueKind::Int),
        ("connection.id", PropertyDecoder::Integer, ValueKind::Int),
        ("ratelimit.hits_addend", PropertyDecoder::Integer, ValueKind::Int),
        ("request.headers", PropertyDecoder::StrMap, ValueKind::Mapping),
        ("request.context_extensions", PropertyDecoder::StrMap, ValueKind::Mapping),
        ("source.labels", PropertyDecoder::StrMap, ValueKind::Mapping),
        ("destination.labels", PropertyDecoder::StrMap, ValueKind::Mapping),
        ("filter_state", PropertyDecoder::StrMap, ValueKind::Mapping),
        ("connection.mtls", PropertyDecoder::Boolean, ValueKind::Bool),
        ("request.raw_body", PropertyDecoder::Bytes, ValueKind::Bytes),
        ("auth.identity", PropertyDecoder::Bytes, ValueKind::Bytes),
    ]
}

/// The decoder and type of the first entry of `table` named `name`.
pub open spec fn lookup_property(table: Seq<(&'static str, PropertyDecoder, ValueKind)>, name: Seq<char>) -> Option<(PropertyDecoder, ValueKind)>
    decreases table.len(),
{
    if table.len() == 0 {
        None
    } else if table[0].0@ == name {
        Some((table[0].1, table[0].2))
    } else {
        lookup_property(table.drop_first(), name)
    }
}

/// The known host properties, by name.
pub struct EnvoyTypeMapper {
    known_properties: Vec<(&'static str, PropertyDecoder, ValueKind)>,
}

impl EnvoyTypeMapper {
    /// The known properties, in order.
    pub closed spec fn table(&self) -> Seq<(&'static str, PropertyDecoder, ValueKind)> {
        self.known_properties@
    }

    /// The mapper of all the properties the host is known to have.
    pub fn new() -> (res: Self)
        ensures
            res.table() == envoy_table(),
    {
        EnvoyTypeMapper {
            known_properties: vec![
        ("request.time", PropertyDecoder::Timestamp, ValueKind::Timestamp),
        ("request.id", PropertyDecoder::Str, ValueKind::Str),
        ("request.protocol", PropertyDecoder::Str, ValueKind::Str),
        ("request.scheme", PropertyDecoder::Str, ValueKind::Str),
        ("request.host", PropertyDecoder::Str, ValueKind::Str),
        ("request.method", PropertyDecoder::Str, ValueKind::Str),
        ("request.path", PropertyDecoder::Str, ValueKind::Str),
        ("request.url_path", PropertyDecoder::Str, ValueKind::Str),
        ("request.query", PropertyDecoder::Str, ValueKind::Str),
        ("request.referer", PropertyDecoder::Str, ValueKind::Str),
        ("request.useragent", PropertyDecoder::Str, ValueKind::Str),
        ("request.body", PropertyDecoder::Str, ValueKind::Str),
        ("source.address", PropertyDecoder::Str, ValueKind::Str),
        ("source.service", PropertyDecoder::Str, ValueKind::Str),
        ("source.principal", PropertyDecoder::Str, ValueKind::Str),
        ("source.certificate", PropertyDecoder::Str, ValueKind::Str),
        ("destination.address", PropertyDecoder::Str, ValueKind::Str),
        ("destination.service", PropertyDecoder::Str, ValueKind::Str),
        ("destination.principal", PropertyDecoder::Str, ValueKind::Str),
        ("destination.certificate", PropertyDecoder::Str, ValueKind::Str),
        ("connection.requested_server_name", PropertyDecoder::Str, ValueKind::Str),
        ("connection.tls_session.sni", PropertyDecoder::Str, ValueKind::Str),
        ("connection.tls_version", PropertyDecoder::Str, ValueKind::Str),
        ("connection.subject_local_certificate", PropertyDecoder::Str, ValueKind::Str),
        ("connection.subject_peer_certificate", PropertyDecoder::Str, ValueKind::Str),
        ("connection.dns_san_local_certificate", PropertyDecoder::Str, ValueKind::Str),
        ("connection.dns_san_peer_certificate", PropertyDecoder::Str, ValueKind::Str),
        ("connection.uri_san_local_certificate", PropertyDecoder::Str, ValueKind::Str),
        ("connection.uri_san_peer_certificate", PropertyDecoder::Str, ValueKind::Str),
        ("connection.sha256_peer_certificate_digest", PropertyDecoder::Str, ValueKind::Str),
        ("ratelimit.domain", PropertyDecoder::Str, ValueKind::Str),
        ("request.size", PropertyDecoder::Integer, ValueKind::Int),
        ("source.port", PropertyDecoder::Integer, ValueKind::Int),
        ("destination.port", PropertyDecoder::Integer, ValueKind::Int),
        ("connection.id", PropertyDecoder::Integer, ValueKind::Int),
        ("ratelimit.hits_addend", PropertyDecoder::Integer, ValueKind::Int),
        ("request.headers", PropertyDecoder::StrMap, ValueKind::Mapping),
        ("request.context_extensions", PropertyDecoder::StrMap, ValueKind::Mapping),
        ("source.labels", PropertyDecoder::StrMap, ValueKind::Mapping),
        ("destination.labels", PropertyDecoder::StrMap, ValueKind::Mapping),
        ("filter_state", PropertyDecoder::StrMap, ValueKind::Mapping),
        ("connection.mtls", PropertyDecoder::Boolean, ValueKind::Bool),
        ("request.raw_body", PropertyDecoder::Bytes, ValueKind::Bytes),
        ("auth.identity", PropertyDecoder::Bytes, ValueKind::Bytes),
            ],
        }
    }

    fn find(&self, path: &str) -> (res: Option<(PropertyDecoder, ValueKind)>)
        ensures
            res == lookup_property(self.table(), path@),
    {
        let n = self.known_properties.len();
        assert(self.table().skip(0) =~= self.table());
        for i in 0..n
            invariant
                n == self.table().len(),
                lookup_property(self.table(), path@) == lookup_property(self.table().skip(i as int), path@),
        {
            let (name, decoder, kind) = self.known_properties[i];
            let ghost rest = self.table().skip(i as int);
            assert(rest[0] == self.table()[i as int]);
            assert(rest.drop_first() =~= self.table().skip(i + 1));
            if crate::text::str_eq(name, path) {
                return Some((decoder, kind));
            }
        }
        assert(self.table().skip(n as int).len() == 0);
        None
    }

    /// How to decode the raw value of the property at `path`, handed back
    /// with the value; the raw value alone when the property is unknown.
    pub fn typed(&self, path: &str, raw: Vec<u8>) -> (res: Result<(PropertyDecoder, Vec<u8>), Vec<u8>>)
        ensures
            match lookup_property(self.table(), path@) {
                Some((d, _)) => res matches Ok((d2, r)) && d2 == d && r@ == raw@,
                None => res matches Err(r) && r@ == raw@,
            },
    {
        match self.find(path) {
            Some((decoder, _)) => Ok((decoder, raw)),
            None => Err(raw),
        }
    }

    /// The CEL type of the property at `path`, if it is known.
    pub fn cel_type(&self, path: &str) -> (res: Option<ValueKind>)
        ensures
            res == match lookup_property(self.table(), path@) {
                Some((_, k)) => Some(k),
                None => None,
            },
    {
        match self.find(path) {
            Some((_, kind)) => Some(kind),
            None => None,
        }
    }
}

} // verus!
