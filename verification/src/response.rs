//! Response-side frame handling: building the handshake acknowledgement a
//! node sends back, and validating the acknowledgements it receives.
use vstd::prelude::*;
use vstd::utf8::encode_utf8;
use vstd::utf8::valid_utf8;

use crate::convert::StringUtil;
use crate::err::NfError;
use crate::err::NfResult;
use crate::protocol::Data;
use crate::protocol::Protocol;
use crate::protocol::ProtocolArgs;
use crate::protocol::ProtocolHeaderType;
use crate::protocol::PROTOCOL_HEAD_VERSION;
use crate::protocol::spec_args_bytes;

verus! {

pub struct Response {}

impl Response {
    /// Builds the handshake acknowledgement frame: a `ForwardStartRes`
    /// frame whose args carry the status envelope as JSON text. Fails
    /// exactly when the envelope's opaque data value is not valid UTF-8 or
    /// the encoded envelope would overflow the args length field.
    pub fn send_forward_start(data: Data) -> (r: NfResult<Protocol>)
        ensures
            r matches Ok(p) ==> p.wf() && p.header.version == PROTOCOL_HEAD_VERSION
                && p.header.p_type == ProtocolHeaderType::ForwardStartRes && (p.args matches Some(
                ProtocolArgs::Str(s),
            ) && encode_utf8(s@) == data.spec_json_bytes()) && p.body is None,
            r is Ok <==> (valid_utf8(data.spec_json_bytes()) && data.spec_json_bytes().len()
                <= u32::MAX),
    {
        let encoded = data.to_json_bytes();
        if encoded.len() as u64 > 0xffff_ffffu64 {
            return Err(NfError::ConvertError(String::from_str("data convert json failed.")));
        }
        let text = match StringUtil::string_from_utf8(encoded) {
            Ok(t) => t,
            Err(_) => {
                return Err(NfError::ConvertError(String::from_str("data convert json failed.")));
            },
        };
        let args = Some(ProtocolArgs::Str(text));
        proof {
            assert(spec_args_bytes(args).len() <= u32::MAX);
        }
        Ok(Protocol::new(ProtocolHeaderType::ForwardStartRes, args, None))
    }

    /// Validates a received handshake acknowledgement and decodes its
    /// status envelope: the frame must carry the supported version, the
    /// `ForwardStartRes` type, and a string args holding one well-formed
    /// status object.
    pub fn recv_forward_start(proto: Protocol) -> (r: NfResult<Data>)
        ensures
            r matches Ok(d) ==> (proto.header.version == PROTOCOL_HEAD_VERSION
                && proto.header.p_type == ProtocolHeaderType::ForwardStartRes && (
            proto.args matches Some(ProtocolArgs::Str(s))
                && crate::json::spec_parse_status(encode_utf8(s@)) matches Some((v, m, dd))
                && d.code as int == v && encode_utf8(d.msg@) == m && d.data@ == dd)),
            r is Ok <==> (proto.header.version == PROTOCOL_HEAD_VERSION && proto.header.p_type
                == ProtocolHeaderType::ForwardStartRes && (proto.args matches Some(
                ProtocolArgs::Str(s),
            ) && Data::spec_decodable(encode_utf8(s@)))),
    {
        if proto.header.version != PROTOCOL_HEAD_VERSION {
            return Err(
                NfError::E(String::from_str("recv forward start protocol response failed.")),
            );
        }
        if !matches!(proto.header.p_type, ProtocolHeaderType::ForwardStartRes) {
            return Err(
                NfError::E(String::from_str("recv forward start protocol response failed.")),
            );
        }
        match proto.args {
            Some(ProtocolArgs::Str(s)) => {
                let bytes = s.as_str().as_bytes_vec();
                match Data::from_json_bytes(&bytes) {
                    Ok(d) => Ok(d),
                    Err(_) => Err(
                        NfError::ConvertError(
                            String::from_str(
                                "recv forward start protocol response arg convert object failed.",
                            ),
                        ),
                    ),
                }
            },
            Some(ProtocolArgs::ForwardStart(_)) => Err(
                NfError::E(String::from_str("recv forward start response arg not matched.")),
            ),
            None => Err(NfError::E(String::from_str("recv forward start protocol arg is None."))),
        }
    }
}

} // verus!
