//! Request-side frame handling: building the handshake and data frames a
//! node sends forward, and validating the handshake frames it receives.
use vstd::prelude::*;

use crate::err::NfError;
use crate::err::NfResult;
use crate::protocol::NfBuff;
use crate::protocol::Protocol;
use crate::protocol::ProtocolArgs;
use crate::protocol::ProtocolForwardStartArgs;
use crate::protocol::ProtocolHeaderType;
use crate::protocol::PROTOCOL_HEAD_VERSION;
use crate::protocol::spec_args_bytes;

verus! {

pub struct Request {}

impl Request {
    /// Builds the handshake frame that opens forwarding towards the hops
    /// named in `arg`; fails only when the encoded payload would overflow
    /// the header's args length field.
    pub fn send_forward_start(arg: ProtocolForwardStartArgs) -> (r: NfResult<Protocol>)
        ensures
            r matches Ok(p) ==> p.wf() && p.header.version == PROTOCOL_HEAD_VERSION
                && p.header.p_type == ProtocolHeaderType::ForwardStart && p.args == Some(
                ProtocolArgs::ForwardStart(arg),
            ) && p.body is None,
            r is Ok <==> arg.spec_json_bytes().len() <= u32::MAX,
    {
        let encoded = arg.to_json_bytes();
        if encoded.len() as u64 > 0xffff_ffffu64 {
            return Err(NfError::E(String::from_str("the handshake payload is too large.")));
        }
        let args = Some(ProtocolArgs::ForwardStart(arg));
        proof {
            assert(spec_args_bytes(args).len() <= u32::MAX);
        }
        Ok(Protocol::new(ProtocolHeaderType::ForwardStart, args, None))
    }

    /// Validates a received handshake frame and hands out its payload: the
    /// frame must carry the supported version, the `ForwardStart` type, and
    /// a handshake payload in its args.
    pub fn recv_forward_start(proto: Protocol) -> (r: NfResult<ProtocolForwardStartArgs>)
        ensures
            r matches Ok(a) ==> proto.header.version == PROTOCOL_HEAD_VERSION
                && proto.header.p_type == ProtocolHeaderType::ForwardStart && proto.args == Some(
                ProtocolArgs::ForwardStart(a),
            ),
            r is Ok <==> (proto.header.version == PROTOCOL_HEAD_VERSION && proto.header.p_type
                == ProtocolHeaderType::ForwardStart && proto.args matches Some(
                ProtocolArgs::ForwardStart(_),
            )),
    {
        if proto.header.version != PROTOCOL_HEAD_VERSION {
            return Err(NfError::E(String::from_str("the protocol head version not supported.")));
        }
        if !matches!(proto.header.p_type, ProtocolHeaderType::ForwardStart) {
            return Err(
                NfError::E(
                    String::from_str("protocol head type not match. need ForwardStart head type."),
                ),
            );
        }
        match proto.args {
            Some(ProtocolArgs::ForwardStart(arg)) => Ok(arg),
            Some(ProtocolArgs::Str(_)) => Err(
                NfError::E(String::from_str("proto args not match.")),
            ),
            None => Err(NfError::E(String::from_str("proto args is None."))),
        }
    }

    /// Builds the frame that carries one chunk of forwarded payload
    /// onward: a `ForwardData` frame whose body is the chunk.
    pub fn send_forward_data(data: NfBuff) -> (r: Protocol)
        ensures
            r.wf(),
            r.header.version == PROTOCOL_HEAD_VERSION,
            r.header.p_type == ProtocolHeaderType::ForwardData,
            r.args is None,
            r.body == Some(data),
    {
        Protocol::new(ProtocolHeaderType::ForwardData, None, Some(data))
    }

    /// Builds the nested handshake frame that `open_forward_connect` sends
    /// to a newly dialed peer when hops remain: the dialed address as the
    /// informational target, the remaining hops as the new hop list. Fails
    /// only when the encoded payload would overflow the header's args
    /// length field.
    pub fn open_forward_connect_handshake(target_address: String, link_nodes: Vec<String>) -> (r:
        NfResult<Protocol>)
        ensures
            r matches Ok(p) ==> p.wf() && p.header.version == PROTOCOL_HEAD_VERSION
                && p.header.p_type == ProtocolHeaderType::ForwardStart && (p.args matches Some(
                ProtocolArgs::ForwardStart(a),
            ) && a.target_address == target_address && a.link_address == link_nodes) && p.body
                is None,
            r is Ok <==> (ProtocolForwardStartArgs {
                target_address,
                link_address: link_nodes,
            }).spec_json_bytes().len() <= u32::MAX,
    {
        let arg = ProtocolForwardStartArgs { target_address, link_address: link_nodes };
        Self::send_forward_start(arg)
    }
}

} // verus!
