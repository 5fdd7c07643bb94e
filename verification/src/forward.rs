//! The forwarding engine's per-event logic. The full-duplex copy loops
//! race two reads and hand whichever event arrives to one of the step
//! functions below; each step says exactly which frame is forwarded,
//! delivered, or rejected, and which transform is applied at a
//! plain/framed boundary.
use vstd::prelude::*;

use crate::crypt::CryptDirection;
use crate::crypt::spec_in_transform;
use crate::crypt::spec_out_transform;
use crate::crypt::transform;
use crate::err::NfError;
use crate::err::NfResult;
use crate::protocol::Protocol;
use crate::protocol::ProtocolHeaderType;
use crate::protocol::PROTOCOL_HEAD_VERSION;
use crate::protocol::spec_body_bytes;
use crate::request::Request;
use crate::settings::SupportCrypt;

verus! {

/// What a forwarding loop does after one frame from its framed side.
#[derive(Debug)]
pub enum ForwardStep {
    /// Write these bytes to the plain side and keep going.
    Deliver(Vec<u8>),
    /// The logical session ended gracefully: close both sides.
    Finish,
}

pub struct ForwardHandle {}

impl ForwardHandle {
    /// One frame received from the framed target side of a plain↔framed
    /// loop. A `ForwardDataRes` frame has its body transformed out of the
    /// protocol and delivered to the plain side; `ForwardEndRes` finishes
    /// the session; an unsupported version or any other type is a
    /// protocol violation.
    pub fn empty_to_proto_frame(crypt: &SupportCrypt, res: Protocol) -> (r: NfResult<ForwardStep>)
        requires
            crypt.wf(),
        ensures
            res.header.version != PROTOCOL_HEAD_VERSION ==> r is Err,
            r matches Ok(step) ==> match res.header.p_type {
                ProtocolHeaderType::ForwardDataRes => step matches ForwardStep::Deliver(v)
                    && res.body is Some && spec_out_transform(
                    *crypt,
                    spec_body_bytes(res.body),
                ) == Some(v@),
                ProtocolHeaderType::ForwardEndRes => step is Finish,
                _ => false,
            },
            r is Ok <==> (res.header.version == PROTOCOL_HEAD_VERSION && (res.header.p_type
                is ForwardEndRes || (res.header.p_type is ForwardDataRes && res.body is Some
                && spec_out_transform(*crypt, spec_body_bytes(res.body)) is Some))),
    {
        Self::framed_in_step(
            crypt,
            res,
            ProtocolHeaderType::ForwardDataRes,
            ProtocolHeaderType::ForwardEndRes,
        )
    }

    /// One chunk read from the plain source side of a plain↔framed loop:
    /// the bytes are transformed into the protocol and wrapped in a
    /// `ForwardData` frame for the framed target side.
    pub fn empty_to_proto_data(crypt: &SupportCrypt, data: &[u8]) -> (r: NfResult<Protocol>)
        requires
            crypt.wf(),
        ensures
            r matches Ok(p) && p.wf() && p.header.version == PROTOCOL_HEAD_VERSION
                && p.header.p_type == ProtocolHeaderType::ForwardData && p.args is None && (
            p.body matches Some(v) && v@ == spec_in_transform(*crypt, data@)),
    {
        let buff = match transform(CryptDirection::IntoProtocol, crypt, data) {
            Ok(v) => v,
            Err(e) => {
                proof {
                    // the transform into the protocol never fails
                    assert(false);
                }
                return Err(e);
            },
        };
        Ok(Request::send_forward_data(buff))
    }

    /// One frame received from the framed source side of a framed↔plain
    /// loop. A `ForwardData` frame has its body transformed out of the
    /// protocol and delivered to the plain target side; `ForwardEnd`
    /// finishes the session; an unsupported version or any other type is
    /// a protocol violation.
    pub fn proto_to_empty_frame(crypt: &SupportCrypt, res: Protocol) -> (r: NfResult<ForwardStep>)
        requires
            crypt.wf(),
        ensures
            res.header.version != PROTOCOL_HEAD_VERSION ==> r is Err,
            r matches Ok(step) ==> match res.header.p_type {
                ProtocolHeaderType::ForwardData => step matches ForwardStep::Deliver(v)
                    && res.body is Some && spec_out_transform(
                    *crypt,
                    spec_body_bytes(res.body),
                ) == Some(v@),
                ProtocolHeaderType::ForwardEnd => step is Finish,
                _ => false,
            },
            r is Ok <==> (res.header.version == PROTOCOL_HEAD_VERSION && (res.header.p_type
                is ForwardEnd || (res.header.p_type is ForwardData && res.body is Some
                && spec_out_transform(*crypt, spec_body_bytes(res.body)) is Some))),
    {
        Self::framed_in_step(
            crypt,
            res,
            ProtocolHeaderType::ForwardData,
            ProtocolHeaderType::ForwardEnd,
        )
    }

    /// One chunk read from the plain target side of a framed↔plain loop:
    /// the bytes are transformed into the protocol and wrapped in a
    /// `ForwardDataRes` frame for the framed source side.
    pub fn proto_to_empty_data(crypt: &SupportCrypt, data: &[u8]) -> (r: NfResult<Protocol>)
        requires
            crypt.wf(),
        ensures
            r matches Ok(p) && p.wf() && p.header.version == PROTOCOL_HEAD_VERSION
                && p.header.p_type == ProtocolHeaderType::ForwardDataRes && p.args is None && (
            p.body matches Some(v) && v@ == spec_in_transform(*crypt, data@)),
    {
        let buff = match transform(CryptDirection::IntoProtocol, crypt, data) {
            Ok(v) => v,
            Err(e) => {
                proof {
                    // the transform into the protocol never fails
                    assert(false);
                }
                return Err(e);
            },
        };
        Ok(Protocol::new(ProtocolHeaderType::ForwardDataRes, None, Some(buff)))
    }

    /// One frame received on either side of a framed↔framed relay: the
    /// frame passes through unmodified, but a frame of an unsupported
    /// version is rejected, never passed on.
    pub fn proto_to_proto_frame(res: Protocol) -> (r: NfResult<Protocol>)
        ensures
            r matches Ok(p) ==> p == res && res.header.version == PROTOCOL_HEAD_VERSION,
            r is Ok <==> res.header.version == PROTOCOL_HEAD_VERSION,
    {
        if res.header.version != PROTOCOL_HEAD_VERSION {
            return Err(NfError::E(String::from_str("protocol version not supported.")));
        }
        Ok(res)
    }

    /// The shared logic of the two framed-in steps: `data_type` frames are
    /// unwrapped and transformed out of the protocol, `end_type` frames
    /// finish the session, everything else is rejected.
    fn framed_in_step(
        crypt: &SupportCrypt,
        res: Protocol,
        data_type: ProtocolHeaderType,
        end_type: ProtocolHeaderType,
    ) -> (r: NfResult<ForwardStep>)
        requires
            crypt.wf(),
            data_type != end_type,
        ensures
            res.header.version != PROTOCOL_HEAD_VERSION ==> r is Err,
            r matches Ok(step) ==> (if res.header.p_type == data_type {
                step matches ForwardStep::Deliver(v) && res.body is Some && spec_out_transform(
                    *crypt,
                    spec_body_bytes(res.body),
                ) == Some(v@)
            } else if res.header.p_type == end_type {
                step is Finish
            } else {
                false
            }),
            r is Ok <==> (res.header.version == PROTOCOL_HEAD_VERSION && (res.header.p_type
                == end_type || (res.header.p_type == data_type && res.body is Some
                && spec_out_transform(*crypt, spec_body_bytes(res.body)) is Some))),
    {
        if res.header.version != PROTOCOL_HEAD_VERSION {
            return Err(NfError::E(String::from_str("protocol version not supported.")));
        }
        if res.header.p_type == end_type {
            return Ok(ForwardStep::Finish);
        }
        if res.header.p_type == data_type {
            match res.body {
                Some(body) => {
                    match transform(CryptDirection::OutOfProtocol, crypt, body.as_slice()) {
                        Ok(v) => Ok(ForwardStep::Deliver(v)),
                        Err(e) => Err(e),
                    }
                },
                None => Err(NfError::E(String::from_str("protocol body is None."))),
            }
        } else {
            Err(NfError::E(String::from_str("protocol head not supported.")))
        }
    }
}

} // verus!
