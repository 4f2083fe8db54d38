use crate::endpoint::{authority_of, Endpoint, EndpointModel};
use crate::error::OnvifError;
use vstd::prelude::*;
use vstd::string::StringExecFns;
use vstd::utf8::{decode_utf8, valid_utf8};

verus! {

/// The path of the device service on every device.
pub const SERVICE_PATH: &'static str = "/onvif/device_service";

/// One request over the connection transport, as plain values: what is sent
/// where.
#[derive(Clone, Debug)]
pub struct SoapRequest {
    pub method: String,
    pub uri: String,
    pub host_header: String,
    pub body: String,
}

/// The URI of the device service at an endpoint.
pub open spec fn service_uri(e: EndpointModel) -> Seq<char> {
    "http://"@ + authority_of(e) + "/onvif/device_service"@
}

/// Describes the one `POST` that carries `body` to the device service at
/// `endpoint`. Every endpoint has an authority, so the description never
/// fails. `MissingAuthority` is for the caller who hands the URI to an HTTP
/// client and is told that it holds no authority.
pub fn send_soap_request(endpoint: &Endpoint, body: &str) -> (out: SoapRequest)
    ensures
        out.method@ == "POST"@,
        out.uri@ == service_uri(endpoint@),
        out.host_header@ == authority_of(endpoint@),
        out.body@ == body@,
{
    let authority = endpoint.authority();
    let mut uri = String::from_str("http://");
    uri.append(authority.as_str());
    uri.append(SERVICE_PATH);
    SoapRequest {
        method: String::from_str("POST"),
        uri,
        host_header: authority,
        body: String::from_str(body),
    }
}

/// Calls std's `String::from_utf8`. Trusted: it returns the text that the
/// bytes encode where they are valid UTF-8, and an error where they are not.
#[verifier::external_body]
fn text_from_utf8(bytes: Vec<u8>) -> (out: Option<String>)
    ensures
        out is Some <==> valid_utf8(bytes@),
        out is Some ==> out->0@ == decode_utf8(bytes@),
{
    String::from_utf8(bytes).ok()
}

/// Reads a response as text, for a caller who wants text.
pub fn decode_text(bytes: Vec<u8>) -> (out: Result<String, OnvifError>)
    ensures
        match out {
            Ok(text) => valid_utf8(bytes@) && text@ == decode_utf8(bytes@),
            Err(e) => !valid_utf8(bytes@) && e == OnvifError::Utf8DecodeError,
        },
{
    match text_from_utf8(bytes) {
        Some(text) => Ok(text),
        None => Err(OnvifError::Utf8DecodeError),
    }
}

/// What the transport hands over when the next frame of a response body is
/// asked for.
#[derive(Debug)]
pub enum FrameEvent {
    /// A frame of data.
    Data(Vec<u8>),
    /// A frame without data, such as trailers.
    Other,
    /// The frame could not be read.
    Failed,
    /// The stream has ended.
    End,
}

/// A frame event as a plain value.
pub enum FrameModel {
    Data(Seq<u8>),
    Other,
    Failed,
    End,
}

impl View for FrameEvent {
    type V = FrameModel;

    open spec fn view(&self) -> FrameModel {
        match *self {
            FrameEvent::Data(bytes) => FrameModel::Data(bytes@),
            FrameEvent::Other => FrameModel::Other,
            FrameEvent::Failed => FrameModel::Failed,
            FrameEvent::End => FrameModel::End,
        }
    }
}

/// Where the reading of a body stands.
#[derive(Clone, Copy, Debug, PartialEq, Eq, Structural)]
pub enum BodyPhase {
    /// More frames are to be pulled.
    Reading,
    /// The stream ended; the body is whole.
    Complete,
    /// A frame could not be read; there is no body.
    Broken,
}

/// Gathers the frames of one response body in the order of their arrival.
#[derive(Debug)]
pub struct BodyCollector {
    bytes: Vec<u8>,
    phase: BodyPhase,
}

/// A collector as plain values.
pub struct CollectorModel {
    pub bytes: Seq<u8>,
    pub phase: BodyPhase,
}

/// What a frame event makes of a collector: data is added at the end while
/// the body is being read, the end of the stream completes it, a failed frame
/// breaks it, and nothing changes a body that is complete or broken.
pub open spec fn absorb(m: CollectorModel, event: FrameModel) -> CollectorModel {
    if m.phase != BodyPhase::Reading {
        m
    } else {
        match event {
            FrameModel::Data(bytes) => CollectorModel { bytes: m.bytes + bytes, ..m },
            FrameModel::Other => m,
            FrameModel::Failed => CollectorModel { phase: BodyPhase::Broken, ..m },
            FrameModel::End => CollectorModel { phase: BodyPhase::Complete, ..m },
        }
    }
}

/// A collector after a run of frame events.
pub open spec fn absorb_all(m: CollectorModel, events: Seq<FrameModel>) -> CollectorModel
    decreases events.len(),
{
    if events.len() == 0 {
        m
    } else {
        absorb(absorb_all(m, events.drop_last()), events.last())
    }
}

/// The chunks one after the other.
pub open spec fn joined(chunks: Seq<Seq<u8>>) -> Seq<u8>
    decreases chunks.len(),
{
    if chunks.len() == 0 {
        Seq::empty()
    } else {
        joined(chunks.drop_last()) + chunks.last()
    }
}

/// The data frames that carry the chunks, in their order.
pub open spec fn data_frames(chunks: Seq<Seq<u8>>) -> Seq<FrameModel> {
    Seq::new(chunks.len(), |i: int| FrameModel::Data(chunks[i]))
}

impl View for BodyCollector {
    type V = CollectorModel;

    closed spec fn view(&self) -> CollectorModel {
        CollectorModel { bytes: self.bytes@, phase: self.phase }
    }
}

impl BodyCollector {
    /// A collector that has read nothing yet.
    pub fn new() -> (out: BodyCollector)
        ensures
            out@.bytes == Seq::<u8>::empty(),
            out@.phase == BodyPhase::Reading,
    {
        BodyCollector { bytes: Vec::new(), phase: BodyPhase::Reading }
    }

    /// Takes the next frame event and says where the reading stands: while it
    /// is `Reading`, the next frame is to be pulled.
    pub fn accept(&mut self, event: FrameEvent) -> (phase: BodyPhase)
        ensures
            final(self)@ == absorb(old(self)@, event@),
            phase == final(self)@.phase,
    {
        if self.phase == BodyPhase::Reading {
            match event {
                FrameEvent::Data(chunk) => {
                    let mut chunk = chunk;
                    self.bytes.append(&mut chunk);
                },
                FrameEvent::Other => {},
                FrameEvent::Failed => {
                    self.phase = BodyPhase::Broken;
                },
                FrameEvent::End => {
                    self.phase = BodyPhase::Complete;
                },
            }
        }
        self.phase
    }

    /// Hands the body over. Only a complete body is a body: one that broke,
    /// or whose stream has not ended, is an error and never a part of the
    /// bytes.
    pub fn into_body(self) -> (out: Result<Vec<u8>, OnvifError>)
        ensures
            match out {
                Ok(bytes) => self@.phase == BodyPhase::Complete && bytes@ == self@.bytes,
                Err(e) => self@.phase != BodyPhase::Complete && e == OnvifError::FrameReadError,
            },
    {
        if self.phase == BodyPhase::Complete {
            Ok(self.bytes)
        } else {
            Err(OnvifError::FrameReadError)
        }
    }
}

/// A body that arrives as data frames and then ends is the chunks of those
/// frames one after the other, in the order of their arrival.
pub proof fn lemma_body_is_frames_in_order(start: CollectorModel, chunks: Seq<Seq<u8>>)
    requires
        start.phase == BodyPhase::Reading,
    ensures
        absorb_all(start, data_frames(chunks)).phase == BodyPhase::Reading,
        absorb_all(start, data_frames(chunks)).bytes == start.bytes + joined(chunks),
        absorb_all(start, data_frames(chunks).push(FrameModel::End)).phase == BodyPhase::Complete,
        absorb_all(start, data_frames(chunks).push(FrameModel::End)).bytes == start.bytes + joined(
            chunks,
        ),
    decreases chunks.len(),
{
    let frames = data_frames(chunks);
    if chunks.len() == 0 {
        assert(start.bytes + joined(chunks) =~= start.bytes);
    } else {
        lemma_body_is_frames_in_order(start, chunks.drop_last());
        assert(frames.drop_last() =~= data_frames(chunks.drop_last()));
        assert(frames.last() == FrameModel::Data(chunks.last()));
        assert(start.bytes + joined(chunks.drop_last()) + chunks.last() =~= start.bytes + joined(
            chunks,
        ));
    }
    assert(frames.push(FrameModel::End).drop_last() =~= frames);
}

} // verus!
