use crate::connection::{send_soap_request, SoapRequest};
use crate::datagram::RetryPolicy;
use crate::digest::{
    base64_text, compute_digest, digest_of, encode_digest, encode_nonce, password_digest_text,
};
use crate::endpoint::{endpoint_of, parse_endpoint, Endpoint, HostAddress, HostModel};
use crate::error::OnvifError;
use crate::template::{
    lemma_single_placeholder_is_gone, mapping_of, render, rendered, sentinel_free, single,
    Substitution,
};
use crate::timestamp::{civil_of, timestamp_at, timestamp_text};
use rand::RngCore;
use vstd::prelude::*;
use vstd::string::StringExecFns;

verus! {

/// The random source of `rand`, one handle per thread.
#[verifier::external_type_specification]
#[verifier::external_body]
pub struct ExThreadRng(rand::rngs::ThreadRng);

/// Calls `rand::rng`, which hands out the thread's random source. Nothing is
/// claimed of it. Where the operating system gives no random bytes the
/// outside code ends the process, as it does when memory runs out; no
/// condition on the arguments can rule that out.
#[verifier::external_body]
fn thread_rng() -> (out: rand::rngs::ThreadRng) {
    rand::rng()
}

/// Calls `RngCore::fill_bytes` of `ThreadRng` on a buffer of 32 bytes. Nothing
/// is claimed of the bytes. A reseeding that gets no random bytes from the
/// operating system ends the process.
#[verifier::external_body]
fn fill_nonce(rng: &mut rand::rngs::ThreadRng) -> (out: [u8; 32]) {
    let mut nonce = [0u8; 32];
    rng.fill_bytes(&mut nonce);
    nonce
}

/// A character of an identifier in hyphenated lower-case form.
pub open spec fn is_uuid_char(c: char) -> bool {
    ('0' <= c && c <= '9') || ('a' <= c && c <= 'f') || c == '-'
}

/// The text has the length and the characters of an identifier in hyphenated
/// lower-case form.
pub open spec fn is_uuid_text(s: Seq<char>) -> bool {
    s.len() == 36 && forall|i: int| 0 <= i < s.len() ==> is_uuid_char(#[trigger] s[i])
}

/// Calls `uuid::Uuid::new_v4` and writes the identifier with its `Display`,
/// the hyphenated lower-case form. Trusted: that form has 36 characters, each
/// a lower-case hexadecimal digit or a hyphen. Where the operating system
/// gives no random bytes the outside code ends the process.
#[verifier::external_body]
fn fresh_message_id() -> (out: String)
    ensures
        is_uuid_text(out@),
{
    uuid::Uuid::new_v4().to_string()
}

/// The port that discovery datagrams go to, in the group 239.255.255.250.
pub const DISCOVERY_PORT: u16 = 3702;

/// The request bodies that the client fills in.
#[derive(Clone, Debug)]
pub struct Templates {
    /// Holds the placeholder `UUID`.
    pub probe: String,
    /// Holds the placeholders `UUID`, `USERNAME`, `PASSHASH`, `NONCE`, `NOW`.
    pub probe_authed: String,
    /// Holds the placeholder `UUID`.
    pub discovery: String,
    /// Holds no placeholder.
    pub device_time: String,
}

/// The mapping of a payload that carries only its message identifier.
pub open spec fn probe_mapping(message_id: Seq<char>) -> Seq<(Seq<char>, Seq<char>)> {
    seq![("UUID"@, message_id)]
}

/// The mapping of an authenticated payload: the digest is taken over this
/// nonce, this timestamp and the secret, and the timestamp that is shown is
/// the one that was hashed.
pub open spec fn authed_mapping(
    message_id: Seq<char>,
    username: Seq<char>,
    nonce: Seq<u8>,
    created: Seq<char>,
    secret: Seq<char>,
) -> Seq<(Seq<char>, Seq<char>)> {
    seq![
        ("UUID"@, message_id),
        ("USERNAME"@, username),
        ("PASSHASH"@, password_digest_text(nonce, created, secret)),
        ("NONCE"@, base64_text(nonce)),
        ("NOW"@, created),
    ]
}

/// An unauthenticated payload, ready for the datagram transport.
#[derive(Clone, Debug)]
pub struct ProbeRequest {
    pub message_id: String,
    pub payload: String,
    pub policy: RetryPolicy,
}

/// An authenticated payload with what went into it.
#[derive(Clone, Debug)]
pub struct AuthedProbeRequest {
    pub message_id: String,
    pub nonce: [u8; 32],
    pub created: String,
    pub digest: [u8; 20],
    pub payload: String,
    pub policy: RetryPolicy,
}

/// A discovery payload and the group it goes to.
#[derive(Clone, Debug)]
pub struct DiscoveryRequest {
    pub message_id: String,
    pub payload: String,
    pub group: Endpoint,
}

/// An identifier in hyphenated lower-case form is not empty, holds no mark
/// and begins with no character of the name `UUID`, so its placeholder is
/// gone from whatever is rendered with it.
pub proof fn lemma_message_id_replaces_its_placeholder(template: Seq<char>, message_id: Seq<char>)
    requires
        is_uuid_text(message_id),
    ensures
        sentinel_free(rendered(template, probe_mapping(message_id)), "UUID"@),
{
    reveal_strlit("UUID");
    let name = "UUID"@;
    assert(is_uuid_char(message_id[0]));
    assert forall|i: int| 0 <= i < message_id.len() implies message_id[i] != '$' by {
        assert(is_uuid_char(message_id[i]));
    }
    assert(probe_mapping(message_id) =~= single(name, message_id));
    lemma_single_placeholder_is_gone(template, name, message_id);
}

/// Fills a template that holds only the message identifier. With an
/// identifier in hyphenated lower-case form no `$UUID$` is left in the
/// result, whatever the template.
pub fn probe_payload(template: &str, message_id: &str) -> (out: String)
    ensures
        out@ == rendered(template@, probe_mapping(message_id@)),
        is_uuid_text(message_id@) ==> sentinel_free(out@, "UUID"@),
{
    let mut subs: Vec<Substitution> = Vec::new();
    subs.push(Substitution::new("UUID", message_id));
    assert(mapping_of(subs@) =~= probe_mapping(message_id@));
    proof {
        if is_uuid_text(message_id@) {
            lemma_message_id_replaces_its_placeholder(template@, message_id@);
        }
    }
    render(template, &subs)
}

/// Builds the authenticated payload for one nonce, one timestamp and one
/// message identifier.
pub fn authed_probe_payload(
    template: &str,
    message_id: &str,
    username: &str,
    secret: &str,
    nonce: [u8; 32],
    created: &str,
    policy: RetryPolicy,
) -> (out: AuthedProbeRequest)
    ensures
        out.message_id@ == message_id@,
        out.nonce@ == nonce@,
        out.created@ == created@,
        out.policy == policy,
        out.digest@ == digest_of(nonce@, created@, secret@),
        out.payload@ == rendered(
            template@,
            authed_mapping(message_id@, username@, nonce@, created@, secret@),
        ),
{
    let digest = compute_digest(&nonce, created, secret);
    let passhash = encode_digest(&digest);
    let nonce_text = encode_nonce(&nonce);
    let mut subs: Vec<Substitution> = Vec::new();
    subs.push(Substitution::new("UUID", message_id));
    subs.push(Substitution::new("USERNAME", username));
    subs.push(Substitution::new("PASSHASH", passhash.as_str()));
    subs.push(Substitution::new("NONCE", nonce_text.as_str()));
    subs.push(Substitution::new("NOW", created));
    assert(mapping_of(subs@) =~= authed_mapping(
        message_id@,
        username@,
        nonce@,
        created@,
        secret@,
    ));
    let payload = render(template, &subs);
    AuthedProbeRequest {
        message_id: String::from_str(message_id),
        nonce,
        created: String::from_str(created),
        digest,
        payload,
        policy,
    }
}

/// The client of one device.
pub struct OnvifClient {
    pub target: Endpoint,
    pub templates: Templates,
    pub policy: RetryPolicy,
    /// Where the nonces come from.
    pub rng_source: rand::rngs::ThreadRng,
}

impl OnvifClient {
    /// A client for the device at `target`, an endpoint text such as
    /// `10.66.3.2:80`. Nothing is sent.
    pub fn new(target: &str, templates: Templates) -> (out: Result<OnvifClient, OnvifError>)
        ensures
            match out {
                Ok(client) => {
                    &&& endpoint_of(target@) == Some(client.target@)
                    &&& client.templates == templates
                    &&& client.policy.attempts == 3
                    &&& client.policy.per_attempt_timeout_ms == 3000
                },
                Err(e) => endpoint_of(target@) is None && e == OnvifError::AddressParseError,
            },
    {
        match parse_endpoint(target) {
            Ok(endpoint) => Ok(OnvifClient::with_endpoint(endpoint, templates)),
            Err(e) => Err(e),
        }
    }

    /// A client for the device at an endpoint that is known already.
    pub fn with_endpoint(target: Endpoint, templates: Templates) -> (out: OnvifClient)
        ensures
            out.target == target,
            out.templates == templates,
            out.policy.attempts == 3,
            out.policy.per_attempt_timeout_ms == 3000,
    {
        OnvifClient { target, templates, policy: RetryPolicy::standard(), rng_source: thread_rng() }
    }

    /// The unauthenticated probe, under a message identifier of its own.
    pub fn probe(&self) -> (out: ProbeRequest)
        ensures
            is_uuid_text(out.message_id@),
            out.policy == self.policy,
            out.payload@ == rendered(
                self.templates.probe@,
                probe_mapping(out.message_id@),
            ),
            sentinel_free(out.payload@, "UUID"@),
    {
        let message_id = fresh_message_id();
        let payload = probe_payload(self.templates.probe.as_str(), message_id.as_str());
        ProbeRequest { message_id, payload, policy: self.policy }
    }

    /// The authenticated probe for `username`, under a nonce and a message
    /// identifier of its own; `now` is the time of the call, in seconds since
    /// the start of 1970. The timestamp that is hashed and the one that is
    /// shown are the same text.
    pub fn probe_authed(&mut self, username: &str, secret: &str, now: u64) -> (out:
        AuthedProbeRequest)
        ensures
            final(self).target == old(self).target,
            final(self).templates == old(self).templates,
            final(self).policy == old(self).policy,
            is_uuid_text(out.message_id@),
            out.created@ == timestamp_text(civil_of(now as nat)),
            out.policy == old(self).policy,
            out.digest@ == digest_of(out.nonce@, out.created@, secret@),
            out.payload@ == rendered(
                old(self).templates.probe_authed@,
                authed_mapping(out.message_id@, username@, out.nonce@, out.created@, secret@),
            ),
    {
        let nonce = fill_nonce(&mut self.rng_source);
        let message_id = fresh_message_id();
        let created_text = timestamp_at(now);
        let created = created_text.as_str();
        authed_probe_payload(
            self.templates.probe_authed.as_str(),
            message_id.as_str(),
            username,
            secret,
            nonce,
            created,
            self.policy,
        )
    }

    /// The device-time query: the fixed body, as one `POST` to the device
    /// service.
    pub fn get_device_datetime(&self) -> (out: SoapRequest)
        ensures
            out.method@ == "POST"@,
            out.uri@ == crate::connection::service_uri(self.target@),
            out.host_header@ == crate::endpoint::authority_of(self.target@),
            out.body@ == self.templates.device_time@,
    {
        send_soap_request(&self.target, self.templates.device_time.as_str())
    }

    /// The discovery datagram, under a message identifier of its own, and the
    /// multicast group it goes to.
    pub fn discover(&self) -> (out: DiscoveryRequest)
        ensures
            is_uuid_text(out.message_id@),
            out.group@.host == HostModel::V4(seq![239u8, 255u8, 255u8, 250u8]),
            out.group@.port == 3702,
            out.group@.scope_id == 0,
            out.payload@ == rendered(
                self.templates.discovery@,
                probe_mapping(out.message_id@),
            ),
            sentinel_free(out.payload@, "UUID"@),
    {
        let message_id = fresh_message_id();
        let payload = probe_payload(self.templates.discovery.as_str(), message_id.as_str());
        let octets: [u8; 4] = [239, 255, 255, 250];
        assert(octets@ =~= seq![239u8, 255u8, 255u8, 250u8]);
        let group = Endpoint { host: HostAddress::V4(octets), port: DISCOVERY_PORT, scope_id: 0 };
        DiscoveryRequest {
            message_id,
            payload,
            group,
        }
    }
}

} // verus!
