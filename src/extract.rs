//! Digest extraction from one Sigstore bundle record.
use crate::codec::{base64_decode, base64_decoded, hex_decode, hex_decoded, hex_encoded, lemma_hex_round_trip, sha256_of};
use crate::json::{array_at, get_array, get_member, get_str, json_get, json_parsed, parse_json, str_at, JsonValue};
use vstd::prelude::*;
use vstd::string::StringExecFns;

verus! {

/// Why a record yields no digests.
#[derive(Debug)]
pub enum ExtractError {
    /// The record is not a JSON document.
    InvalidJson,
    /// A required member is absent or has the wrong JSON type; holds its key.
    MissingField(String),
    /// The bundle declares a media type other than the two accepted ones.
    UnsupportedMediaType(String),
    /// The bundle holds neither a message signature nor a DSSE envelope.
    UnknownContent,
    /// The message digest uses an algorithm other than SHA-256.
    UnsupportedAlgorithm(String),
    /// The message digest is not valid base64.
    DigestNotBase64,
    /// The envelope carries a payload type other than an in-toto statement.
    UnsupportedPayloadType(String),
    /// The envelope payload is not valid base64.
    PayloadNotBase64,
    /// The decoded envelope payload is not a JSON document.
    InvalidPayload,
    /// The in-toto statement declares an unexpected statement type.
    UnsupportedStatementType(String),
    /// A subject's SHA-256 digest is not valid hex; holds the digest text.
    SubjectDigestNotHex(String),
}

/// The content of an `ExtractError`, with texts as character sequences.
pub enum ExtractFailure {
    InvalidJson,
    MissingField(Seq<char>),
    UnsupportedMediaType(Seq<char>),
    UnknownContent,
    UnsupportedAlgorithm(Seq<char>),
    DigestNotBase64,
    UnsupportedPayloadType(Seq<char>),
    PayloadNotBase64,
    InvalidPayload,
    UnsupportedStatementType(Seq<char>),
    SubjectDigestNotHex(Seq<char>),
}

impl View for ExtractError {
    type V = ExtractFailure;

    open spec fn view(&self) -> ExtractFailure {
        match self {
            ExtractError::InvalidJson => ExtractFailure::InvalidJson,
            ExtractError::MissingField(s) => ExtractFailure::MissingField(s@),
            ExtractError::UnsupportedMediaType(s) => ExtractFailure::UnsupportedMediaType(s@),
            ExtractError::UnknownContent => ExtractFailure::UnknownContent,
            ExtractError::UnsupportedAlgorithm(s) => ExtractFailure::UnsupportedAlgorithm(s@),
            ExtractError::DigestNotBase64 => ExtractFailure::DigestNotBase64,
            ExtractError::UnsupportedPayloadType(s) => ExtractFailure::UnsupportedPayloadType(s@),
            ExtractError::PayloadNotBase64 => ExtractFailure::PayloadNotBase64,
            ExtractError::InvalidPayload => ExtractFailure::InvalidPayload,
            ExtractError::UnsupportedStatementType(s) => ExtractFailure::UnsupportedStatementType(s@),
            ExtractError::SubjectDigestNotHex(s) => ExtractFailure::SubjectDigestNotHex(s@),
        }
    }
}

pub const MEDIA_TYPE: &'static str = "application/vnd.dev.sigstore.bundle+json;version=0.3";
pub const MEDIA_TYPE_ALT: &'static str = "application/vnd.dev.sigstore.bundle.v0.3+json";
pub const SHA256_ALGORITHM: &'static str = "SHA2_256";
pub const IN_TOTO_PAYLOAD_TYPE: &'static str = "application/vnd.in-toto+json";
pub const IN_TOTO_STATEMENT_TYPE: &'static str = "https://in-toto.io/Statement/v1";

/// The digests an extraction produced, or its failure, as plain values.
pub open spec fn digests_view(r: Result<Vec<Vec<u8>>, ExtractError>) -> Result<Seq<Seq<u8>>, ExtractFailure> {
    match r {
        Ok(v) => Ok(v@.map_values(|d: Vec<u8>| d@)),
        Err(e) => Err(e@),
    }
}

/// The digest text of one in-toto subject: its `digest.sha256` member.
pub open spec fn subject_fields(subject: JsonValue) -> Result<Seq<char>, ExtractFailure> {
    match json_get(subject, "digest"@) {
        Some(d) => match str_at(d, "sha256"@) {
            Some(h) => Ok(h),
            None => Err(ExtractFailure::MissingField("sha256"@)),
        },
        None => Err(ExtractFailure::MissingField("digest"@)),
    }
}

/// The digest of one in-toto subject.
pub open spec fn subject_digest(subject: JsonValue) -> Result<Seq<u8>, ExtractFailure> {
    match subject_fields(subject) {
        Ok(h) => match hex_decoded(h) {
            Some(b) => Ok(b),
            None => Err(ExtractFailure::SubjectDigestNotHex(h)),
        },
        Err(e) => Err(e),
    }
}

/// The digests of a list of subjects, in order; the first failing subject
/// decides the failure.
pub open spec fn subjects_digests(subjects: Seq<JsonValue>) -> Result<Seq<Seq<u8>>, ExtractFailure>
    decreases subjects.len(),
{
    if subjects.len() == 0 {
        Ok(Seq::empty())
    } else {
        match subjects_digests(subjects.drop_last()) {
            Err(e) => Err(e),
            Ok(ds) => match subject_digest(subjects.last()) {
                Err(e) => Err(e),
                Ok(d) => Ok(ds.push(d)),
            },
        }
    }
}

/// The digests an in-toto v1 statement attests: one per subject.
pub open spec fn statement_digests(st: JsonValue) -> Result<Seq<Seq<u8>>, ExtractFailure> {
    match str_at(st, "_type"@) {
        None => Err(ExtractFailure::MissingField("_type"@)),
        Some(t) => if t != IN_TOTO_STATEMENT_TYPE@ {
            Err(ExtractFailure::UnsupportedStatementType(t))
        } else {
            match array_at(st, "subject"@) {
                None => Err(ExtractFailure::MissingField("subject"@)),
                Some(subjects) => subjects_digests(subjects),
            }
        },
    }
}

/// The digests of an in-toto subject.
pub struct InTotoDigest {
    pub sha256: String,
}

impl InTotoDigest {
    /// Reads the `sha256` member of a subject's digest object.
    pub fn from_json(v: &JsonValue) -> (r: Result<InTotoDigest, ExtractError>)
        ensures
            match r {
                Ok(d) => str_at(*v, "sha256"@) == Some(d.sha256@),
                Err(e) => str_at(*v, "sha256"@) is None && e@ == ExtractFailure::MissingField("sha256"@),
            },
    {
        match get_str(v, &String::from_str("sha256")) {
            Some(h) => Ok(InTotoDigest { sha256: h.clone() }),
            None => Err(ExtractError::MissingField(String::from_str("sha256"))),
        }
    }
}

/// One subject of an in-toto statement.
pub struct InTotoSubject {
    pub digest: InTotoDigest,
}

impl InTotoSubject {
    /// Reads a subject object.
    pub fn from_json(v: &JsonValue) -> (r: Result<InTotoSubject, ExtractError>)
        ensures
            match r {
                Ok(s) => subject_fields(*v) == Ok::<Seq<char>, ExtractFailure>(s.digest.sha256@),
                Err(e) => subject_fields(*v) == Err::<Seq<char>, ExtractFailure>(e@),
            },
    {
        match get_member(v, &String::from_str("digest")) {
            Some(d) => match InTotoDigest::from_json(d) {
                Ok(digest) => Ok(InTotoSubject { digest }),
                Err(e) => Err(e),
            },
            None => Err(ExtractError::MissingField(String::from_str("digest"))),
        }
    }

    /// Decodes the subject's hex SHA-256 digest.
    pub fn digest_bytes(&self) -> (r: Result<Vec<u8>, ExtractError>)
        ensures
            match r {
                Ok(d) => hex_decoded(self.digest.sha256@) == Some(d@),
                Err(e) => hex_decoded(self.digest.sha256@) is None
                    && e@ == ExtractFailure::SubjectDigestNotHex(self.digest.sha256@),
            },
    {
        match hex_decode(self.digest.sha256.as_str()) {
            Some(b) => Ok(b),
            None => Err(ExtractError::SubjectDigestNotHex(self.digest.sha256.clone())),
        }
    }
}

/// Decodes the SHA-256 digest of one in-toto subject.
fn digest_of_subject(subject: &JsonValue) -> (r: Result<Vec<u8>, ExtractError>)
    ensures
        match r {
            Ok(d) => subject_digest(*subject) == Ok::<Seq<u8>, ExtractFailure>(d@),
            Err(e) => subject_digest(*subject) == Err::<Seq<u8>, ExtractFailure>(e@),
        },
{
    match InTotoSubject::from_json(subject) {
        Ok(s) => s.digest_bytes(),
        Err(e) => Err(e),
    }
}

/// The digests attested by an in-toto v1 statement, one per subject in the
/// order the statement lists them.
pub fn digests_from_statement(st: &JsonValue) -> (r: Result<Vec<Vec<u8>>, ExtractError>)
    ensures
        digests_view(r) == statement_digests(*st),
{
    let t = match get_str(st, &String::from_str("_type")) {
        Some(t) => t,
        None => return Err(ExtractError::MissingField(String::from_str("_type"))),
    };
    if *t != String::from_str(IN_TOTO_STATEMENT_TYPE) {
        return Err(ExtractError::UnsupportedStatementType(t.clone()));
    }
    let subjects = match get_array(st, &String::from_str("subject")) {
        Some(a) => a,
        None => return Err(ExtractError::MissingField(String::from_str("subject"))),
    };
    let mut out: Vec<Vec<u8>> = Vec::new();
    let mut i: usize = 0;
    assert(subjects@.take(0) =~= Seq::<JsonValue>::empty());
    assert(out@.map_values(|d: Vec<u8>| d@) =~= Seq::<Seq<u8>>::empty());
    while i < subjects.len()
        invariant
            0 <= i <= subjects.len(),
            statement_digests(*st) == subjects_digests(subjects@),
            subjects_digests(subjects@.take(i as int)) == Ok::<Seq<Seq<u8>>, ExtractFailure>(
                out@.map_values(|d: Vec<u8>| d@),
            ),
        decreases subjects.len() - i,
    {
        let ghost prefix = subjects@.take(i as int + 1);
        assert(prefix.drop_last() =~= subjects@.take(i as int));
        assert(prefix.last() == subjects@[i as int]);
        match digest_of_subject(&subjects[i]) {
            Ok(d) => {
                out.push(d);
                assert(out@.map_values(|d: Vec<u8>| d@) =~= 
                    subjects_digests(subjects@.take(i as int))->Ok_0.push(out@.last()@));
            },
            Err(e) => {
                assert(subjects_digests(subjects@) == subjects_digests(subjects@.take(i as int + 1))) by {
                    lemma_subjects_digests_err_prefix(subjects@, i as int + 1);
                }
                return Err(e);
            },
        }
        i = i + 1;
    }
    assert(subjects@.take(i as int) =~= subjects@);
    Ok(out)
}

/// Once a prefix of the subjects fails, the whole list fails the same way.
proof fn lemma_subjects_digests_err_prefix(subjects: Seq<JsonValue>, n: int)
    requires
        0 <= n <= subjects.len(),
        subjects_digests(subjects.take(n)) is Err,
    ensures
        subjects_digests(subjects) == subjects_digests(subjects.take(n)),
    decreases subjects.len() - n,
{
    if n < subjects.len() {
        let longer = subjects.take(n + 1);
        assert(longer.drop_last() =~= subjects.take(n));
        lemma_subjects_digests_err_prefix(subjects, n + 1);
    } else {
        assert(subjects.take(n) =~= subjects);
    }
}

/// The algorithm name and digest text of a message-signature content: the
/// members of its `messageDigest` object.
pub open spec fn message_fields(ms: JsonValue) -> Result<(Seq<char>, Seq<char>), ExtractFailure> {
    match json_get(ms, "messageDigest"@) {
        None => Err(ExtractFailure::MissingField("messageDigest"@)),
        Some(md) => match str_at(md, "algorithm"@) {
            None => Err(ExtractFailure::MissingField("algorithm"@)),
            Some(alg) => match str_at(md, "digest"@) {
                None => Err(ExtractFailure::MissingField("digest"@)),
                Some(text) => Ok((alg, text)),
            },
        },
    }
}

/// The digest a message-signature content attests.
pub open spec fn message_digests(ms: JsonValue) -> Result<Seq<Seq<u8>>, ExtractFailure> {
    match message_fields(ms) {
        Err(e) => Err(e),
        Ok((alg, text)) => if alg != SHA256_ALGORITHM@ {
            Err(ExtractFailure::UnsupportedAlgorithm(alg))
        } else {
            match base64_decoded(text) {
                None => Err(ExtractFailure::DigestNotBase64),
                Some(d) => Ok(seq![d]),
            }
        },
    }
}

/// The digests a DSSE envelope attests: those of the in-toto statement that
/// its base64 payload holds.
pub open spec fn envelope_digests(env: JsonValue) -> Result<Seq<Seq<u8>>, ExtractFailure> {
    match str_at(env, "payloadType"@) {
        None => Err(ExtractFailure::MissingField("payloadType"@)),
        Some(pt) => if pt != IN_TOTO_PAYLOAD_TYPE@ {
            Err(ExtractFailure::UnsupportedPayloadType(pt))
        } else {
            match str_at(env, "payload"@) {
                None => Err(ExtractFailure::MissingField("payload"@)),
                Some(text) => match base64_decoded(text) {
                    None => Err(ExtractFailure::PayloadNotBase64),
                    Some(bytes) => match json_parsed(bytes) {
                        None => Err(ExtractFailure::InvalidPayload),
                        Some(st) => statement_digests(st),
                    },
                },
            }
        },
    }
}

/// Whether a media type is one of the two spellings of Sigstore bundle v0.3.
pub open spec fn accepted_media_type(t: Seq<char>) -> bool {
    t == MEDIA_TYPE@ || t == MEDIA_TYPE_ALT@
}

/// The digests a parsed bundle attests. The media type is checked first; the
/// content is a message signature or, failing that, a DSSE envelope.
pub open spec fn bundle_digests(b: JsonValue) -> Result<Seq<Seq<u8>>, ExtractFailure> {
    match str_at(b, "mediaType"@) {
        None => Err(ExtractFailure::MissingField("mediaType"@)),
        Some(t) => if !accepted_media_type(t) {
            Err(ExtractFailure::UnsupportedMediaType(t))
        } else {
            match json_get(b, "messageSignature"@) {
                Some(ms) => message_digests(ms),
                None => match json_get(b, "dsseEnvelope"@) {
                    Some(env) => envelope_digests(env),
                    None => Err(ExtractFailure::UnknownContent),
                },
            }
        },
    }
}

/// The digests a record line attests.
pub open spec fn record_digests(raw: Seq<u8>) -> Result<Seq<Seq<u8>>, ExtractFailure> {
    match json_parsed(raw) {
        None => Err(ExtractFailure::InvalidJson),
        Some(b) => bundle_digests(b),
    }
}

/// The digest of a message signature: an algorithm name and base64 text.
pub struct BundleMessageDigest {
    pub algorithm: String,
    pub digest: String,
}

impl BundleMessageDigest {
    pub open spec fn view(&self) -> (Seq<char>, Seq<char>) {
        (self.algorithm@, self.digest@)
    }

    /// Reads the `algorithm` and `digest` members.
    pub fn from_json(v: &JsonValue) -> (r: Result<BundleMessageDigest, ExtractError>)
        ensures
            match r {
                Ok(md) => str_at(*v, "algorithm"@) == Some(md.algorithm@) && str_at(*v, "digest"@) == Some(md.digest@),
                Err(e) => match str_at(*v, "algorithm"@) {
                    None => e@ == ExtractFailure::MissingField("algorithm"@),
                    Some(_) => str_at(*v, "digest"@) is None && e@ == ExtractFailure::MissingField("digest"@),
                },
            },
    {
        let algorithm = match get_str(v, &String::from_str("algorithm")) {
            Some(a) => a.clone(),
            None => return Err(ExtractError::MissingField(String::from_str("algorithm"))),
        };
        let digest = match get_str(v, &String::from_str("digest")) {
            Some(d) => d.clone(),
            None => return Err(ExtractError::MissingField(String::from_str("digest"))),
        };
        Ok(BundleMessageDigest { algorithm, digest })
    }

    /// Decodes the digest; only SHA-256 digests are accepted.
    pub fn digest_bytes(&self) -> (r: Result<Vec<u8>, ExtractError>)
        ensures
            match r {
                Ok(d) => self.algorithm@ == SHA256_ALGORITHM@ && base64_decoded(self.digest@) == Some(d@),
                Err(e) => if self.algorithm@ != SHA256_ALGORITHM@ {
                    e@ == ExtractFailure::UnsupportedAlgorithm(self.algorithm@)
                } else {
                    base64_decoded(self.digest@) is None && e@ == ExtractFailure::DigestNotBase64
                },
            },
    {
        if self.algorithm != String::from_str(SHA256_ALGORITHM) {
            return Err(ExtractError::UnsupportedAlgorithm(self.algorithm.clone()));
        }
        match base64_decode(self.digest.as_str()) {
            Some(d) => Ok(d),
            None => Err(ExtractError::DigestNotBase64),
        }
    }
}

/// The message-signature content of a bundle.
pub struct BundleMessageSignature {
    pub message_digest: BundleMessageDigest,
}

impl BundleMessageSignature {
    /// Reads the `messageDigest` member.
    pub fn from_json(v: &JsonValue) -> (r: Result<BundleMessageSignature, ExtractError>)
        ensures
            match r {
                Ok(ms) => message_fields(*v) == Ok::<(Seq<char>, Seq<char>), ExtractFailure>(ms.message_digest@),
                Err(e) => message_fields(*v) == Err::<(Seq<char>, Seq<char>), ExtractFailure>(e@),
            },
    {
        match get_member(v, &String::from_str("messageDigest")) {
            Some(md) => match BundleMessageDigest::from_json(md) {
                Ok(message_digest) => Ok(BundleMessageSignature { message_digest }),
                Err(e) => Err(e),
            },
            None => Err(ExtractError::MissingField(String::from_str("messageDigest"))),
        }
    }
}

/// Decodes the digest of a message-signature content.
fn digests_from_message(ms: &JsonValue) -> (r: Result<Vec<Vec<u8>>, ExtractError>)
    ensures
        digests_view(r) == message_digests(*ms),
{
    let sig = match BundleMessageSignature::from_json(ms) {
        Ok(sig) => sig,
        Err(e) => return Err(e),
    };
    match sig.message_digest.digest_bytes() {
        Ok(d) => {
            let out = vec![d];
            assert(out@.map_values(|d: Vec<u8>| d@) =~= seq![out@[0]@]);
            Ok(out)
        },
        Err(e) => Err(e),
    }
}

/// Decodes the digests of a DSSE envelope's in-toto payload.
fn digests_from_envelope(env: &JsonValue) -> (r: Result<Vec<Vec<u8>>, ExtractError>)
    ensures
        digests_view(r) == envelope_digests(*env),
{
    let pt = match get_str(env, &String::from_str("payloadType")) {
        Some(p) => p,
        None => return Err(ExtractError::MissingField(String::from_str("payloadType"))),
    };
    if *pt != String::from_str(IN_TOTO_PAYLOAD_TYPE) {
        return Err(ExtractError::UnsupportedPayloadType(pt.clone()));
    }
    let text = match get_str(env, &String::from_str("payload")) {
        Some(t) => t,
        None => return Err(ExtractError::MissingField(String::from_str("payload"))),
    };
    let bytes = match base64_decode(text.as_str()) {
        Some(b) => b,
        None => return Err(ExtractError::PayloadNotBase64),
    };
    match parse_json(bytes.as_slice()) {
        Some(st) => digests_from_statement(&st),
        None => Err(ExtractError::InvalidPayload),
    }
}

/// The digests attested by a parsed Sigstore bundle.
pub fn digests_from_bundle(b: &JsonValue) -> (r: Result<Vec<Vec<u8>>, ExtractError>)
    ensures
        digests_view(r) == bundle_digests(*b),
{
    let t = match get_str(b, &String::from_str("mediaType")) {
        Some(t) => t,
        None => return Err(ExtractError::MissingField(String::from_str("mediaType"))),
    };
    if *t != String::from_str(MEDIA_TYPE) && *t != String::from_str(MEDIA_TYPE_ALT) {
        return Err(ExtractError::UnsupportedMediaType(t.clone()));
    }
    match get_member(b, &String::from_str("messageSignature")) {
        Some(ms) => digests_from_message(ms),
        None => match get_member(b, &String::from_str("dsseEnvelope")) {
            Some(env) => digests_from_envelope(env),
            None => Err(ExtractError::UnknownContent),
        },
    }
}

/// The digests attested by one record line: a JSON-encoded Sigstore bundle.
pub fn hashes_from_sigstore_bundle(raw: &[u8]) -> (r: Result<Vec<Vec<u8>>, ExtractError>)
    ensures
        digests_view(r) == record_digests(raw@),
{
    match parse_json(raw) {
        Some(b) => digests_from_bundle(&b),
        None => Err(ExtractError::InvalidJson),
    }
}

/// An in-toto v1 statement whose one subject carries the lower-case hex text
/// of the SHA-256 digest of `data` yields exactly that digest.
pub proof fn lemma_statement_digest_round_trip(st: JsonValue, subject: JsonValue, digest: JsonValue, data: Seq<u8>)
    requires
        str_at(st, "_type"@) == Some(IN_TOTO_STATEMENT_TYPE@),
        array_at(st, "subject"@) == Some(seq![subject]),
        json_get(subject, "digest"@) == Some(digest),
        str_at(digest, "sha256"@) == Some(hex_encoded(sha256_of(data))),
    ensures
        statement_digests(st) == Ok::<Seq<Seq<u8>>, ExtractFailure>(seq![sha256_of(data)]),
{
    lemma_hex_round_trip(sha256_of(data));
    let subjects = seq![subject];
    assert(subjects.drop_last() =~= Seq::<JsonValue>::empty());
    assert(subjects_digests(Seq::<JsonValue>::empty()) == Ok::<Seq<Seq<u8>>, ExtractFailure>(Seq::empty()));
    assert(subject_digest(subject) == Ok::<Seq<u8>, ExtractFailure>(sha256_of(data)));
    assert(Seq::<Seq<u8>>::empty().push(sha256_of(data)) =~= seq![sha256_of(data)]);
}

} // verus!
