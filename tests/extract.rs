use base64::Engine;
use prepare_artifacts::{hashes_from_sigstore_bundle, ExtractError};
use sha2::Digest;

const MEDIA_TYPE: &str = "application/vnd.dev.sigstore.bundle+json;version=0.3";

fn b64(bytes: &[u8]) -> String {
    base64::engine::general_purpose::STANDARD.encode(bytes)
}

fn sha(bytes: &[u8]) -> Vec<u8> {
    sha2::Sha256::digest(bytes).to_vec()
}

fn message_record(media_type: &str, algorithm: &str, digest: &str) -> String {
    format!(
        r#"{{"mediaType":"{}","verificationMaterial":{{}},"messageSignature":{{"messageDigest":{{"algorithm":"{}","digest":"{}"}},"signature":"c2ln"}}}}"#,
        media_type, algorithm, digest
    )
}

fn statement(statement_type: &str, hex_digests: &[String]) -> String {
    let subjects: Vec<String> = hex_digests
        .iter()
        .enumerate()
        .map(|(i, h)| format!(r#"{{"name":"s{}","digest":{{"sha256":"{}"}}}}"#, i, h))
        .collect();
    format!(
        r#"{{"_type":"{}","subject":[{}],"predicateType":"https://slsa.dev/provenance/v1"}}"#,
        statement_type,
        subjects.join(",")
    )
}

fn envelope_record(payload_type: &str, payload: &str) -> String {
    format!(
        r#"{{"mediaType":"{}","dsseEnvelope":{{"payload":"{}","payloadType":"{}","signatures":[]}}}}"#,
        MEDIA_TYPE, payload, payload_type
    )
}

#[test]
fn message_signature_yields_its_digest() {
    let d = sha(b"A");
    let rec = message_record(MEDIA_TYPE, "SHA2_256", &b64(&d));
    assert_eq!(hashes_from_sigstore_bundle(rec.as_bytes()).unwrap(), vec![d]);
}

#[test]
fn alternate_media_type_is_accepted() {
    let d = sha(b"x");
    let rec = message_record("application/vnd.dev.sigstore.bundle.v0.3+json", "SHA2_256", &b64(&d));
    assert_eq!(hashes_from_sigstore_bundle(rec.as_bytes()).unwrap(), vec![d]);
}

#[test]
fn unknown_media_type_is_named() {
    let rec = message_record("application/vnd.dev.sigstore.bundle+json;version=9.9", "SHA2_256", "!!!");
    match hashes_from_sigstore_bundle(rec.as_bytes()) {
        Err(ExtractError::UnsupportedMediaType(t)) => {
            assert_eq!(t, "application/vnd.dev.sigstore.bundle+json;version=9.9")
        }
        other => panic!("unexpected: {:?}", other),
    }
}

#[test]
fn other_algorithm_is_refused() {
    let rec = message_record(MEDIA_TYPE, "SHA2_512", &b64(b"abc"));
    match hashes_from_sigstore_bundle(rec.as_bytes()) {
        Err(ExtractError::UnsupportedAlgorithm(a)) => assert_eq!(a, "SHA2_512"),
        other => panic!("unexpected: {:?}", other),
    }
}

#[test]
fn bad_base64_digest_is_refused() {
    let rec = message_record(MEDIA_TYPE, "SHA2_256", "not base64!");
    assert!(matches!(
        hashes_from_sigstore_bundle(rec.as_bytes()),
        Err(ExtractError::DigestNotBase64)
    ));
}

#[test]
fn envelope_yields_every_subject() {
    let da = sha(b"A");
    let db = sha(b"B");
    let st = statement("https://in-toto.io/Statement/v1", &[hex::encode(&da), hex::encode(&db)]);
    let rec = envelope_record("application/vnd.in-toto+json", &b64(st.as_bytes()));
    assert_eq!(hashes_from_sigstore_bundle(rec.as_bytes()).unwrap(), vec![da, db]);
}

#[test]
fn subject_digest_round_trips_through_hex() {
    let buf = b"some build output bytes";
    let d = sha(buf);
    let st = statement("https://in-toto.io/Statement/v1", &[hex::encode(&d)]);
    let rec = envelope_record("application/vnd.in-toto+json", &b64(st.as_bytes()));
    let got = hashes_from_sigstore_bundle(rec.as_bytes()).unwrap();
    assert_eq!(got, vec![sha(buf)]);
    assert_eq!(got[0].len(), 32);
}

#[test]
fn upper_case_hex_is_accepted() {
    let st = statement("https://in-toto.io/Statement/v1", &["0A1b".to_string()]);
    let rec = envelope_record("application/vnd.in-toto+json", &b64(st.as_bytes()));
    assert_eq!(hashes_from_sigstore_bundle(rec.as_bytes()).unwrap(), vec![vec![0x0a, 0x1b]]);
}

#[test]
fn bad_hex_subject_is_refused() {
    let st = statement("https://in-toto.io/Statement/v1", &["abc".to_string()]);
    let rec = envelope_record("application/vnd.in-toto+json", &b64(st.as_bytes()));
    match hashes_from_sigstore_bundle(rec.as_bytes()) {
        Err(ExtractError::SubjectDigestNotHex(h)) => assert_eq!(h, "abc"),
        other => panic!("unexpected: {:?}", other),
    }
}

#[test]
fn other_payload_type_is_refused() {
    let rec = envelope_record("text/plain", &b64(b"{}"));
    match hashes_from_sigstore_bundle(rec.as_bytes()) {
        Err(ExtractError::UnsupportedPayloadType(t)) => assert_eq!(t, "text/plain"),
        other => panic!("unexpected: {:?}", other),
    }
}

#[test]
fn bad_base64_payload_is_refused() {
    let rec = envelope_record("application/vnd.in-toto+json", "%%%");
    assert!(matches!(
        hashes_from_sigstore_bundle(rec.as_bytes()),
        Err(ExtractError::PayloadNotBase64)
    ));
}

#[test]
fn payload_that_is_not_json_is_refused() {
    let rec = envelope_record("application/vnd.in-toto+json", &b64(b"not json"));
    assert!(matches!(
        hashes_from_sigstore_bundle(rec.as_bytes()),
        Err(ExtractError::InvalidPayload)
    ));
}

#[test]
fn other_statement_type_is_refused() {
    let st = statement("https://in-toto.io/Statement/v0.1", &[]);
    let rec = envelope_record("application/vnd.in-toto+json", &b64(st.as_bytes()));
    match hashes_from_sigstore_bundle(rec.as_bytes()) {
        Err(ExtractError::UnsupportedStatementType(t)) => {
            assert_eq!(t, "https://in-toto.io/Statement/v0.1")
        }
        other => panic!("unexpected: {:?}", other),
    }
}

#[test]
fn record_that_is_not_json_is_refused() {
    assert!(matches!(
        hashes_from_sigstore_bundle(b"{not json"),
        Err(ExtractError::InvalidJson)
    ));
}

#[test]
fn missing_media_type_is_named() {
    match hashes_from_sigstore_bundle(br#"{"messageSignature":{}}"#) {
        Err(ExtractError::MissingField(f)) => assert_eq!(f, "mediaType"),
        other => panic!("unexpected: {:?}", other),
    }
}

#[test]
fn missing_digest_member_is_named() {
    let rec = format!(
        r#"{{"mediaType":"{}","messageSignature":{{"messageDigest":{{"algorithm":"SHA2_256"}}}}}}"#,
        MEDIA_TYPE
    );
    match hashes_from_sigstore_bundle(rec.as_bytes()) {
        Err(ExtractError::MissingField(f)) => assert_eq!(f, "digest"),
        other => panic!("unexpected: {:?}", other),
    }
}

#[test]
fn bundle_without_content_is_refused() {
    let rec = format!(r#"{{"mediaType":"{}","verificationMaterial":{{}}}}"#, MEDIA_TYPE);
    assert!(matches!(
        hashes_from_sigstore_bundle(rec.as_bytes()),
        Err(ExtractError::UnknownContent)
    ));
}
