use base64::Engine;
use prepare_artifacts::pending::PendingSet;
use prepare_artifacts::{reconcile, Artifact, Companion, ExtractError, ReconcileError};
use sha2::Digest;

const MEDIA_TYPE: &str = "application/vnd.dev.sigstore.bundle+json;version=0.3";

fn b64(bytes: &[u8]) -> String {
    base64::engine::general_purpose::STANDARD.encode(bytes)
}

fn sha(bytes: &[u8]) -> Vec<u8> {
    sha2::Sha256::digest(bytes).to_vec()
}

fn artifact(name: &str, contents: &[u8]) -> Artifact {
    Artifact { file_name: name.to_string(), contents: contents.to_vec() }
}

fn message_record(contents: &[u8]) -> String {
    format!(
        r#"{{"mediaType":"{}","messageSignature":{{"messageDigest":{{"algorithm":"SHA2_256","digest":"{}"}}}}}}"#,
        MEDIA_TYPE,
        b64(&sha(contents))
    )
}

fn envelope_record(contents: &[&[u8]]) -> String {
    let subjects: Vec<String> = contents
        .iter()
        .map(|c| format!(r#"{{"name":"x","digest":{{"sha256":"{}"}}}}"#, hex::encode(sha(c))))
        .collect();
    let st = format!(
        r#"{{"_type":"https://in-toto.io/Statement/v1","subject":[{}]}}"#,
        subjects.join(",")
    );
    format!(
        r#"{{"mediaType":"{}","dsseEnvelope":{{"payload":"{}","payloadType":"application/vnd.in-toto+json"}}}}"#,
        MEDIA_TYPE,
        b64(st.as_bytes())
    )
}

fn pairs(companions: &[Companion]) -> Vec<(String, Vec<u8>)> {
    companions.iter().map(|c| (c.file_name.clone(), c.contents.clone())).collect()
}

#[test]
fn no_attestations_stage_no_companions() {
    let arts = vec![artifact("a.zip", b"one"), artifact("b.zip", b"two")];
    assert!(reconcile(&arts, None).unwrap().is_empty());
}

#[test]
fn one_message_record_per_artifact() {
    let arts = vec![artifact("a.zip", b"one"), artifact("b.zip", b"two"), artifact("c.zip", b"three")];
    let lines = [message_record(b"one"), message_record(b"two"), message_record(b"three")];
    let blob = format!("{}\n{}\n{}\n", lines[0], lines[1], lines[2]);
    let got = reconcile(&arts, Some(blob.as_bytes())).unwrap();
    assert_eq!(
        pairs(&got),
        vec![
            ("a.zip.sigstore.json".to_string(), lines[0].as_bytes().to_vec()),
            ("b.zip.sigstore.json".to_string(), lines[1].as_bytes().to_vec()),
            ("c.zip.sigstore.json".to_string(), lines[2].as_bytes().to_vec()),
        ]
    );
}

#[test]
fn one_envelope_record_attests_many_artifacts() {
    let arts = vec![artifact("a.zip", b"one"), artifact("b.zip", b"two"), artifact("c.zip", b"three")];
    let line = envelope_record(&[b"one", b"two", b"three"]);
    let got = reconcile(&arts, Some(line.as_bytes())).unwrap();
    assert_eq!(
        pairs(&got),
        vec![
            ("a.zip.sigstore.json".to_string(), line.as_bytes().to_vec()),
            ("b.zip.sigstore.json".to_string(), line.as_bytes().to_vec()),
            ("c.zip.sigstore.json".to_string(), line.as_bytes().to_vec()),
        ]
    );
}

#[test]
fn missing_record_names_the_unattested_artifact() {
    let arts = vec![artifact("a.zip", b"one"), artifact("b.zip", b"two"), artifact("c.zip", b"three")];
    let blob = format!("{}\n{}\n", message_record(b"one"), message_record(b"three"));
    match reconcile(&arts, Some(blob.as_bytes())) {
        Err(ReconcileError::Unattested(names)) => assert_eq!(names, vec!["b.zip".to_string()]),
        other => panic!("unexpected: {:?}", other),
    }
}

#[test]
fn unknown_media_type_aborts_the_run() {
    let arts = vec![artifact("a.zip", b"one")];
    let bad = format!(
        r#"{{"mediaType":"application/vnd.dev.sigstore.bundle+json;version=9.9","messageSignature":{{}}}}"#
    );
    let blob = format!("{}\n{}\n", message_record(b"one"), bad);
    match reconcile(&arts, Some(blob.as_bytes())) {
        Err(ReconcileError::InvalidRecord(line, ExtractError::UnsupportedMediaType(t))) => {
            assert_eq!(line, bad.as_bytes().to_vec());
            assert_eq!(t, "application/vnd.dev.sigstore.bundle+json;version=9.9");
        }
        other => panic!("unexpected: {:?}", other),
    }
}

#[test]
fn two_artifacts_end_to_end() {
    let arts = vec![artifact("a.bin", b"A"), artifact("b.bin", b"B")];
    let line1 = message_record(b"A");
    let line2 = envelope_record(&[b"B"]);
    let blob = format!("{}\n{}", line1, line2);
    let got = reconcile(&arts, Some(blob.as_bytes())).unwrap();
    assert_eq!(
        pairs(&got),
        vec![
            ("a.bin.sigstore.json".to_string(), line1.as_bytes().to_vec()),
            ("b.bin.sigstore.json".to_string(), line2.as_bytes().to_vec()),
        ]
    );
}

#[test]
fn blank_lines_are_skipped_and_lines_kept_verbatim() {
    let arts = vec![artifact("a.bin", b"A")];
    let line = format!("  {}\r", message_record(b"A"));
    let blob = format!("\n \t\n{}\n\n", line);
    let got = reconcile(&arts, Some(blob.as_bytes())).unwrap();
    assert_eq!(pairs(&got), vec![("a.bin.sigstore.json".to_string(), line.as_bytes().to_vec())]);
}

#[test]
fn unrelated_and_repeated_digests_are_passed_over() {
    let arts = vec![artifact("a.bin", b"A")];
    let first = envelope_record(&[b"elsewhere", b"A"]);
    let second = message_record(b"A");
    let blob = format!("{}\n{}\n", first, second);
    let got = reconcile(&arts, Some(blob.as_bytes())).unwrap();
    assert_eq!(pairs(&got), vec![("a.bin.sigstore.json".to_string(), first.as_bytes().to_vec())]);
}

#[test]
fn empty_attestation_input_leaves_everything_unattested() {
    let arts = vec![artifact("a.bin", b"A")];
    match reconcile(&arts, Some(b"")) {
        Err(ReconcileError::Unattested(names)) => assert_eq!(names, vec!["a.bin".to_string()]),
        other => panic!("unexpected: {:?}", other),
    }
}

#[test]
fn pending_set_replaces_and_removes() {
    let mut p = PendingSet::new();
    p.insert(vec![1, 2], "a".to_string());
    p.insert(vec![3], "b".to_string());
    p.insert(vec![1, 2], "c".to_string());
    assert_eq!(p.names().len(), 2);
    assert_eq!(p.remove(&vec![1, 2]), Some("c".to_string()));
    assert_eq!(p.remove(&vec![1, 2]), None);
    assert!(!p.is_empty());
    assert_eq!(p.remove(&vec![3]), Some("b".to_string()));
    assert!(p.is_empty());
}

#[test]
fn identical_contents_keep_the_later_name() {
    let arts = vec![artifact("a.bin", b"same"), artifact("b.bin", b"same")];
    let line = message_record(b"same");
    let got = reconcile(&arts, Some(line.as_bytes())).unwrap();
    assert_eq!(pairs(&got), vec![("b.bin.sigstore.json".to_string(), line.as_bytes().to_vec())]);
}
