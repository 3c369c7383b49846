//! Pairs artifacts with the record lines that attest them.
use crate::codec::{sha256_digest, sha256_of};
use crate::extract::{digests_view, hashes_from_sigstore_bundle, record_digests, ExtractError, ExtractFailure};
use crate::pending::PendingSet;
use vstd::prelude::*;
use vstd::slice::{slice_subrange, slice_to_vec};
use vstd::string::StringExecFns;

verus! {

/// A build output: the name it is staged under and its bytes.
pub struct Artifact {
    pub file_name: String,
    pub contents: Vec<u8>,
}

impl Artifact {
    pub open spec fn view(&self) -> (Seq<char>, Seq<u8>) {
        (self.file_name@, self.contents@)
    }
}

/// A file staged beside an artifact: the record line that attests it.
#[derive(Debug)]
pub struct Companion {
    pub file_name: String,
    pub contents: Vec<u8>,
}

impl Companion {
    pub open spec fn view(&self) -> (Seq<char>, Seq<u8>) {
        (self.file_name@, self.contents@)
    }
}

/// Why a run fails.
#[derive(Debug)]
pub enum ReconcileError {
    /// A record line could not be read; holds the line and the reason.
    InvalidRecord(Vec<u8>, ExtractError),
    /// Some artifacts were attested by no record; holds their names.
    Unattested(Vec<String>),
}

/// The content of a `ReconcileError` as plain values.
pub enum ReconcileFailure {
    InvalidRecord(Seq<u8>, ExtractFailure),
    Unattested(Set<Seq<char>>),
}

impl View for ReconcileError {
    type V = ReconcileFailure;

    open spec fn view(&self) -> ReconcileFailure {
        match self {
            ReconcileError::InvalidRecord(line, e) => ReconcileFailure::InvalidRecord(line@, e@),
            ReconcileError::Unattested(names) => ReconcileFailure::Unattested(
                names@.map_values(|s: String| s@).to_set(),
            ),
        }
    }
}

pub const COMPANION_SUFFIX: &'static str = ".sigstore.json";

/// The name of the file that holds an artifact's attestation.
pub open spec fn companion_name(file_name: Seq<char>) -> Seq<char> {
    file_name + COMPANION_SUFFIX@
}

/// The pending mapping for a list of artifacts: digest to file name, where a
/// later artifact with the same digest takes the place of an earlier one.
pub open spec fn pending_of(arts: Seq<(Seq<char>, Seq<u8>)>) -> Map<Seq<u8>, Seq<char>>
    decreases arts.len(),
{
    if arts.len() == 0 {
        Map::empty()
    } else {
        pending_of(arts.drop_last()).insert(sha256_of(arts.last().1), arts.last().0)
    }
}

/// What is pending and what has been staged so far.
pub type Progress = (Map<Seq<u8>, Seq<char>>, Seq<(Seq<char>, Seq<u8>)>);

/// Matches the digests of one record line, in order: each pending digest is
/// taken out and its artifact gets the line as companion; other digests are
/// passed over.
pub open spec fn claim(st: Progress, digests: Seq<Seq<u8>>, line: Seq<u8>) -> Progress
    decreases digests.len(),
{
    if digests.len() == 0 {
        st
    } else {
        let prev = claim(st, digests.drop_last(), line);
        let d = digests.last();
        if prev.0.contains_key(d) {
            (prev.0.remove(d), prev.1.push((companion_name(prev.0[d]), line)))
        } else {
            prev
        }
    }
}

/// Whether a line holds ASCII whitespace only.
pub open spec fn is_blank(line: Seq<u8>) -> bool {
    forall|i: int| 0 <= i < line.len() ==> (9 <= #[trigger] line[i] <= 13 || line[i] == 32)
}

/// One record line applied to the progress: blank lines are skipped.
pub open spec fn step(st: Progress, line: Seq<u8>) -> Result<Progress, ReconcileFailure> {
    if is_blank(line) {
        Ok(st)
    } else {
        match record_digests(line) {
            Err(e) => Err(ReconcileFailure::InvalidRecord(line, e)),
            Ok(ds) => Ok(claim(st, ds, line)),
        }
    }
}

/// The record lines applied in order; the first bad line ends the run.
pub open spec fn run_lines(st: Progress, lines: Seq<Seq<u8>>) -> Result<Progress, ReconcileFailure>
    decreases lines.len(),
{
    if lines.len() == 0 {
        Ok(st)
    } else {
        match run_lines(st, lines.drop_last()) {
            Err(e) => Err(e),
            Ok(prev) => step(prev, lines.last()),
        }
    }
}

/// The lines of `s` after `cur`, split at each newline byte.
pub open spec fn lines_from(s: Seq<u8>, cur: Seq<u8>) -> Seq<Seq<u8>>
    decreases s.len(),
{
    if s.len() == 0 {
        seq![cur]
    } else if s[0] == 10 {
        seq![cur] + lines_from(s.drop_first(), Seq::empty())
    } else {
        lines_from(s.drop_first(), cur.push(s[0]))
    }
}

/// The newline-separated lines of a text, the last one included even when
/// empty.
pub open spec fn split_lines(s: Seq<u8>) -> Seq<Seq<u8>> {
    lines_from(s, Seq::empty())
}

/// The companions a run stages, or why it fails. Without attestation input
/// nothing is matched; with it, every artifact must end up matched.
pub open spec fn reconcile_outcome(arts: Seq<(Seq<char>, Seq<u8>)>, attestations: Option<Seq<u8>>) -> Result<Seq<(Seq<char>, Seq<u8>)>, ReconcileFailure> {
    match attestations {
        None => Ok(Seq::empty()),
        Some(blob) => match run_lines((pending_of(arts), Seq::empty()), split_lines(blob)) {
            Err(e) => Err(e),
            Ok(done) => if done.0.dom() == Set::<Seq<u8>>::empty() {
                Ok(done.1)
            } else {
                Err(ReconcileFailure::Unattested(done.0.values()))
            },
        },
    }
}

/// Companions as plain values.
pub open spec fn companions_view(v: Seq<Companion>) -> Seq<(Seq<char>, Seq<u8>)> {
    v.map_values(|c: Companion| c@)
}

/// Artifacts as plain values.
pub open spec fn artifacts_view(v: Seq<Artifact>) -> Seq<(Seq<char>, Seq<u8>)> {
    v.map_values(|a: Artifact| a@)
}

/// The outcome of a run as plain values.
pub open spec fn outcome_view(r: Result<Vec<Companion>, ReconcileError>) -> Result<Seq<(Seq<char>, Seq<u8>)>, ReconcileFailure> {
    match r {
        Ok(v) => Ok(companions_view(v@)),
        Err(e) => Err(e@),
    }
}

/// Builds the pending set of a list of artifacts from their SHA-256 digests.
pub fn pending_from_artifacts(artifacts: &Vec<Artifact>) -> (r: PendingSet)
    ensures
        r.wf(),
        r.view() == pending_of(artifacts_view(artifacts@)),
{
    let ghost arts = artifacts_view(artifacts@);
    let mut pending = PendingSet::new();
    let mut i: usize = 0;
    assert(arts.take(0) =~= Seq::<(Seq<char>, Seq<u8>)>::empty());
    while i < artifacts.len()
        invariant
            0 <= i <= artifacts.len(),
            arts == artifacts_view(artifacts@),
            pending.wf(),
            pending.view() == pending_of(arts.take(i as int)),
        decreases artifacts.len() - i,
    {
        let a = &artifacts[i];
        let digest = sha256_digest(a.contents.as_slice());
        pending.insert(digest, a.file_name.clone());
        assert(arts.take(i as int + 1).drop_last() =~= arts.take(i as int));
        i = i + 1;
    }
    assert(arts.take(i as int) =~= arts);
    pending
}

/// Matches the digests of one record line against the pending set, staging
/// the line beside each artifact it attests.
fn claim_digests(
    pending: &mut PendingSet,
    out: &mut Vec<Companion>,
    digests: &Vec<Vec<u8>>,
    line: &[u8],
)
    requires
        old(pending).wf(),
    ensures
        final(pending).wf(),
        (final(pending).view(), companions_view(final(out)@)) == claim(
            (old(pending).view(), companions_view(old(out)@)),
            digests@.map_values(|d: Vec<u8>| d@),
            line@,
        ),
{
    let ghost start: Progress = (pending.view(), companions_view(out@));
    let ghost ds = digests@.map_values(|d: Vec<u8>| d@);
    let mut j: usize = 0;
    assert(ds.take(0) =~= Seq::<Seq<u8>>::empty());
    while j < digests.len()
        invariant
            0 <= j <= digests.len(),
            ds == digests@.map_values(|d: Vec<u8>| d@),
            pending.wf(),
            (pending.view(), companions_view(out@)) == claim(start, ds.take(j as int), line@),
        decreases digests.len() - j,
    {
        assert(ds.take(j as int + 1).drop_last() =~= ds.take(j as int));
        assert(ds.take(j as int + 1).last() == digests@[j as int]@);
        let ghost before = pending.view();
        let ghost staged = companions_view(out@);
        match pending.remove(&digests[j]) {
            Some(name) => {
                let c = Companion {
                    file_name: name.concat(COMPANION_SUFFIX),
                    contents: slice_to_vec(line),
                };
                out.push(c);
                assert(companions_view(out@) =~= staged.push(c@));
            },
            None => {
                assert(pending.view() =~= before);
            },
        }
        j = j + 1;
    }
    assert(ds.take(j as int) =~= ds);
}

/// Whether a line holds ASCII whitespace only.
fn blank(line: &[u8]) -> (r: bool)
    ensures
        r == is_blank(line@),
{
    let mut i: usize = 0;
    while i < line.len()
        invariant
            0 <= i <= line.len(),
            forall|k: int| 0 <= k < i ==> (9 <= #[trigger] line@[k] <= 13 || line@[k] == 32),
        decreases line.len() - i,
    {
        let b = line[i];
        if !((9 <= b && b <= 13) || b == 32) {
            return false;
        }
        i = i + 1;
    }
    true
}

/// Applies one record line: skips it when blank, else matches its digests.
fn apply_line(pending: &mut PendingSet, out: &mut Vec<Companion>, line: &[u8]) -> (r: Result<(), ReconcileError>)
    requires
        old(pending).wf(),
    ensures
        final(pending).wf(),
        match step((old(pending).view(), companions_view(old(out)@)), line@) {
            Ok(st) => r is Ok && (final(pending).view(), companions_view(final(out)@)) == st,
            Err(e) => r is Err && r->Err_0@ == e,
        },
{
    if blank(line) {
        return Ok(());
    }
    match hashes_from_sigstore_bundle(line) {
        Ok(digests) => {
            claim_digests(pending, out, &digests, line);
            Ok(())
        },
        Err(e) => Err(ReconcileError::InvalidRecord(slice_to_vec(line), e)),
    }
}

/// Once a prefix of the lines fails, the whole run fails the same way.
proof fn lemma_run_lines_err_prefix(st: Progress, lines: Seq<Seq<u8>>, n: int)
    requires
        0 <= n <= lines.len(),
        run_lines(st, lines.take(n)) is Err,
    ensures
        run_lines(st, lines) == run_lines(st, lines.take(n)),
    decreases lines.len() - n,
{
    if n < lines.len() {
        assert(lines.take(n + 1).drop_last() =~= lines.take(n));
        lemma_run_lines_err_prefix(st, lines, n + 1);
    } else {
        assert(lines.take(n) =~= lines);
    }
}

/// Stages the attestation companions of `artifacts`.
///
/// Each artifact is known by the SHA-256 digest of its contents. Without
/// attestation input nothing is matched and no companion is staged. With it,
/// the input is split into lines; blank lines are skipped, every other line
/// must be a Sigstore bundle, and each digest it attests that is still
/// pending gets the line, byte for byte, as its companion. The run fails at
/// the first unreadable line, and at the end when some artifact is left
/// without an attestation.
pub fn reconcile(artifacts: &Vec<Artifact>, attestations: Option<&[u8]>) -> (r: Result<Vec<Companion>, ReconcileError>)
    ensures
        outcome_view(r) == reconcile_outcome(
            artifacts_view(artifacts@),
            match attestations {
                Some(b) => Some(b@),
                None => None,
            },
        ),
{
    let mut pending = pending_from_artifacts(artifacts);
    let blob = match attestations {
        None => {
            let none: Vec<Companion> = Vec::new();
            assert(companions_view(none@) =~= Seq::<(Seq<char>, Seq<u8>)>::empty());
            return Ok(none);
        },
        Some(b) => b,
    };
    let mut out: Vec<Companion> = Vec::new();
    let ghost lines = split_lines(blob@);
    let ghost init: Progress = (pending.view(), Seq::empty());
    let ghost mut done: Seq<Seq<u8>> = Seq::empty();
    let mut start: usize = 0;
    let mut i: usize = 0;
    assert(companions_view(out@) =~= Seq::<(Seq<char>, Seq<u8>)>::empty());
    assert(blob@.skip(0) =~= blob@);
    assert(blob@.subrange(0, 0) =~= Seq::<u8>::empty());
    assert(done + lines =~= lines);
    while i < blob.len()
        invariant
            0 <= start <= i <= blob.len(),
            pending.wf(),
            lines == split_lines(blob@),
            attestations == Some(blob),
            init == (pending_of(artifacts_view(artifacts@)), Seq::<(Seq<char>, Seq<u8>)>::empty()),
            done + lines_from(blob@.skip(i as int), blob@.subrange(start as int, i as int)) == lines,
            run_lines(init, done) == Ok::<Progress, ReconcileFailure>((pending.view(), companions_view(out@))),
        decreases blob.len() - i,
    {
        let ghost cur = blob@.subrange(start as int, i as int);
        assert(blob@.skip(i as int).drop_first() =~= blob@.skip(i as int + 1));
        assert(blob@.skip(i as int)[0] == blob@[i as int]);
        if blob[i] == 10 {
            let line = slice_subrange(blob, start, i);
            assert(lines_from(blob@.skip(i as int), cur) == seq![cur] + lines_from(blob@.skip(i as int + 1), Seq::empty()));
            assert(done.push(cur).drop_last() =~= done);
            let ghost n: int = done.len() as int + 1;
            assert(lines.take(n) =~= done.push(cur)) by {
                assert(lines =~= done.push(cur) + lines_from(blob@.skip(i as int + 1), Seq::empty()));
            }
            let ghost prev: Progress = (pending.view(), companions_view(out@));
            match apply_line(&mut pending, &mut out, line) {
                Err(e) => {
                    proof {
                        assert(run_lines(init, done.push(cur)) == step(prev, cur));
                        lemma_run_lines_err_prefix(init, lines, n);
                    }
                    return Err(e);
                },
                Ok(()) => {},
            }
            proof {
                assert(done + seq![cur] =~= done.push(cur));
                done = done.push(cur);
                assert(blob@.subrange(i as int + 1, i as int + 1) =~= Seq::<u8>::empty());
            }
            start = i + 1;
        } else {
            assert(cur.push(blob@[i as int]) =~= blob@.subrange(start as int, i as int + 1));
        }
        i = i + 1;
    }
    let line = slice_subrange(blob, start, i);
    proof {
        let cur = blob@.subrange(start as int, i as int);
        assert(blob@.skip(i as int) =~= Seq::<u8>::empty());
        assert(lines =~= done.push(cur));
        assert(lines.drop_last() =~= done);
    }
    match apply_line(&mut pending, &mut out, line) {
        Err(e) => return Err(e),
        Ok(()) => {},
    }
    if pending.is_empty() {
        Ok(out)
    } else {
        Err(ReconcileError::Unattested(pending.names()))
    }
}

/// Without attestation input a run succeeds and stages no companion.
pub proof fn lemma_no_attestations_stage_nothing(arts: Seq<(Seq<char>, Seq<u8>)>)
    ensures
        reconcile_outcome(arts, None) == Ok::<Seq<(Seq<char>, Seq<u8>)>, ReconcileFailure>(Seq::empty()),
{
}

/// One record attesting several distinct pending digests matches all of them:
/// each leaves the pending mapping and gets the line as its companion, in the
/// order the record lists them.
pub proof fn lemma_one_record_many_artifacts(st: Progress, digests: Seq<Seq<u8>>, line: Seq<u8>)
    requires
        digests.no_duplicates(),
        forall|i: int| 0 <= i < digests.len() ==> st.0.contains_key(#[trigger] digests[i]),
    ensures
        claim(st, digests, line).0 == st.0.remove_keys(digests.to_set()),
        claim(st, digests, line).1 == st.1 + Seq::new(
            digests.len(),
            |i: int| (companion_name(st.0[digests[i]]), line),
        ),
    decreases digests.len(),
{
    if digests.len() == 0 {
        assert(st.0.remove_keys(digests.to_set()) =~= st.0);
        assert(st.1 + Seq::new(0, |i: int| (companion_name(st.0[digests[i]]), line)) =~= st.1);
    } else {
        let init = digests.drop_last();
        let d = digests.last();
        assert forall|i: int| 0 <= i < init.len() implies st.0.contains_key(#[trigger] init[i]) by {
            assert(init[i] == digests[i]);
        }
        lemma_one_record_many_artifacts(st, init, line);
        let prev = claim(st, init, line);
        assert(!init.to_set().contains(d)) by {
            if init.to_set().contains(d) {
                let j = choose|j: int| 0 <= j < init.len() && init[j] == d;
                assert(digests[j] == digests[digests.len() - 1]);
            }
        }
        assert(st.0.contains_key(digests[digests.len() - 1]));
        assert(prev.0.contains_key(d));
        assert(prev.0[d] == st.0[d]);
        assert(digests.to_set() =~= init.to_set().insert(d)) by {
            assert forall|x: Seq<u8>| #[trigger] digests.to_set().contains(x) == init.to_set().insert(d).contains(x) by {
                if digests.to_set().contains(x) {
                    let j = choose|j: int| 0 <= j < digests.len() && digests[j] == x;
                    if j < init.len() {
                        assert(init[j] == x);
                    }
                }
                if init.to_set().contains(x) {
                    let j = choose|j: int| 0 <= j < init.len() && init[j] == x;
                    assert(digests[j] == x);
                }
            }
        }
        assert(prev.0.remove(d) =~= st.0.remove_keys(digests.to_set()));
        assert(prev.1.push((companion_name(prev.0[d]), line)) =~= st.1 + Seq::new(
            digests.len(),
            |i: int| (companion_name(st.0[digests[i]]), line),
        ));
    }
}

/// Whether the artifacts' contents have pairwise distinct digests.
pub open spec fn distinct_digests(arts: Seq<(Seq<char>, Seq<u8>)>) -> bool {
    forall|i: int, j: int|
        0 <= i < arts.len() && 0 <= j < arts.len() && i != j ==> sha256_of(arts[i].1) != sha256_of(
            arts[j].1,
        )
}

/// With distinct digests, the pending mapping holds exactly the artifacts'
/// digests, each with its artifact's name.
proof fn lemma_pending_of_distinct(arts: Seq<(Seq<char>, Seq<u8>)>)
    requires
        distinct_digests(arts),
    ensures
        forall|d: Seq<u8>| #[trigger] pending_of(arts).contains_key(d) <==> exists|j: int| 0 <= j < arts.len() && sha256_of(arts[j].1) == d,
        forall|j: int| 0 <= j < arts.len() ==> #[trigger] pending_of(arts)[sha256_of(arts[j].1)] == arts[j].0,
    decreases arts.len(),
{
    if arts.len() > 0 {
        let init = arts.drop_last();
        let n = arts.len() - 1;
        assert forall|i: int, j: int|
            0 <= i < init.len() && 0 <= j < init.len() && i != j implies sha256_of(init[i].1) != sha256_of(init[j].1) by {
            assert(init[i] == arts[i] && init[j] == arts[j]);
        }
        lemma_pending_of_distinct(init);
        assert forall|d: Seq<u8>| #[trigger] pending_of(arts).contains_key(d) <==> exists|j: int| 0 <= j < arts.len() && sha256_of(arts[j].1) == d by {
            assert(pending_of(arts) == pending_of(init).insert(sha256_of(arts[n].1), arts[n].0));
            if pending_of(arts).contains_key(d) && d != sha256_of(arts[n].1) {
                assert(pending_of(init).contains_key(d));
                let j = choose|j: int| 0 <= j < init.len() && sha256_of(init[j].1) == d;
                assert(arts[j] == init[j]);
            }
            if exists|j: int| 0 <= j < arts.len() && sha256_of(arts[j].1) == d {
                let j = choose|j: int| 0 <= j < arts.len() && sha256_of(arts[j].1) == d;
                if j < n {
                    assert(init[j] == arts[j]);
                    assert(pending_of(init).contains_key(d));
                }
            }
        }
        assert forall|j: int| 0 <= j < arts.len() implies #[trigger] pending_of(arts)[sha256_of(arts[j].1)] == arts[j].0 by {
            assert(pending_of(arts) == pending_of(init).insert(sha256_of(arts[n].1), arts[n].0));
            if j < n {
                assert(init[j] == arts[j]);
                assert(pending_of(init)[sha256_of(init[j].1)] == init[j].0);
            }
        }
    }
}

/// The progress after the first `k` lines, when each of the first lines
/// attests exactly the digest of the artifact at its position.
proof fn lemma_one_record_per_artifact_prefix(arts: Seq<(Seq<char>, Seq<u8>)>, lines: Seq<Seq<u8>>, k: int)
    requires
        distinct_digests(arts),
        0 <= k <= arts.len() <= lines.len(),
        forall|i: int| 0 <= i < arts.len() ==> !is_blank(#[trigger] lines[i]),
        forall|i: int| 0 <= i < arts.len() ==> #[trigger] record_digests(lines[i]) == Ok::<Seq<Seq<u8>>, ExtractFailure>(seq![sha256_of(arts[i].1)]),
    ensures
        run_lines((pending_of(arts), Seq::empty()), lines.take(k)) is Ok,
        ({
            let st = run_lines((pending_of(arts), Seq::empty()), lines.take(k))->Ok_0;
            &&& forall|d: Seq<u8>| #[trigger] st.0.contains_key(d) <==> exists|j: int| k <= j < arts.len() && sha256_of(arts[j].1) == d
            &&& forall|j: int| k <= j < arts.len() ==> #[trigger] st.0[sha256_of(arts[j].1)] == arts[j].0
            &&& st.1 == Seq::new(k as nat, |i: int| (companion_name(arts[i].0), lines[i]))
        }),
    decreases k,
{
    let init: Progress = (pending_of(arts), Seq::empty());
    if k == 0 {
        lemma_pending_of_distinct(arts);
        assert(lines.take(0) =~= Seq::<Seq<u8>>::empty());
        assert(Seq::new(0, |i: int| (companion_name(arts[i].0), lines[i])) =~= Seq::<(Seq<char>, Seq<u8>)>::empty());
    } else {
        lemma_one_record_per_artifact_prefix(arts, lines, k - 1);
        assert(lines.take(k).drop_last() =~= lines.take(k - 1));
        let prev = run_lines(init, lines.take(k - 1))->Ok_0;
        let line = lines[k - 1];
        let d = sha256_of(arts[k - 1].1);
        assert(!is_blank(line));
        assert(record_digests(line) == Ok::<Seq<Seq<u8>>, ExtractFailure>(seq![d]));
        assert(prev.0.contains_key(d));
        assert(seq![d].drop_last() =~= Seq::<Seq<u8>>::empty());
        let st = claim(prev, seq![d], line);
        assert(claim(prev, Seq::empty(), line) == prev);
        assert(seq![d].last() == d);
        assert(st == (prev.0.remove(d), prev.1.push((companion_name(prev.0[d]), line))));
        assert(run_lines(init, lines.take(k)) == Ok::<Progress, ReconcileFailure>(st));
        assert forall|x: Seq<u8>| #[trigger] st.0.contains_key(x) <==> exists|j: int| k <= j < arts.len() && sha256_of(arts[j].1) == x by {
            if st.0.contains_key(x) {
                let j = choose|j: int| k - 1 <= j < arts.len() && sha256_of(arts[j].1) == x;
                assert(j != k - 1);
            }
            if exists|j: int| k <= j < arts.len() && sha256_of(arts[j].1) == x {
                let j = choose|j: int| k <= j < arts.len() && sha256_of(arts[j].1) == x;
                assert(sha256_of(arts[j].1) != sha256_of(arts[k - 1].1));
            }
        }
        assert forall|j: int| k <= j < arts.len() implies #[trigger] st.0[sha256_of(arts[j].1)] == arts[j].0 by {
            assert(sha256_of(arts[j].1) != sha256_of(arts[k - 1].1));
        }
        assert(st.1 =~= Seq::new(k as nat, |i: int| (companion_name(arts[i].0), lines[i])));
    }
}

/// Blank lines after a prefix leave its progress as it is.
proof fn lemma_blank_tail(st: Progress, lines: Seq<Seq<u8>>, k: int, done: Progress)
    requires
        0 <= k <= lines.len(),
        run_lines(st, lines.take(k)) == Ok::<Progress, ReconcileFailure>(done),
        forall|i: int| k <= i < lines.len() ==> is_blank(#[trigger] lines[i]),
    ensures
        run_lines(st, lines) == Ok::<Progress, ReconcileFailure>(done),
    decreases lines.len() - k,
{
    if k < lines.len() {
        assert(lines.take(k + 1).drop_last() =~= lines.take(k));
        assert(is_blank(lines[k]));
        lemma_blank_tail(st, lines, k + 1, done);
    } else {
        assert(lines.take(k) =~= lines);
    }
}

/// When each artifact, with distinct contents, has exactly one record line
/// attesting its digest alone, and any further lines are blank, the run
/// succeeds and stages one companion per artifact holding that line.
pub proof fn lemma_one_record_per_artifact(arts: Seq<(Seq<char>, Seq<u8>)>, blob: Seq<u8>)
    requires
        distinct_digests(arts),
        arts.len() <= split_lines(blob).len(),
        forall|i: int| 0 <= i < arts.len() ==> !is_blank(#[trigger] split_lines(blob)[i]),
        forall|i: int| 0 <= i < arts.len() ==> #[trigger] record_digests(split_lines(blob)[i]) == Ok::<Seq<Seq<u8>>, ExtractFailure>(seq![sha256_of(arts[i].1)]),
        forall|i: int| arts.len() <= i < split_lines(blob).len() ==> is_blank(#[trigger] split_lines(blob)[i]),
    ensures
        reconcile_outcome(arts, Some(blob)) == Ok::<Seq<(Seq<char>, Seq<u8>)>, ReconcileFailure>(
            Seq::new(arts.len(), |i: int| (companion_name(arts[i].0), split_lines(blob)[i])),
        ),
{
    let lines = split_lines(blob);
    let init: Progress = (pending_of(arts), Seq::empty());
    lemma_one_record_per_artifact_prefix(arts, lines, arts.len() as int);
    let st = run_lines(init, lines.take(arts.len() as int))->Ok_0;
    lemma_blank_tail(init, lines, arts.len() as int, st);
    assert(st.0.dom() =~= Set::<Seq<u8>>::empty()) by {
        assert forall|d: Seq<u8>| !st.0.contains_key(d) by {}
    }
}

/// A text without a newline byte is a single line.
proof fn lemma_single_line(s: Seq<u8>, cur: Seq<u8>)
    requires
        forall|i: int| 0 <= i < s.len() ==> s[i] != 10,
    ensures
        lines_from(s, cur) == seq![cur + s],
    decreases s.len(),
{
    if s.len() == 0 {
        assert(cur + s =~= cur);
    } else {
        assert(s[0] != 10);
        let rest = s.drop_first();
        assert forall|i: int| 0 <= i < rest.len() implies rest[i] != 10 by {
            assert(rest[i] == s[i + 1]);
        }
        lemma_single_line(rest, cur.push(s[0]));
        assert(cur.push(s[0]) + rest =~= cur + s);
    }
}

/// A single record line that attests the digests of all the artifacts, which
/// have distinct contents, matches every one of them: the run succeeds and
/// each artifact gets that line as its companion.
pub proof fn lemma_single_record_attests_all(arts: Seq<(Seq<char>, Seq<u8>)>, line: Seq<u8>)
    requires
        distinct_digests(arts),
        forall|i: int| 0 <= i < line.len() ==> line[i] != 10,
        !is_blank(line),
        record_digests(line) == Ok::<Seq<Seq<u8>>, ExtractFailure>(
            Seq::new(arts.len(), |i: int| sha256_of(arts[i].1)),
        ),
    ensures
        reconcile_outcome(arts, Some(line)) == Ok::<Seq<(Seq<char>, Seq<u8>)>, ReconcileFailure>(
            Seq::new(arts.len(), |i: int| (companion_name(arts[i].0), line)),
        ),
{
    let ds = Seq::new(arts.len(), |i: int| sha256_of(arts[i].1));
    let init: Progress = (pending_of(arts), Seq::empty());
    lemma_single_line(line, Seq::empty());
    assert(Seq::<u8>::empty() + line =~= line);
    let lines = split_lines(line);
    assert(lines == seq![line]);
    assert(lines.drop_last() =~= Seq::<Seq<u8>>::empty());
    assert(run_lines(init, Seq::<Seq<u8>>::empty()) == Ok::<Progress, ReconcileFailure>(init));
    assert(lines.last() == line);
    assert(run_lines(init, lines) == step(init, line));
    lemma_pending_of_distinct(arts);
    assert(ds.no_duplicates()) by {
        assert forall|i: int, j: int| 0 <= i < ds.len() && 0 <= j < ds.len() && i != j implies ds[i] != ds[j] by {}
    }
    assert forall|i: int| 0 <= i < ds.len() implies init.0.contains_key(#[trigger] ds[i]) by {
        assert(ds[i] == sha256_of(arts[i].1));
    }
    lemma_one_record_many_artifacts(init, ds, line);
    let done = claim(init, ds, line);
    assert(done.0.dom() =~= Set::<Seq<u8>>::empty()) by {
        assert forall|d: Seq<u8>| !done.0.contains_key(d) by {
            if init.0.contains_key(d) {
                let j = choose|j: int| 0 <= j < arts.len() && sha256_of(arts[j].1) == d;
                assert(ds[j] == d);
                assert(ds.to_set().contains(d));
            }
        }
    }
    assert(done.1 =~= Seq::new(arts.len(), |i: int| (companion_name(arts[i].0), line))) by {
        assert forall|i: int| 0 <= i < arts.len() implies init.0[ds[i]] == arts[i].0 by {
            assert(init.0[sha256_of(arts[i].1)] == arts[i].0);
        }
    }
}

} // verus!
