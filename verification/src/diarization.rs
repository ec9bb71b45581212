//! Speaker diarization bookkeeping: agglomerative cluster merging, speaker
//! numbering by first appearance, and human-readable speaker labels.
//!
//! The similarity arithmetic that decides which clusters merge works on
//! floating-point embeddings and stays with the caller; this module owns the
//! integer side of the algorithm and proves it keeps a partition of the
//! segments and numbers speakers in order of first appearance.
use vstd::prelude::*;

use crate::text::{push_char, push_str};

verus! {

// ---------------------------------------------------------------------------
// Speaker labels
// ---------------------------------------------------------------------------

/// The capital letter `A + d` for `d < 26`.
pub open spec fn letter(d: nat) -> char {
    ((65 + d) as int) as char
}

/// The letters of speaker `n` in bijective base 26:
/// `0 -> A`, ..., `25 -> Z`, `26 -> AA`, `27 -> AB`, ...
pub open spec fn label_letters(n: nat) -> Seq<char>
    decreases n,
{
    if n < 26 {
        seq![letter(n)]
    } else {
        label_letters((n / 26 - 1) as nat).push(letter(n % 26))
    }
}

/// The label of speaker `n`: `"Speaker "` followed by its letters.
pub open spec fn speaker_label_spec(n: nat) -> Seq<char> {
    "Speaker "@ + label_letters(n)
}

/// Appends the letters of speaker `n`.
fn push_label_letters(out: &mut String, n: usize)
    ensures
        final(out)@ == old(out)@ + label_letters(n as nat),
    decreases n,
{
    if n >= 26 {
        push_label_letters(out, n / 26 - 1);
    }
    let d: u8 = (n % 26) as u8;
    let c: char = (65u8 + d) as char;
    push_char(out, c);
    if n < 26 {
        assert(old(out)@ + label_letters(n as nat) =~= old(out)@.push(c));
    } else {
        assert(old(out)@ + label_letters(n as nat) =~= (old(out)@ + label_letters(
            (n / 26 - 1) as nat,
        )).push(c));
    }
}

/// Convert a numeric speaker index into a human-readable label.
///
/// `0 -> "Speaker A"`, `1 -> "Speaker B"`, ..., `25 -> "Speaker Z"`,
/// `26 -> "Speaker AA"`, etc.
pub fn speaker_label(index: usize) -> (label: String)
    ensures
        label@ == speaker_label_spec(index as nat),
{
    let mut label = String::new();
    crate::text::push_str(&mut label, "Speaker ");
    push_label_letters(&mut label, index);
    assert(label@ =~= speaker_label_spec(index as nat));
    label
}

/// The labels of a sequence of speaker indices, in the same order.
pub fn speaker_labels(ids: &Vec<usize>) -> (labels: Vec<String>)
    ensures
        labels.len() == ids.len(),
        forall|i: int| 0 <= i < ids.len() ==> #[trigger] labels[i]@ == speaker_label_spec(ids[i] as nat),
{
    let mut labels: Vec<String> = Vec::new();
    let mut i: usize = 0;
    while i < ids.len()
        invariant
            0 <= i <= ids.len(),
            labels.len() == i,
            forall|k: int| 0 <= k < i ==> #[trigger] labels[k]@ == speaker_label_spec(ids[k] as nat),
        decreases ids.len() - i,
    {
        labels.push(speaker_label(ids[i]));
        i += 1;
    }
    labels
}

/// Every label has at least one letter.
proof fn lemma_label_letters_nonempty(n: nat)
    ensures
        label_letters(n).len() >= 1,
    decreases n,
{
    if n >= 26 {
        lemma_label_letters_nonempty((n / 26 - 1) as nat);
    }
}

/// Letters of different speakers differ.
proof fn lemma_letter_injective(a: nat, b: nat)
    requires
        a < 26,
        b < 26,
        a != b,
    ensures
        letter(a) != letter(b),
{
    assert((letter(a) as int) == 65 + a);
    assert((letter(b) as int) == 65 + b);
}

/// Distinct speaker indices get distinct labels, so a label identifies its
/// speaker.
pub proof fn speaker_labels_are_distinct(a: nat, b: nat)
    requires
        a != b,
    ensures
        speaker_label_spec(a) != speaker_label_spec(b),
    decreases a + b,
{
    lemma_letters_distinct(a, b);
    reveal_strlit("Speaker ");
    if speaker_label_spec(a) == speaker_label_spec(b) {
        assert(speaker_label_spec(a).skip(8) =~= label_letters(a));
        assert(speaker_label_spec(b).skip(8) =~= label_letters(b));
    }
}

proof fn lemma_letters_distinct(a: nat, b: nat)
    requires
        a != b,
    ensures
        label_letters(a) != label_letters(b),
    decreases a + b,
{
    if a < 26 && b < 26 {
        lemma_letter_injective(a, b);
        assert(label_letters(a)[0] != label_letters(b)[0]);
    } else if a < 26 {
        lemma_label_letters_nonempty((b / 26 - 1) as nat);
        assert(label_letters(a).len() == 1);
    } else if b < 26 {
        lemma_label_letters_nonempty((a / 26 - 1) as nat);
        assert(label_letters(b).len() == 1);
    } else {
        let pa = (a / 26 - 1) as nat;
        let pb = (b / 26 - 1) as nat;
        if label_letters(a) == label_letters(b) {
            let la = label_letters(a);
            assert(la.drop_last() =~= label_letters(pa));
            assert(label_letters(b).drop_last() =~= label_letters(pb));
            if a % 26 != b % 26 {
                lemma_letter_injective(a % 26, b % 26);
                assert(la.last() == letter(a % 26));
                assert(label_letters(b).last() == letter(b % 26));
            } else {
                assert(pa != pb);
                lemma_letters_distinct(pa, pb);
            }
        }
    }
}

// ---------------------------------------------------------------------------
// Clusters of segments
// ---------------------------------------------------------------------------

/// The members of every cluster, as sequences.
pub open spec fn cluster_views(clusters: Seq<Vec<usize>>) -> Seq<Seq<usize>> {
    Seq::new(clusters.len(), |c: int| clusters[c]@)
}

/// `clusters` partitions the segments `0..n`: every member is a segment,
/// every segment is in some cluster, and no segment is in two clusters.
pub open spec fn is_partition(clusters: Seq<Seq<usize>>, n: nat) -> bool {
    &&& forall|c: int, k: int|
        0 <= c < clusters.len() && 0 <= k < clusters[c].len() ==> #[trigger] clusters[c][k] < n
    &&& forall|m: usize| m < n ==> #[trigger] in_some_cluster(clusters, m)
    &&& forall|c1: int, c2: int, m: usize|
        0 <= c1 < clusters.len() && 0 <= c2 < clusters.len() && #[trigger] clusters[c1].contains(m)
            && #[trigger] clusters[c2].contains(m) ==> c1 == c2
}

/// Segment `m` belongs to some cluster.
pub open spec fn in_some_cluster(clusters: Seq<Seq<usize>>, m: usize) -> bool {
    exists|c: int| 0 <= c < clusters.len() && #[trigger] clusters[c].contains(m)
}

/// Segments `a` and `b` are in the same cluster.
pub open spec fn same_cluster(clusters: Seq<Seq<usize>>, a: usize, b: usize) -> bool {
    exists|c: int| 0 <= c < clusters.len() && #[trigger] clusters[c].contains(a) && clusters[c].contains(b)
}

/// One cluster per segment: `[[0], [1], ..., [n - 1]]`.
pub open spec fn singletons(n: nat) -> Seq<Seq<usize>> {
    Seq::new(n, |i: int| seq![i as usize])
}

/// Cluster `j` merged into cluster `i` (members of `j` appended to `i`), and
/// cluster `j` removed.
pub open spec fn merged(clusters: Seq<Seq<usize>>, i: int, j: int) -> Seq<Seq<usize>> {
    clusters.update(i, clusters[i] + clusters[j]).remove(j)
}

/// Each segment starts as its own cluster.
pub fn initial_clusters(n: usize) -> (clusters: Vec<Vec<usize>>)
    ensures
        cluster_views(clusters@) == singletons(n as nat),
{
    let mut clusters: Vec<Vec<usize>> = Vec::new();
    let mut i: usize = 0;
    while i < n
        invariant
            0 <= i <= n,
            clusters.len() == i,
            cluster_views(clusters@) == singletons(i as nat),
        decreases n - i,
    {
        let mut one: Vec<usize> = Vec::new();
        one.push(i);
        assert(one@ =~= seq![i]);
        let ghost before = cluster_views(clusters@);
        let ghost old_clusters = clusters@;
        let ghost one_v = one@;
        clusters.push(one);
        assert(clusters@ == old_clusters.push(clusters@[i as int]));
        assert forall|k: int| 0 <= k < i + 1 implies #[trigger] cluster_views(clusters@)[k] == singletons((i + 1) as nat)[k] by {
            if k < i {
                assert(clusters@[k] == old_clusters[k]);
                assert(before[k] == singletons(i as nat)[k]);
            } else {
                assert(clusters@[k]@ == one_v);
            }
        }
        assert(cluster_views(clusters@) =~= singletons((i + 1) as nat));
        i += 1;
    }
    clusters
}

/// Merge cluster `j` into cluster `i`: the members of `j` are appended to
/// `i` and cluster `j` is removed, so later clusters move down by one.
pub fn merge_clusters(clusters: &mut Vec<Vec<usize>>, i: usize, j: usize)
    requires
        i < j < old(clusters).len(),
    ensures
        cluster_views(final(clusters)@) == merged(cluster_views(old(clusters)@), i as int, j as int),
{
    let ghost before = cluster_views(clusters@);
    let moved = clusters.remove(j);
    let mut combined: Vec<usize> = Vec::new();
    let mut k: usize = 0;
    let n_i = clusters[i].len();
    while k < n_i
        invariant
            i < clusters.len(),
            n_i == clusters[i as int].len(),
            0 <= k <= n_i,
            combined@ == clusters[i as int]@.take(k as int),
        decreases n_i - k,
    {
        combined.push(clusters[i][k]);
        assert(clusters[i as int]@.take(k + 1) =~= clusters[i as int]@.take(k as int).push(
            clusters[i as int]@[k as int],
        ));
        k += 1;
    }
    assert(clusters[i as int]@.take(n_i as int) =~= clusters[i as int]@);
    let mut t: usize = 0;
    while t < moved.len()
        invariant
            0 <= t <= moved.len(),
            combined@ == clusters[i as int]@ + moved@.take(t as int),
        decreases moved.len() - t,
    {
        combined.push(moved[t]);
        assert(moved@.take(t + 1) =~= moved@.take(t as int).push(moved@[t as int]));
        t += 1;
    }
    assert(moved@.take(moved.len() as int) =~= moved@);
    clusters.set(i, combined);
    assert(cluster_views(clusters@) =~= merged(before, i as int, j as int));
}

/// Merging two clusters of a partition gives a partition of the same
/// segments.
pub proof fn merge_keeps_partition(clusters: Seq<Seq<usize>>, i: int, j: int, n: nat)
    requires
        is_partition(clusters, n),
        0 <= i < j < clusters.len(),
    ensures
        is_partition(merged(clusters, i, j), n),
{
    let m = merged(clusters, i, j);
    // position in `m` of old cluster `c` (for `c != j`), and of old `j`
    assert forall|c: int, k: int| 0 <= c < m.len() && 0 <= k < m[c].len() implies #[trigger] m[c][k] < n by {
        let oc = if c < j { c } else { c + 1 };
        if c == i {
            if k < clusters[i].len() {
                assert(m[c][k] == clusters[i][k]);
            } else {
                assert(m[c][k] == clusters[j][k - clusters[i].len()]);
            }
        } else {
            assert(m[c] == clusters[oc]);
        }
    }
    assert forall|s: usize| s < n implies #[trigger] in_some_cluster(m, s) by {
        assert(in_some_cluster(clusters, s));
        let oc = choose|c: int| 0 <= c < clusters.len() && #[trigger] clusters[c].contains(s as usize);
        let k = choose|k: int| 0 <= k < clusters[oc].len() && clusters[oc][k] == s as usize;
        if oc == i {
            assert(m[i][k] == s as usize);
            assert(m[i].contains(s as usize));
        } else if oc == j {
            assert(m[i][clusters[i].len() + k] == s as usize);
            assert(m[i].contains(s as usize));
        } else if oc < j {
            assert(m[oc] == clusters[oc]);
            assert(m[oc].contains(s as usize));
        } else {
            assert(m[oc - 1] == clusters[oc]);
            assert(m[oc - 1].contains(s as usize));
        }
    }
    assert forall|c1: int, c2: int, s: usize|
        0 <= c1 < m.len() && 0 <= c2 < m.len() && #[trigger] m[c1].contains(s) && #[trigger] m[c2].contains(s)
        implies c1 == c2 by {
        let o1 = lemma_merged_origin(clusters, i, j, c1, s);
        let o2 = lemma_merged_origin(clusters, i, j, c2, s);
    }
}

/// A member of a merged cluster comes from the matching old cluster.
proof fn lemma_merged_origin(clusters: Seq<Seq<usize>>, i: int, j: int, c: int, s: usize) -> (o: int)
    requires
        0 <= i < j < clusters.len(),
        0 <= c < clusters.len() - 1,
        merged(clusters, i, j)[c].contains(s),
    ensures
        0 <= o < clusters.len(),
        clusters[o].contains(s),
        c == i ==> (o == i || o == j),
        c != i && c < j ==> o == c,
        c >= j ==> o == c + 1,
{
    let m = merged(clusters, i, j);
    let k = choose|k: int| 0 <= k < m[c].len() && m[c][k] == s;
    if c == i {
        if k < clusters[i].len() {
            assert(clusters[i][k] == s);
            i
        } else {
            assert(clusters[j][k - clusters[i].len()] == s);
            j
        }
    } else if c < j {
        assert(clusters[c][k] == s);
        c
    } else {
        assert(clusters[c + 1][k] == s);
        c + 1
    }
}

// ---------------------------------------------------------------------------
// Speaker numbering by first appearance
// ---------------------------------------------------------------------------

/// Speaker ids grow in order of first appearance: the first segment is
/// speaker 0, and each id above 0 is one more than some id seen earlier.
pub open spec fn first_appearance_order(ids: Seq<usize>) -> bool {
    forall|s: int| 0 <= s < ids.len() && #[trigger] ids[s] > 0 ==> exists|t: int| 0 <= t < s && ids[t] == ids[s] - 1
}

/// Id `k` is used by some segment.
pub open spec fn id_seen(ids: Seq<usize>, k: int) -> bool {
    exists|t: int| 0 <= t < ids.len() && #[trigger] ids[t] == k
}

/// Number the clusters of a partition of the segments `0..n` by the order in
/// which their first segment appears: segment 0 is always speaker 0, the next
/// segment with a new speaker is speaker 1, and so on. Two segments get the
/// same id exactly when they are in the same cluster.
pub fn assign_speaker_ids(clusters: &Vec<Vec<usize>>, n: usize) -> (ids: Vec<usize>)
    requires
        is_partition(cluster_views(clusters@), n as nat),
    ensures
        ids.len() == n,
        first_appearance_order(ids@),
        forall|a: int, b: int|
            0 <= a < n && 0 <= b < n ==> (#[trigger] ids[a] == #[trigger] ids[b] <==> same_cluster(
                cluster_views(clusters@),
                a as usize,
                b as usize,
            )),
{
    let ghost cv = cluster_views(clusters@);
    let nc = clusters.len();
    // cluster index of every segment
    let mut owner: Vec<usize> = Vec::new();
    let mut m: usize = 0;
    while m < n
        invariant
            0 <= m <= n,
            owner.len() == m,
            forall|x: int| 0 <= x < m ==> owner[x] == nc,
        decreases n - m,
    {
        owner.push(nc);
        m += 1;
    }
    let mut c: usize = 0;
    while c < nc
        invariant
            cv == cluster_views(clusters@),
            nc == clusters.len(),
            is_partition(cv, n as nat),
            0 <= c <= nc,
            owner.len() == n,
            forall|x: int| 0 <= x < n ==> (owner[x] == nc || (owner[x] < nc && cv[owner[x] as int].contains(x as usize))),
            forall|d: int, x: int| 0 <= d < c && 0 <= x < n && #[trigger] cv[d].contains(x as usize) ==> owner[x] == d,
        decreases nc - c,
    {
        let members = &clusters[c];
        let mut k: usize = 0;
        while k < members.len()
            invariant
                cv == cluster_views(clusters@),
                members@ == cv[c as int],
                nc == clusters.len(),
                c < nc,
                is_partition(cv, n as nat),
                0 <= k <= members.len(),
                owner.len() == n,
                forall|x: int| 0 <= x < n ==> (owner[x] == nc || (owner[x] < nc && cv[owner[x] as int].contains(x as usize))),
                forall|d: int, x: int| 0 <= d < c && 0 <= x < n && #[trigger] cv[d].contains(x as usize) ==> owner[x] == d,
                forall|t: int| 0 <= t < k ==> owner[#[trigger] members[t] as int] == c,
            decreases members.len() - k,
        {
            let x = members[k];
            assert(cv[c as int][k as int] == x);
            assert(x < n);
            assert(cv[c as int].contains(x));
            owner.set(x, c);
            k += 1;
        }
        assert forall|d: int, x: int| 0 <= d < c + 1 && 0 <= x < n && #[trigger] cv[d].contains(x as usize) implies owner[x] == d by {
            if d == c {
                let t = choose|t: int| 0 <= t < members.len() && members[t] == x as usize;
                assert(owner[members[t] as int] == c);
            }
        }
        c += 1;
    }
    // every segment now knows its cluster
    assert forall|x: int| 0 <= x < n implies #[trigger] owner[x] < nc && cv[owner[x] as int].contains(x as usize) by {
        assert(in_some_cluster(cv, x as usize));
        let d = choose|d: int| 0 <= d < cv.len() && #[trigger] cv[d].contains(x as usize);
        assert(owner[x] == d);
    }
    // renumber clusters by first appearance
    let mut renumber: Vec<Option<usize>> = Vec::new();
    let mut d: usize = 0;
    while d < nc
        invariant
            0 <= d <= nc,
            renumber.len() == d,
            forall|y: int| 0 <= y < d ==> renumber[y] is None,
        decreases nc - d,
    {
        renumber.push(None);
        d += 1;
    }
    let mut ids: Vec<usize> = Vec::new();
    let mut next_id: usize = 0;
    let mut s: usize = 0;
    while s < n
        invariant
            0 <= s <= n,
            owner.len() == n,
            renumber.len() == nc,
            ids.len() == s,
            forall|x: int| 0 <= x < n ==> #[trigger] owner[x] < nc,
            forall|y: int| 0 <= y < nc && #[trigger] renumber[y] is Some ==> renumber[y]->0 < next_id,
            next_id <= s,
            forall|y1: int, y2: int|
                0 <= y1 < nc && 0 <= y2 < nc && #[trigger] renumber[y1] is Some && #[trigger] renumber[y2] is Some
                    && renumber[y1]->0 == renumber[y2]->0 ==> y1 == y2,
            forall|t: int| 0 <= t < s ==> renumber[#[trigger] owner[t] as int] == Some(ids[t]),
            forall|t: int| 0 <= t < s ==> #[trigger] ids[t] < next_id,
            forall|k: int| 0 <= k < next_id ==> #[trigger] id_seen(ids@, k),
            first_appearance_order(ids@),
        decreases n - s,
    {
        let cluster = owner[s];
        assert(cluster < nc);
        let ghost old_ids = ids@;
        match renumber[cluster] {
            Some(id) => {
                ids.push(id);
            },
            None => {
                renumber.set(cluster, Some(next_id));
                ids.push(next_id);
                proof {
                    if next_id > 0 {
                        assert(ids@.drop_last() =~= old_ids);
                        assert(id_seen(ids@.drop_last(), next_id - 1));
                        let t = choose|t: int| 0 <= t < ids@.drop_last().len() && #[trigger] ids@.drop_last()[t] == next_id - 1;
                        assert(ids@[t] == next_id - 1);
                    }
                }
                next_id += 1;
            },
        }
        assert forall|q: int| 0 <= q < ids@.len() && #[trigger] ids@[q] > 0 implies exists|t: int| 0 <= t < q && ids@[t] == ids@[q] - 1 by {
            if q < s {
                assert(old_ids[q] == ids@[q]);
                let t = choose|t: int| 0 <= t < q && old_ids[t] == old_ids[q] - 1;
                assert(ids@[t] == old_ids[t]);
            } else {
                assert(ids@[q] - 1 < next_id);
                assert(id_seen(old_ids, ids@[q] - 1));
                let t = choose|t: int| 0 <= t < old_ids.len() && #[trigger] old_ids[t] == ids@[q] - 1;
                assert(ids@[t] == old_ids[t]);
            }
        }
        assert forall|k: int| 0 <= k < next_id implies #[trigger] id_seen(ids@, k) by {
            if k == ids[s as int] {
                assert(ids@[s as int] == k);
            } else {
                assert(ids@.drop_last() =~= old_ids);
                assert(id_seen(ids@.drop_last(), k));
                let t = choose|t: int| 0 <= t < s && #[trigger] ids@.drop_last()[t] == k;
                assert(ids@[t] == k);
            }
        }
        s += 1;
    }
    assert forall|a: int, b: int|
        0 <= a < n && 0 <= b < n implies (#[trigger] ids[a] == #[trigger] ids[b] <==> same_cluster(cv, a as usize, b as usize)) by {
        let oa = owner[a] as int;
        let ob = owner[b] as int;
        assert(cv[oa].contains(a as usize));
        assert(cv[ob].contains(b as usize));
        if same_cluster(cv, a as usize, b as usize) {
            let c = choose|c: int| 0 <= c < cv.len() && #[trigger] cv[c].contains(a as usize) && cv[c].contains(b as usize);
            assert(c == oa);
            assert(c == ob);
        }
        if ids[a] == ids[b] {
            assert(renumber[owner[a] as int] == Some(ids[a]));
            assert(renumber[owner[b] as int] == Some(ids[b]));
            assert(oa == ob);
        }
    }
    ids
}

// ---------------------------------------------------------------------------
// Embedders and the speaker model
// ---------------------------------------------------------------------------

/// Mel-style energy bands of the acoustic embedding.
pub const NUM_BANDS: usize = 40;

/// Zero-crossing-rate bins per frame of the acoustic embedding.
pub const NUM_ZCR_BINS: usize = 8;

/// The acoustic-feature embedder: mean and spread of log band energies and
/// their deltas, plus zero-crossing-rate bins. Computing the features works
/// on floating-point audio and happens outside the library.
pub struct AcousticFeatureEmbedder;

impl AcousticFeatureEmbedder {
    /// The embedder.
    pub fn new() -> Self {
        AcousticFeatureEmbedder
    }

    /// The length of its embeddings: mean and standard deviation of each
    /// band and of its delta, and of each zero-crossing bin.
    pub fn dim(&self) -> (n: usize)
        ensures
            n == NUM_BANDS * 4 + NUM_ZCR_BINS * 2,
    {
        NUM_BANDS * 4 + NUM_ZCR_BINS * 2
    }
}

/// Identifier of the speaker-embedding model.
pub const DIARIZATION_MODEL_ID: &'static str = "ecapa-tdnn-speaker-encoder";

/// File name of the speaker-embedding model.
pub const DIARIZATION_MODEL_FILENAME: &'static str = "speaker_encoder_int8.onnx";

/// Expected size in bytes of the speaker-embedding model.
pub const DIARIZATION_MODEL_EXPECTED_SIZE: u64 = 9_337_463;

/// Where the speaker-embedding model is downloaded from.
pub const DIARIZATION_MODEL_URL: &'static str = "https://huggingface.co/marksverdhei/Qwen3-Voice-Embedding-12Hz-0.6B-onnx/resolve/main/speaker_encoder_int8.onnx";

/// The speaker-embedding model and its download status.
pub struct DiarizationModelInfo {
    pub id: String,
    pub filename: String,
    pub expected_size: u64,
    pub is_downloaded: bool,
    pub actual_size: Option<u64>,
    pub path: Option<String>,
}

/// The model's status, given where its file belongs, whether it exists and
/// the size read from it (`None` when unreadable); size and path are only
/// reported for a downloaded model.
pub fn get_diarization_model_info(path: &str, file_exists: bool, size: Option<u64>) -> (r: DiarizationModelInfo)
    ensures
        r.id@ == DIARIZATION_MODEL_ID@,
        r.filename@ == DIARIZATION_MODEL_FILENAME@,
        r.expected_size == DIARIZATION_MODEL_EXPECTED_SIZE,
        r.is_downloaded == file_exists,
        r.actual_size == if file_exists { size } else { None },
        file_exists ==> (r.path matches Some(p) && p@ == path@),
        !file_exists ==> r.path is None,
{
    let mut id = String::new();
    push_str(&mut id, DIARIZATION_MODEL_ID);
    let mut filename = String::new();
    push_str(&mut filename, DIARIZATION_MODEL_FILENAME);
    let p = if file_exists {
        let mut p = String::new();
        push_str(&mut p, path);
        Some(p)
    } else {
        None
    };
    DiarizationModelInfo {
        id,
        filename,
        expected_size: DIARIZATION_MODEL_EXPECTED_SIZE,
        is_downloaded: file_exists,
        actual_size: if file_exists { size } else { None },
        path: p,
    }
}

} // verus!
