//! Metadata diffing: both sides' collected metadata is compared key by
//! key over the sorted union of the keys, and each difference is
//! classified. A difference report is not an error.
use vstd::prelude::*;

use crate::text::lemma_lex_trans;
use crate::text::lemma_lex_trichotomy;
use crate::text::lex_lt;
use crate::text::str_eq;
use crate::text::str_lex_lt;

verus! {

/// Metadata of one object under its relative key: the full path or key
/// it came from, its size, and its content digest when one was taken.
pub struct ObjectMeta {
    pub key: String,
    pub path: String,
    pub size: u64,
    pub etag: Option<String>,
}

/// The digest of a metadata entry, as text.
pub open spec fn etag_view(m: ObjectMeta) -> Option<Seq<char>> {
    match m.etag {
        Some(e) => Some(e@),
        None => None,
    }
}

/// The first entry under a key, if any.
pub open spec fn lookup(s: Seq<ObjectMeta>, k: Seq<char>) -> Option<ObjectMeta>
    decreases s.len(),
{
    if s.len() == 0 {
        None
    } else if s[0].key@ == k {
        Some(s[0])
    } else {
        lookup(s.drop_first(), k)
    }
}

/// How one key differs between the two sides.
#[derive(Debug, Clone, Copy, PartialEq, Eq, Structural)]
pub enum DiffType {
    OnlyInSource,
    OnlyInDest,
    SizeDiffers,
    ContentDiffers,
}

/// One reported difference.
pub struct DiffEntry {
    pub key: String,
    pub kind: DiffType,
}

/// The classification of one key: present on one side only, differing in
/// size, or — under content comparison, and only when both sides carry a
/// digest — differing in content. Equal entries yield nothing.
pub open spec fn classify(
    src: Option<ObjectMeta>,
    dst: Option<ObjectMeta>,
    compare_content: bool,
) -> Option<DiffType> {
    match (src, dst) {
        (Some(_), None) => Some(DiffType::OnlyInSource),
        (None, Some(_)) => Some(DiffType::OnlyInDest),
        (Some(s), Some(d)) => if s.size != d.size {
            Some(DiffType::SizeDiffers)
        } else if compare_content && etag_view(s) is Some && etag_view(d) is Some && etag_view(s)
            != etag_view(d) {
            Some(DiffType::ContentDiffers)
        } else {
            None
        },
        (None, None) => None,
    }
}

/// Whether some entry carries the key.
pub open spec fn has_key(d: Seq<DiffEntry>, k: Seq<char>) -> bool {
    exists|i: int| 0 <= i < d.len() && d[i].key@ == k
}

/// Adjacent entry keys strictly ascend.
pub open spec fn entries_sorted(d: Seq<DiffEntry>) -> bool {
    forall|i: int| 0 <= i < d.len() - 1 ==> lex_lt(#[trigger] d[i].key@, d[i + 1].key@)
}

/// Adjacent keys strictly ascend.
pub open spec fn keys_sorted(ks: Seq<String>) -> bool {
    forall|i: int| 0 <= i < ks.len() - 1 ==> lex_lt(#[trigger] ks[i]@, ks[i + 1]@)
}

/// Whether the key occurs in the list.
pub open spec fn key_in(ks: Seq<String>, k: Seq<char>) -> bool {
    exists|i: int| 0 <= i < ks.len() && ks[i]@ == k
}

/// In a sorted key list, an earlier key is strictly below a later one.
proof fn lemma_sorted_apart(ks: Seq<String>, i: int, j: int)
    requires
        keys_sorted(ks),
        0 <= i < j < ks.len(),
    ensures
        lex_lt(ks[i]@, ks[j]@),
    decreases j - i,
{
    if i + 1 == j {
    } else {
        lemma_sorted_apart(ks, i + 1, j);
        lemma_lex_trans(ks[i]@, ks[i + 1]@, ks[j]@);
    }
}

/// Inserts a key into a sorted list, keeping it sorted and without
/// duplicates.
fn insert_key_sorted(keys: &mut Vec<String>, k: String)
    requires
        keys_sorted(old(keys)@),
    ensures
        keys_sorted(final(keys)@),
        key_in(final(keys)@, k@),
        forall|i: int| 0 <= i < old(keys)@.len() ==> key_in(final(keys)@, #[trigger] old(keys)@[i]@),
        forall|i: int|
            0 <= i < final(keys)@.len() ==> key_in(old(keys)@, #[trigger] final(keys)@[i]@)
                || final(keys)@[i]@ == k@,
{
    let mut i: usize = 0;
    while i < keys.len() && str_lex_lt(keys[i].as_str(), k.as_str())
        invariant
            i <= keys@.len(),
            keys@ == old(keys)@,
            forall|j: int| 0 <= j < i ==> lex_lt(#[trigger] keys@[j]@, k@),
        decreases keys@.len() - i,
    {
        i = i + 1;
    }
    if i < keys.len() && str_eq(keys[i].as_str(), k.as_str()) {
        proof {
            assert(keys@[i as int]@ == k@);
        }
        return ;
    }
    proof {
        if i < keys@.len() {
            lemma_lex_trichotomy(keys@[i as int]@, k@);
        }
    }
    let ghost old_seq = keys@;
    keys.insert(i, k);
    proof {
        let s = keys@;
        let ii = i as int;
        assert(s == old_seq.insert(ii, k));
        assert(forall|j: int| 0 <= j < ii ==> s[j] == old_seq[j]);
        assert(s[ii] == k);
        assert(forall|j: int| ii < j < s.len() ==> s[j] == old_seq[j - 1]);
        assert forall|j: int| 0 <= j < s.len() - 1 implies lex_lt(#[trigger] s[j]@, s[j + 1]@) by {
            if j + 1 < ii {
            } else if j + 1 == ii {
            } else if j == ii {
                assert(s[j + 1] == old_seq[j]);
            } else {
            }
        }
        assert(key_in(s, k@));
        assert forall|j: int| 0 <= j < old_seq.len() implies key_in(s, #[trigger] old_seq[j]@) by {
            if j < ii {
                assert(s[j]@ == old_seq[j]@);
            } else {
                assert(s[j + 1]@ == old_seq[j]@);
            }
        }
    }
}

proof fn lemma_lookup_skip(s: Seq<ObjectMeta>, k: Seq<char>, i: int)
    requires
        0 <= i <= s.len(),
        forall|j: int| 0 <= j < i ==> (#[trigger] s[j]).key@ != k,
    ensures
        lookup(s, k) == lookup(s.skip(i), k),
    decreases i,
{
    if i > 0 {
        lemma_lookup_skip(s.drop_first(), k, i - 1);
        assert(s.drop_first().skip(i - 1) == s.skip(i));
    } else {
        assert(s.skip(0) == s);
    }
}

/// Finds the first entry under the key, handing back its position.
pub(crate) fn lookup_meta(v: &Vec<ObjectMeta>, k: &str) -> (r: Option<usize>)
    ensures
        match r {
            Some(i) => i < v@.len() && lookup(v@, k@) == Some(v@[i as int]),
            None => lookup(v@, k@) is None,
        },
{
    let mut i: usize = 0;
    while i < v.len()
        invariant
            i <= v@.len(),
            forall|j: int| 0 <= j < i ==> (#[trigger] v@[j]).key@ != k@,
        decreases v@.len() - i,
    {
        if str_eq(v[i].key.as_str(), k) {
            proof {
                lemma_lookup_skip(v@, k@, i as int);
                assert(v@.skip(i as int)[0] == v@[i as int]);
            }
            return Some(i);
        }
        i = i + 1;
    }
    proof {
        lemma_lookup_skip(v@, k@, v@.len() as int);
    }
    None
}

fn classify_at(
    source_files: &Vec<ObjectMeta>,
    dest_files: &Vec<ObjectMeta>,
    k: &str,
    compare_content: bool,
) -> (r: Option<DiffType>)
    ensures
        r == classify(lookup(source_files@, k@), lookup(dest_files@, k@), compare_content),
{
    let si = lookup_meta(source_files, k);
    let di = lookup_meta(dest_files, k);
    match (si, di) {
        (Some(_), None) => Some(DiffType::OnlyInSource),
        (None, Some(_)) => Some(DiffType::OnlyInDest),
        (Some(s), Some(d)) => {
            let sm = &source_files[s];
            let dm = &dest_files[d];
            if sm.size != dm.size {
                Some(DiffType::SizeDiffers)
            } else if compare_content {
                match (&sm.etag, &dm.etag) {
                    (Some(se), Some(de)) => {
                        if !str_eq(se.as_str(), de.as_str()) {
                            Some(DiffType::ContentDiffers)
                        } else {
                            None
                        }
                    },
                    _ => None,
                }
            } else {
                None
            }
        },
        (None, None) => None,
    }
}

/// What a comparison report says: entries walk strictly ascending keys;
/// every entry carries the classification of its key, and every key of
/// either side whose classification reports a difference has an entry.
pub open spec fn diff_report_ok(
    src: Seq<ObjectMeta>,
    dst: Seq<ObjectMeta>,
    compare_content: bool,
    d: Seq<DiffEntry>,
) -> bool {
    &&& entries_sorted(d)
    &&& forall|i: int|
        0 <= i < d.len() ==> classify(
            lookup(src, (#[trigger] d[i]).key@),
            lookup(dst, d[i].key@),
            compare_content,
        ) == Some(d[i].kind)
    &&& forall|j: int|
        0 <= j < src.len() ==> (classify(
            lookup(src, (#[trigger] src[j]).key@),
            lookup(dst, src[j].key@),
            compare_content,
        ) is Some ==> has_key(d, src[j].key@))
    &&& forall|j: int|
        0 <= j < dst.len() ==> (classify(
            lookup(src, (#[trigger] dst[j]).key@),
            lookup(dst, dst[j].key@),
            compare_content,
        ) is Some ==> has_key(d, dst[j].key@))
}

/// Compares the two sides key by key: the result walks the union of both
/// key sets in strictly ascending order, carrying exactly the keys whose
/// classification reports a difference, each with that classification.
pub fn find_differences(
    source_files: &Vec<ObjectMeta>,
    dest_files: &Vec<ObjectMeta>,
    compare_content: bool,
) -> (diffs: Vec<DiffEntry>)
    ensures
        diff_report_ok(source_files@, dest_files@, compare_content, diffs@),
{
    let mut keys: Vec<String> = Vec::new();
    let mut i: usize = 0;
    while i < source_files.len()
        invariant
            i <= source_files@.len(),
            keys_sorted(keys@),
            forall|j: int|
                0 <= j < i ==> key_in(keys@, (#[trigger] source_files@[j]).key@),
        decreases source_files@.len() - i,
    {
        insert_key_sorted(&mut keys, source_files[i].key.clone());
        i = i + 1;
    }
    let mut i: usize = 0;
    while i < dest_files.len()
        invariant
            i <= dest_files@.len(),
            keys_sorted(keys@),
            forall|j: int|
                0 <= j < source_files@.len() ==> key_in(keys@, (#[trigger] source_files@[j]).key@),
            forall|j: int| 0 <= j < i ==> key_in(keys@, (#[trigger] dest_files@[j]).key@),
        decreases dest_files@.len() - i,
    {
        insert_key_sorted(&mut keys, dest_files[i].key.clone());
        i = i + 1;
    }
    let mut diffs: Vec<DiffEntry> = Vec::new();
    let mut i: usize = 0;
    while i < keys.len()
        invariant
            i <= keys@.len(),
            keys_sorted(keys@),
            entries_sorted(diffs@),
            forall|p: int|
                0 <= p < diffs@.len() ==> classify(
                    lookup(source_files@, (#[trigger] diffs@[p]).key@),
                    lookup(dest_files@, diffs@[p].key@),
                    compare_content,
                ) == Some(diffs@[p].kind),
            forall|m: int|
                0 <= m < i ==> (classify(
                    lookup(source_files@, (#[trigger] keys@[m])@),
                    lookup(dest_files@, keys@[m]@),
                    compare_content,
                ) is Some ==> has_key(diffs@, keys@[m]@)),
            diffs@.len() > 0 ==> exists|m: int|
                0 <= m < i && (#[trigger] keys@[m])@ == diffs@[diffs@.len() - 1].key@,
        decreases keys@.len() - i,
    {
        let k = &keys[i];
        match classify_at(source_files, dest_files, k.as_str(), compare_content) {
            Some(kind) => {
                proof {
                    if diffs@.len() > 0 {
                        let m = choose|m: int|
                            0 <= m < i && (#[trigger] keys@[m])@ == diffs@[diffs@.len() - 1].key@;
                        lemma_sorted_apart(keys@, m, i as int);
                    }
                }
                let ghost old_diffs = diffs@;
                diffs.push(DiffEntry { key: k.clone(), kind });
                proof {
                    assert(diffs@[diffs@.len() - 1].key@ == keys@[i as int]@);
                    assert(forall|p: int| 0 <= p < old_diffs.len() ==> diffs@[p] == old_diffs[p]);
                    assert forall|m: int|
                        0 <= m < i && classify(
                            lookup(source_files@, (#[trigger] keys@[m])@),
                            lookup(dest_files@, keys@[m]@),
                            compare_content,
                        ) is Some implies has_key(diffs@, keys@[m]@) by {
                        let p = choose|p: int|
                            0 <= p < old_diffs.len() && (#[trigger] old_diffs[p]).key@
                                == keys@[m]@;
                        assert(diffs@[p].key@ == keys@[m]@);
                    }
                }
            },
            None => {},
        }
        i = i + 1;
    }
    proof {
        assert forall|j: int|
            0 <= j < source_files@.len() && classify(
                lookup(source_files@, (#[trigger] source_files@[j]).key@),
                lookup(dest_files@, source_files@[j].key@),
                compare_content,
            ) is Some implies has_key(diffs@, source_files@[j].key@) by {
            let m = choose|m: int|
                0 <= m < keys@.len() && (#[trigger] keys@[m])@ == source_files@[j].key@;
            assert(classify(
                lookup(source_files@, keys@[m]@),
                lookup(dest_files@, keys@[m]@),
                compare_content,
            ) is Some);
        }
        assert forall|j: int|
            0 <= j < dest_files@.len() && classify(
                lookup(source_files@, (#[trigger] dest_files@[j]).key@),
                lookup(dest_files@, dest_files@[j].key@),
                compare_content,
            ) is Some implies has_key(diffs@, dest_files@[j].key@) by {
            let m = choose|m: int|
                0 <= m < keys@.len() && (#[trigger] keys@[m])@ == dest_files@[j].key@;
            assert(classify(
                lookup(source_files@, keys@[m]@),
                lookup(dest_files@, keys@[m]@),
                compare_content,
            ) is Some);
        }
    }
    diffs
}

/// Collects the metadata of one local file from its content: the size is
/// the byte count, and the MD5 digest is taken only when asked for.
pub fn make_local_meta(key: String, path: String, data: &[u8], want_digest: bool) -> (m: ObjectMeta)
    ensures
        m.key@ == key@,
        m.path@ == path@,
        m.size == data@.len(),
        want_digest ==> etag_view(m) == Some(crate::checksum::md5_hex(data@)),
        !want_digest ==> etag_view(m) is None,
{
    let size = data.len() as u64;
    let etag = if want_digest {
        Some(crate::checksum::compute_md5_hex(data))
    } else {
        None
    };
    ObjectMeta { key, path, size, etag }
}

/// The number of entries of one classification.
pub open spec fn count_kind(d: Seq<DiffEntry>, t: DiffType) -> int
    decreases d.len(),
{
    if d.len() == 0 {
        0
    } else {
        count_kind(d.drop_last(), t) + if d.last().kind == t {
            1int
        } else {
            0int
        }
    }
}

/// Per-category counts and the grand total, derived from the reported
/// sequence.
pub struct DiffSummary {
    pub only_in_source: u64,
    pub only_in_dest: u64,
    pub size_differs: u64,
    pub content_differs: u64,
    pub total: u64,
}

/// Counts the reported differences by classification.
pub fn diff_summary(diffs: &Vec<DiffEntry>) -> (s: DiffSummary)
    ensures
        s.only_in_source == count_kind(diffs@, DiffType::OnlyInSource),
        s.only_in_dest == count_kind(diffs@, DiffType::OnlyInDest),
        s.size_differs == count_kind(diffs@, DiffType::SizeDiffers),
        s.content_differs == count_kind(diffs@, DiffType::ContentDiffers),
        s.total == diffs@.len(),
{
    let mut only_in_source: u64 = 0;
    let mut only_in_dest: u64 = 0;
    let mut size_differs: u64 = 0;
    let mut content_differs: u64 = 0;
    let mut i: usize = 0;
    while i < diffs.len()
        invariant
            i <= diffs@.len(),
            only_in_source <= i,
            only_in_dest <= i,
            size_differs <= i,
            content_differs <= i,
            only_in_source == count_kind(diffs@.take(i as int), DiffType::OnlyInSource),
            only_in_dest == count_kind(diffs@.take(i as int), DiffType::OnlyInDest),
            size_differs == count_kind(diffs@.take(i as int), DiffType::SizeDiffers),
            content_differs == count_kind(diffs@.take(i as int), DiffType::ContentDiffers),
        decreases diffs@.len() - i,
    {
        proof {
            assert(diffs@.take(i + 1).drop_last() =~= diffs@.take(i as int));
            assert(diffs@.take(i + 1).last() == diffs@[i as int]);
        }
        match diffs[i].kind {
            DiffType::OnlyInSource => {
                only_in_source = only_in_source + 1;
            },
            DiffType::OnlyInDest => {
                only_in_dest = only_in_dest + 1;
            },
            DiffType::SizeDiffers => {
                size_differs = size_differs + 1;
            },
            DiffType::ContentDiffers => {
                content_differs = content_differs + 1;
            },
        }
        i = i + 1;
    }
    proof {
        assert(diffs@.take(diffs@.len() as int) =~= diffs@);
    }
    DiffSummary {
        only_in_source,
        only_in_dest,
        size_differs,
        content_differs,
        total: diffs.len() as u64,
    }
}

/// The classification a key takes when the two sides swap roles.
pub open spec fn swap_kind(t: DiffType) -> DiffType {
    match t {
        DiffType::OnlyInSource => DiffType::OnlyInDest,
        DiffType::OnlyInDest => DiffType::OnlyInSource,
        DiffType::SizeDiffers => DiffType::SizeDiffers,
        DiffType::ContentDiffers => DiffType::ContentDiffers,
    }
}

/// Comparing in the reverse direction swaps OnlyInSource with OnlyInDest
/// at every key and leaves SizeDiffers and ContentDiffers unchanged: the
/// classification of a key under `(b, a)` is the swap of its
/// classification under `(a, b)`.
pub proof fn lemma_diff_swap(a: Seq<ObjectMeta>, b: Seq<ObjectMeta>, k: Seq<char>, cc: bool)
    ensures
        classify(lookup(b, k), lookup(a, k), cc) == (match classify(lookup(a, k), lookup(b, k), cc) {
            Some(t) => Some(swap_kind(t)),
            None => None::<DiffType>,
        }),
{
}

proof fn lemma_entries_apart(d: Seq<DiffEntry>, i: int, j: int)
    requires
        entries_sorted(d),
        0 <= i < j < d.len(),
    ensures
        lex_lt(d[i].key@, d[j].key@),
    decreases j - i,
{
    if i + 1 == j {
    } else {
        lemma_entries_apart(d, i + 1, j);
        lemma_lex_trans(d[i].key@, d[i + 1].key@, d[j].key@);
    }
}

proof fn lemma_lookup_some_key(s: Seq<ObjectMeta>, k: Seq<char>)
    requires
        lookup(s, k) is Some,
    ensures
        exists|j: int| 0 <= j < s.len() && (#[trigger] s[j]).key@ == k,
    decreases s.len(),
{
    if s.len() > 0 && s[0].key@ != k {
        lemma_lookup_some_key(s.drop_first(), k);
        let j = choose|j: int|
            0 <= j < s.drop_first().len() && (#[trigger] s.drop_first()[j]).key@ == k;
        assert(s[j + 1].key@ == k);
    }
}

proof fn lemma_sorted_equal_keys(d1: Seq<DiffEntry>, d2: Seq<DiffEntry>)
    requires
        entries_sorted(d1),
        entries_sorted(d2),
        forall|k: Seq<char>|
            #![trigger has_key(d1, k)]
            #![trigger has_key(d2, k)]
            has_key(d1, k) <==> has_key(d2, k),
    ensures
        d1.len() == d2.len(),
        forall|i: int| 0 <= i < d1.len() ==> (#[trigger] d1[i]).key@ == d2[i].key@,
    decreases d1.len(),
{
    if d1.len() == 0 {
        if d2.len() > 0 {
            assert(has_key(d2, d2[0].key@));
            assert(false);
        }
    } else if d2.len() == 0 {
        assert(has_key(d1, d1[0].key@));
        assert(false);
    } else {
        assert(has_key(d1, d1[0].key@));
        let j = choose|j: int| 0 <= j < d2.len() && d2[j].key@ == d1[0].key@;
        assert(has_key(d2, d2[0].key@));
        let i = choose|i: int| 0 <= i < d1.len() && d1[i].key@ == d2[0].key@;
        if d1[0].key@ != d2[0].key@ {
            assert(j > 0);
            assert(i > 0);
            lemma_entries_apart(d2, 0, j);
            lemma_entries_apart(d1, 0, i);
            lemma_lex_trans(d1[0].key@, d2[0].key@, d1[0].key@);
            lemma_lex_trichotomy(d1[0].key@, d1[0].key@);
            assert(false);
        }
        let t1 = d1.drop_first();
        let t2 = d2.drop_first();
        assert(forall|p: int| 0 <= p < t1.len() ==> #[trigger] t1[p] == d1[p + 1]);
        assert(forall|p: int| 0 <= p < t2.len() ==> #[trigger] t2[p] == d2[p + 1]);
        assert(entries_sorted(t1));
        assert(entries_sorted(t2));
        assert forall|k: Seq<char>|
            #![trigger has_key(t1, k)]
            #![trigger has_key(t2, k)]
            has_key(t1, k) <==> has_key(t2, k) by {
            if has_key(t1, k) {
                let p = choose|p: int| 0 <= p < t1.len() && t1[p].key@ == k;
                assert(d1[p + 1].key@ == k);
                assert(has_key(d1, k));
                lemma_entries_apart(d1, 0, p + 1);
                lemma_lex_trichotomy(d1[0].key@, k);
                let q = choose|q: int| 0 <= q < d2.len() && d2[q].key@ == k;
                assert(q > 0);
                assert(t2[q - 1].key@ == k);
                assert(has_key(t2, k));
            }
            if has_key(t2, k) {
                let p = choose|p: int| 0 <= p < t2.len() && t2[p].key@ == k;
                assert(d2[p + 1].key@ == k);
                assert(has_key(d2, k));
                lemma_entries_apart(d2, 0, p + 1);
                lemma_lex_trichotomy(d2[0].key@, k);
                let q = choose|q: int| 0 <= q < d1.len() && d1[q].key@ == k;
                assert(q > 0);
                assert(t1[q - 1].key@ == k);
                assert(has_key(t1, k));
            }
        }
        lemma_sorted_equal_keys(t1, t2);
        assert forall|p: int| 0 <= p < d1.len() implies (#[trigger] d1[p]).key@ == d2[p].key@ by {
            if p > 0 {
                assert(t1[p - 1].key@ == t2[p - 1].key@);
            }
        }
    }
}

/// Reversing the direction of a comparison swaps OnlyInSource with
/// OnlyInDest and keeps SizeDiffers and ContentDiffers: two reports that
/// satisfy the compare contract for `(a, b)` and for `(b, a)` walk the
/// same keys in the same order, each key classified in the second report
/// as the swap of its classification in the first.
pub proof fn lemma_compare_swap(
    a: Seq<ObjectMeta>,
    b: Seq<ObjectMeta>,
    cc: bool,
    fwd: Seq<DiffEntry>,
    rev: Seq<DiffEntry>,
)
    requires
        diff_report_ok(a, b, cc, fwd),
        diff_report_ok(b, a, cc, rev),
    ensures
        fwd.len() == rev.len(),
        forall|i: int|
            0 <= i < fwd.len() ==> (#[trigger] rev[i]).key@ == fwd[i].key@ && rev[i].kind
                == swap_kind(fwd[i].kind),
{
    assert forall|k: Seq<char>|
        #![trigger has_key(fwd, k)]
        #![trigger has_key(rev, k)]
        has_key(fwd, k) <==> has_key(rev, k) by {
        lemma_diff_swap(a, b, k, cc);
        if has_key(fwd, k) {
            let i = choose|i: int| 0 <= i < fwd.len() && fwd[i].key@ == k;
            assert(classify(lookup(a, fwd[i].key@), lookup(b, fwd[i].key@), cc) == Some(
                fwd[i].kind,
            ));
            assert(classify(lookup(b, k), lookup(a, k), cc) is Some);
            if lookup(b, k) is Some {
                lemma_lookup_some_key(b, k);
                let j = choose|j: int| 0 <= j < b.len() && (#[trigger] b[j]).key@ == k;
                assert(classify(lookup(b, b[j].key@), lookup(a, b[j].key@), cc) is Some);
            } else {
                lemma_lookup_some_key(a, k);
                let j = choose|j: int| 0 <= j < a.len() && (#[trigger] a[j]).key@ == k;
                assert(classify(lookup(b, a[j].key@), lookup(a, a[j].key@), cc) is Some);
            }
        }
        if has_key(rev, k) {
            let i = choose|i: int| 0 <= i < rev.len() && rev[i].key@ == k;
            assert(classify(lookup(b, rev[i].key@), lookup(a, rev[i].key@), cc) == Some(
                rev[i].kind,
            ));
            assert(classify(lookup(a, k), lookup(b, k), cc) is Some);
            if lookup(a, k) is Some {
                lemma_lookup_some_key(a, k);
                let j = choose|j: int| 0 <= j < a.len() && (#[trigger] a[j]).key@ == k;
                assert(classify(lookup(a, a[j].key@), lookup(b, a[j].key@), cc) is Some);
            } else {
                lemma_lookup_some_key(b, k);
                let j = choose|j: int| 0 <= j < b.len() && (#[trigger] b[j]).key@ == k;
                assert(classify(lookup(a, b[j].key@), lookup(b, b[j].key@), cc) is Some);
            }
        }
    }
    lemma_sorted_equal_keys(fwd, rev);
    assert forall|i: int|
        0 <= i < fwd.len() implies (#[trigger] rev[i]).key@ == fwd[i].key@ && rev[i].kind
        == swap_kind(fwd[i].kind) by {
        let k = fwd[i].key@;
        assert(classify(lookup(a, k), lookup(b, k), cc) == Some(fwd[i].kind));
        assert(classify(lookup(b, rev[i].key@), lookup(a, rev[i].key@), cc) == Some(rev[i].kind));
        lemma_diff_swap(a, b, k, cc);
    }
}

/// Content comparison at one key present on both sides with equal size:
/// equal digests report nothing; differing digests report ContentDiffers,
/// but only when both sides actually expose a digest — a one-sided
/// missing digest silently skips the content comparison.
pub proof fn lemma_content_compare(s: ObjectMeta, d: ObjectMeta)
    requires
        s.size == d.size,
    ensures
        etag_view(s) == etag_view(d) ==> classify(Some(s), Some(d), true) is None,
        (etag_view(s) is Some && etag_view(d) is Some && etag_view(s) != etag_view(d)) ==> classify(
            Some(s),
            Some(d),
            true,
        ) == Some(DiffType::ContentDiffers),
        (etag_view(s) is None || etag_view(d) is None) ==> classify(Some(s), Some(d), true) is None,
{
}

} // verus!
