use vstd::prelude::*;

use crate::candidate_state::PREVIEW_SLOT_COUNT;
use crate::clip::ClipId;
use crate::text::{
    char_is_whitespace, chars_of, is_blank, is_white_space, lemma_seq_less_irreflexive,
    lemma_seq_less_total, lemma_seq_less_transitive, seq_less, str_eq, str_is_blank, str_less,
    string_from_chars, string_views,
};

verus! {

/// At most this many clips are loaded.
pub const MAX_CLIPS: usize = 8;

/// One entry of the clip manifest: the MP4 file it describes, and whether its feature
/// values are finite and within 0 to 1.
#[derive(Debug)]
pub struct ManifestRecord {
    pub file: String,
    pub features_ok: bool,
}

/// What became of a manifest entry.
#[derive(Clone, Copy, Debug, PartialEq, Eq, Structural)]
pub enum EntryOutcome {
    /// `file` is not a plain file name in the media folder.
    NotDirectFileName,
    /// An earlier entry already names the same file.
    DuplicateFile,
    /// The media folder holds no MP4 of that name.
    MissingMp4,
    /// The feature values are out of range.
    InvalidFeatures,
    /// The file name is blank.
    InvalidClipId,
    /// The entry describes a clip.
    Accepted,
}

/// A remark about the media folder, for the user.
#[derive(Clone, Copy, Debug, PartialEq, Eq, Structural)]
pub enum ManifestNotice {
    /// Manifest entry `entry` was left out because its file is not a plain file name.
    NotDirectFileName { entry: usize },
    /// Manifest entry `entry` was left out because an earlier entry names its file.
    DuplicateFile { entry: usize },
    /// Manifest entry `entry` was left out because its MP4 is missing.
    MissingMp4 { entry: usize },
    /// Manifest entry `entry` was left out because of its feature values.
    InvalidFeatures { entry: usize },
    /// Manifest entry `entry` was left out because its file name is blank.
    InvalidClipId { entry: usize },
    /// MP4 file `file` (an index into the folder's MP4 files) has no manifest entry.
    UnreferencedMp4 { file: usize },
    /// `excluded` accepted entries were left out, beyond the first eight by name.
    TooManyClips { excluded: usize },
    /// No entry was accepted.
    NoValidClips,
    /// Only `count` clips were loaded, fewer than the preview slots; the rest show nothing.
    FewClips { count: usize },
}

/// A manifest entry that became a clip.
#[derive(Debug)]
pub struct AcceptedClip {
    pub entry: usize,
    pub id: ClipId,
}

/// The clips to load from a media folder, and the remarks about it.
#[derive(Debug)]
pub struct ManifestPlan {
    pub accepted: Vec<AcceptedClip>,
    pub notices: Vec<ManifestNotice>,
}

/// The file names of manifest entries.
pub open spec fn files_of(entries: Seq<ManifestRecord>) -> Seq<Seq<char>> {
    entries.map_values(|e: ManifestRecord| e.file@)
}

/// What becomes of entry `i`, given which entries name a plain file (`direct`) and the
/// names of the MP4 files in the folder.
pub open spec fn entry_outcome(
    entries: Seq<ManifestRecord>,
    direct: Seq<bool>,
    mp4: Seq<Seq<char>>,
    i: int,
) -> EntryOutcome {
    let files = files_of(entries);
    if !direct[i] {
        EntryOutcome::NotDirectFileName
    } else if exists|j: int| 0 <= j < i && direct[j] && #[trigger] files[j] == files[i] {
        EntryOutcome::DuplicateFile
    } else if !mp4.contains(files[i]) {
        EntryOutcome::MissingMp4
    } else if !entries[i].features_ok {
        EntryOutcome::InvalidFeatures
    } else if is_blank(files[i]) {
        EntryOutcome::InvalidClipId
    } else {
        EntryOutcome::Accepted
    }
}

/// The notice for an entry with outcome `outcome`; none for an accepted one.
pub open spec fn outcome_notice(outcome: EntryOutcome, entry: usize) -> Seq<ManifestNotice> {
    match outcome {
        EntryOutcome::NotDirectFileName => seq![ManifestNotice::NotDirectFileName { entry }],
        EntryOutcome::DuplicateFile => seq![ManifestNotice::DuplicateFile { entry }],
        EntryOutcome::MissingMp4 => seq![ManifestNotice::MissingMp4 { entry }],
        EntryOutcome::InvalidFeatures => seq![ManifestNotice::InvalidFeatures { entry }],
        EntryOutcome::InvalidClipId => seq![ManifestNotice::InvalidClipId { entry }],
        EntryOutcome::Accepted => Seq::empty(),
    }
}

/// The notices for the first `n` entries, in order.
pub open spec fn entry_notices(
    entries: Seq<ManifestRecord>,
    direct: Seq<bool>,
    mp4: Seq<Seq<char>>,
    n: int,
) -> Seq<ManifestNotice>
    decreases n,
{
    if n <= 0 {
        Seq::empty()
    } else {
        entry_notices(entries, direct, mp4, n - 1) + outcome_notice(
            entry_outcome(entries, direct, mp4, n - 1),
            (n - 1) as usize,
        )
    }
}

/// Some entry that names a plain file names `name`.
pub open spec fn is_referenced(
    entries: Seq<ManifestRecord>,
    direct: Seq<bool>,
    name: Seq<char>,
) -> bool {
    exists|j: int| 0 <= j < entries.len() && direct[j] && #[trigger] files_of(entries)[j] == name
}

/// The notices for the first `m` MP4 files that no entry references, in order.
pub open spec fn unreferenced_notices(
    entries: Seq<ManifestRecord>,
    direct: Seq<bool>,
    mp4: Seq<Seq<char>>,
    m: int,
) -> Seq<ManifestNotice>
    decreases m,
{
    if m <= 0 {
        Seq::empty()
    } else if is_referenced(entries, direct, mp4[m - 1]) {
        unreferenced_notices(entries, direct, mp4, m - 1)
    } else {
        unreferenced_notices(entries, direct, mp4, m - 1).push(
            ManifestNotice::UnreferencedMp4 { file: (m - 1) as usize },
        )
    }
}

/// How many of the first `n` entries are accepted.
pub open spec fn accepted_count(
    entries: Seq<ManifestRecord>,
    direct: Seq<bool>,
    mp4: Seq<Seq<char>>,
    n: int,
) -> nat
    decreases n,
{
    if n <= 0 {
        0
    } else {
        accepted_count(entries, direct, mp4, n - 1) + if entry_outcome(entries, direct, mp4, n - 1)
            == EntryOutcome::Accepted {
            1nat
        } else {
            0nat
        }
    }
}

/// All the notices, in the order the user reads them: one per refused entry, one per MP4
/// without an entry, then whether clips were left out for the limit or none remain.
pub open spec fn manifest_notices(
    entries: Seq<ManifestRecord>,
    direct: Seq<bool>,
    mp4: Seq<Seq<char>>,
) -> Seq<ManifestNotice> {
    let count = accepted_count(entries, direct, mp4, entries.len() as int);
    entry_notices(entries, direct, mp4, entries.len() as int) + unreferenced_notices(
        entries,
        direct,
        mp4,
        mp4.len() as int,
    ) + if count > MAX_CLIPS {
        seq![ManifestNotice::TooManyClips { excluded: (count - MAX_CLIPS) as usize }]
    } else {
        Seq::empty()
    } + if count == 0 {
        seq![ManifestNotice::NoValidClips]
    } else {
        Seq::empty()
    }
}

/// The manifest entry a notice is about, or -1 for a notice about no entry.
pub open spec fn notice_entry(notice: ManifestNotice) -> int {
    match notice {
        ManifestNotice::NotDirectFileName { entry } => entry as int,
        ManifestNotice::DuplicateFile { entry } => entry as int,
        ManifestNotice::MissingMp4 { entry } => entry as int,
        ManifestNotice::InvalidFeatures { entry } => entry as int,
        ManifestNotice::InvalidClipId { entry } => entry as int,
        _ => -1,
    }
}

/// `notice` is the notice of one of the first `n` entries, a refused one, and says why it
/// was refused.
pub open spec fn is_entry_notice(
    entries: Seq<ManifestRecord>,
    direct: Seq<bool>,
    mp4: Seq<Seq<char>>,
    n: int,
    notice: ManifestNotice,
) -> bool {
    let e = notice_entry(notice);
    &&& 0 <= e < n
    &&& entry_outcome(entries, direct, mp4, e) != EntryOutcome::Accepted
    &&& seq![notice] == outcome_notice(entry_outcome(entries, direct, mp4, e), e as usize)
}

/// Some notice in `notices` is about entry `i`.
pub open spec fn has_notice_for(notices: Seq<ManifestNotice>, i: int) -> bool {
    exists|k: int| 0 <= k < notices.len() && notice_entry(#[trigger] notices[k]) == i
}

/// Each of the first `n` entries that is refused gets exactly one notice, which names it
/// and says why, in the order of the entries; an accepted entry gets none. So the
/// notices and the accepted entries together number `n`.
pub proof fn lemma_one_notice_per_refused_entry(
    entries: Seq<ManifestRecord>,
    direct: Seq<bool>,
    mp4: Seq<Seq<char>>,
    n: int,
)
    requires
        0 <= n <= entries.len(),
        entries.len() <= usize::MAX,
        direct.len() == entries.len(),
    ensures
        entry_notices(entries, direct, mp4, n).len() + accepted_count(entries, direct, mp4, n)
            == n,
        forall|k: int|
            0 <= k < entry_notices(entries, direct, mp4, n).len() ==> is_entry_notice(
                entries,
                direct,
                mp4,
                n,
                #[trigger] entry_notices(entries, direct, mp4, n)[k],
            ),
        forall|k: int, l: int|
            0 <= k < l < entry_notices(entries, direct, mp4, n).len() ==> notice_entry(
                #[trigger] entry_notices(entries, direct, mp4, n)[k],
            ) < notice_entry(#[trigger] entry_notices(entries, direct, mp4, n)[l]),
        forall|i: int|
            0 <= i < n && #[trigger] entry_outcome(entries, direct, mp4, i)
                != EntryOutcome::Accepted ==> has_notice_for(
                entry_notices(entries, direct, mp4, n),
                i,
            ),
    decreases n,
{
    if n > 0 {
        lemma_one_notice_per_refused_entry(entries, direct, mp4, n - 1);
        let prev = entry_notices(entries, direct, mp4, n - 1);
        let o = entry_outcome(entries, direct, mp4, n - 1);
        let tail = outcome_notice(o, (n - 1) as usize);
        let ns = entry_notices(entries, direct, mp4, n);
        assert(ns == prev + tail);
        if o == EntryOutcome::Accepted {
            assert(ns =~= prev);
        } else {
            assert forall|k: int| 0 <= k < prev.len() implies ns[k] == prev[k] by {}
            assert(tail.len() == 1);
            assert(notice_entry(tail[0]) == n - 1);
            assert(ns[prev.len() as int] == tail[0]);
            assert(tail =~= seq![tail[0]]);
            assert forall|i: int|
                0 <= i < n && #[trigger] entry_outcome(entries, direct, mp4, i)
                    != EntryOutcome::Accepted implies has_notice_for(ns, i) by {
                if i < n - 1 {
                    assert(has_notice_for(prev, i));
                    let k = choose|k: int|
                        0 <= k < prev.len() && notice_entry(#[trigger] prev[k]) == i;
                    assert(ns[k] == prev[k]);
                } else {
                    assert(notice_entry(ns[prev.len() as int]) == i);
                }
            }
        }
    }
}

/// `notice` is the notice of one of the first `m` MP4 files, one that no entry names.
pub open spec fn is_unreferenced_notice(
    entries: Seq<ManifestRecord>,
    direct: Seq<bool>,
    mp4: Seq<Seq<char>>,
    m: int,
    notice: ManifestNotice,
) -> bool {
    &&& notice is UnreferencedMp4
    &&& 0 <= notice->file < m
    &&& !is_referenced(entries, direct, mp4[notice->file as int])
}

/// Each MP4 file among the first `m` that no entry names gets exactly one notice, which
/// names it, in the order of the files; a file that an entry names gets none.
pub proof fn lemma_one_notice_per_unreferenced_mp4(
    entries: Seq<ManifestRecord>,
    direct: Seq<bool>,
    mp4: Seq<Seq<char>>,
    m: int,
)
    requires
        0 <= m <= mp4.len(),
        mp4.len() <= usize::MAX,
    ensures
        forall|k: int|
            0 <= k < unreferenced_notices(entries, direct, mp4, m).len() ==> is_unreferenced_notice(
                entries,
                direct,
                mp4,
                m,
                #[trigger] unreferenced_notices(entries, direct, mp4, m)[k],
            ),
        forall|k: int, l: int|
            0 <= k < l < unreferenced_notices(entries, direct, mp4, m).len() ==> (
            #[trigger] unreferenced_notices(entries, direct, mp4, m)[k])->file < (
            #[trigger] unreferenced_notices(entries, direct, mp4, m)[l])->file,
        forall|f: int|
            0 <= f < m && !is_referenced(entries, direct, #[trigger] mp4[f])
                ==> unreferenced_notices(entries, direct, mp4, m).contains(
                (ManifestNotice::UnreferencedMp4 { file: f as usize }),
            ),
    decreases m,
{
    if m > 0 {
        lemma_one_notice_per_unreferenced_mp4(entries, direct, mp4, m - 1);
        let prev = unreferenced_notices(entries, direct, mp4, m - 1);
        let ns = unreferenced_notices(entries, direct, mp4, m);
        if !is_referenced(entries, direct, mp4[m - 1]) {
            let last = ManifestNotice::UnreferencedMp4 { file: (m - 1) as usize };
            assert(ns == prev.push(last));
            assert(ns[prev.len() as int] == last);
            assert forall|k: int| 0 <= k < prev.len() implies ns[k] == prev[k] by {}
            assert forall|f: int|
                0 <= f < m && !is_referenced(entries, direct, #[trigger] mp4[f]) implies ns.contains(
                (ManifestNotice::UnreferencedMp4 { file: f as usize }),
            ) by {
                let target = ManifestNotice::UnreferencedMp4 { file: f as usize };
                if f < m - 1 {
                    assert(prev.contains(target));
                    let k = choose|k: int| 0 <= k < prev.len() && prev[k] == target;
                    assert(ns[k] == prev[k]);
                } else {
                    assert(ns[prev.len() as int] == target);
                }
            }
        }
    }
}

/// The notice for a folder from which only `loaded` clips could be shown: one when there
/// are fewer than the preview slots.
pub fn shortfall_notice(loaded: usize) -> (notice: Option<ManifestNotice>)
    ensures
        notice == if loaded < PREVIEW_SLOT_COUNT {
            Some(ManifestNotice::FewClips { count: loaded })
        } else {
            None
        },
{
    if loaded < PREVIEW_SLOT_COUNT {
        Some(ManifestNotice::FewClips { count: loaded })
    } else {
        None
    }
}

/// `chosen` lists the accepted entries that are loaded: sorted by file name, the first
/// eight of them, or all when there are fewer.
pub open spec fn is_clip_selection(
    entries: Seq<ManifestRecord>,
    direct: Seq<bool>,
    mp4: Seq<Seq<char>>,
    chosen: Seq<usize>,
) -> bool {
    let files = files_of(entries);
    let count = accepted_count(entries, direct, mp4, entries.len() as int);
    &&& chosen.len() == if count < MAX_CLIPS {
        count
    } else {
        MAX_CLIPS as nat
    }
    &&& forall|k: int|
        0 <= k < chosen.len() ==> #[trigger] chosen[k] < entries.len() && entry_outcome(
            entries,
            direct,
            mp4,
            chosen[k] as int,
        ) == EntryOutcome::Accepted
    &&& forall|k: int, l: int|
        0 <= k < l < chosen.len() ==> seq_less(
            files[#[trigger] chosen[k] as int],
            files[#[trigger] chosen[l] as int],
        )
    &&& forall|i: int, k: int|
        0 <= i < entries.len() && entry_outcome(entries, direct, mp4, i) == EntryOutcome::Accepted
            && !chosen.contains(i as usize) && 0 <= k < chosen.len() ==> seq_less(
            files[#[trigger] chosen[k] as int],
            #[trigger] files[i],
        )
}

/// The plan for a manifest, given which entries name a plain file.
pub open spec fn is_manifest_plan(
    entries: Seq<ManifestRecord>,
    direct: Seq<bool>,
    mp4: Seq<Seq<char>>,
    plan: ManifestPlan,
) -> bool {
    &&& plan.notices@ == manifest_notices(entries, direct, mp4)
    &&& is_clip_selection(
        entries,
        direct,
        mp4,
        plan.accepted@.map_values(|a: AcceptedClip| a.entry),
    )
    &&& forall|k: int|
        0 <= k < plan.accepted@.len() ==> (#[trigger] plan.accepted@[k]).id@ == files_of(
            entries,
        )[plan.accepted@[k].entry as int]
}

/// Two accepted entries never name the same file.
pub proof fn lemma_accepted_files_distinct(
    entries: Seq<ManifestRecord>,
    direct: Seq<bool>,
    mp4: Seq<Seq<char>>,
    i: int,
    j: int,
)
    requires
        0 <= i < entries.len(),
        0 <= j < entries.len(),
        direct.len() == entries.len(),
        i != j,
        entry_outcome(entries, direct, mp4, i) == EntryOutcome::Accepted,
        entry_outcome(entries, direct, mp4, j) == EntryOutcome::Accepted,
    ensures
        files_of(entries)[i] != files_of(entries)[j],
{
    let files = files_of(entries);
    if j < i {
        if files[j] == files[i] {
            assert(direct[j] && files[j] == files[i]);
        }
    } else {
        if files[j] == files[i] {
            assert(direct[i] && files[i] == files[j]);
        }
    }
}

fn earlier_direct_match(entries: &[ManifestRecord], direct: &[bool], i: usize) -> (r: bool)
    requires
        i < entries@.len(),
        direct@.len() == entries@.len(),
    ensures
        r == exists|j: int|
            0 <= j < i && direct@[j] && #[trigger] files_of(entries@)[j] == files_of(entries@)[i as int],
{
    let ghost files = files_of(entries@);
    let mut j: usize = 0;
    while j < i
        invariant
            j <= i,
            i < entries@.len(),
            direct@.len() == entries@.len(),
            files == files_of(entries@),
            forall|m: int| 0 <= m < j ==> !(direct@[m] && #[trigger] files[m] == files[i as int]),
        decreases i - j,
    {
        if direct[j] && str_eq(entries[j].file.as_str(), entries[i].file.as_str()) {
            assert(files[j as int] == files[i as int]);
            return true;
        }
        j = j + 1;
    }
    false
}

fn names_contain(names: &[String], name: &str) -> (r: bool)
    ensures
        r == string_views(names@).contains(name@),
{
    let ghost views = string_views(names@);
    let mut k: usize = 0;
    while k < names.len()
        invariant
            k <= names@.len(),
            views == string_views(names@),
            forall|m: int| 0 <= m < k ==> views[m] != name@,
        decreases names.len() - k,
    {
        if str_eq(names[k].as_str(), name) {
            assert(views[k as int] == name@);
            return true;
        }
        k = k + 1;
    }
    false
}

fn referenced(entries: &[ManifestRecord], direct: &[bool], name: &str) -> (r: bool)
    requires
        direct@.len() == entries@.len(),
    ensures
        r == is_referenced(entries@, direct@, name@),
{
    let ghost files = files_of(entries@);
    let mut j: usize = 0;
    while j < entries.len()
        invariant
            j <= entries@.len(),
            direct@.len() == entries@.len(),
            files == files_of(entries@),
            forall|m: int| 0 <= m < j ==> !(direct@[m] && #[trigger] files[m] == name@),
        decreases entries.len() - j,
    {
        if direct[j] && str_eq(entries[j].file.as_str(), name) {
            assert(files[j as int] == name@);
            return true;
        }
        j = j + 1;
    }
    false
}

fn classify(entries: &[ManifestRecord], direct: &[bool], mp4: &[String], i: usize) -> (o:
    EntryOutcome)
    requires
        i < entries@.len(),
        direct@.len() == entries@.len(),
    ensures
        o == entry_outcome(entries@, direct@, string_views(mp4@), i as int),
{
    let ghost files = files_of(entries@);
    assert(files[i as int] == entries@[i as int].file@);
    if !direct[i] {
        EntryOutcome::NotDirectFileName
    } else if earlier_direct_match(entries, direct, i) {
        EntryOutcome::DuplicateFile
    } else if !names_contain(mp4, entries[i].file.as_str()) {
        EntryOutcome::MissingMp4
    } else if !entries[i].features_ok {
        EntryOutcome::InvalidFeatures
    } else if str_is_blank(entries[i].file.as_str()) {
        EntryOutcome::InvalidClipId
    } else {
        EntryOutcome::Accepted
    }
}

fn notice_for(outcome: EntryOutcome, entry: usize) -> (n: Option<ManifestNotice>)
    ensures
        match n {
            Some(notice) => outcome_notice(outcome, entry) == seq![notice],
            None => outcome_notice(outcome, entry) == Seq::<ManifestNotice>::empty(),
        },
{
    match outcome {
        EntryOutcome::NotDirectFileName => Some(ManifestNotice::NotDirectFileName { entry }),
        EntryOutcome::DuplicateFile => Some(ManifestNotice::DuplicateFile { entry }),
        EntryOutcome::MissingMp4 => Some(ManifestNotice::MissingMp4 { entry }),
        EntryOutcome::InvalidFeatures => Some(ManifestNotice::InvalidFeatures { entry }),
        EntryOutcome::InvalidClipId => Some(ManifestNotice::InvalidClipId { entry }),
        EntryOutcome::Accepted => None,
    }
}

/// Plans which manifest entries become clips, given for each entry whether its file is a
/// plain file name in the media folder, and the names of the MP4 files in that folder.
pub fn plan_manifest_with(entries: &[ManifestRecord], direct: &[bool], mp4: &[String]) -> (plan:
    ManifestPlan)
    requires
        direct@.len() == entries@.len(),
    ensures
        is_manifest_plan(entries@, direct@, string_views(mp4@), plan),
{
    let ghost mp4_names = string_views(mp4@);
    let ghost files = files_of(entries@);
    let n = entries.len();
    let mut notices: Vec<ManifestNotice> = Vec::new();
    let mut accepted_entries: Vec<usize> = Vec::new();
    let mut i: usize = 0;
    while i < n
        invariant
            i <= n,
            n == entries@.len(),
            direct@.len() == entries@.len(),
            mp4_names == string_views(mp4@),
            notices@ == entry_notices(entries@, direct@, mp4_names, i as int),
            accepted_entries@.len() == accepted_count(entries@, direct@, mp4_names, i as int),
            accepted_entries@.no_duplicates(),
            forall|k: int|
                0 <= k < accepted_entries@.len() ==> #[trigger] accepted_entries@[k] < i
                    && entry_outcome(entries@, direct@, mp4_names, accepted_entries@[k] as int)
                    == EntryOutcome::Accepted,
            forall|j: int|
                0 <= j < i && entry_outcome(entries@, direct@, mp4_names, j)
                    == EntryOutcome::Accepted ==> accepted_entries@.contains(j as usize),
        decreases n - i,
    {
        let outcome = classify(entries, direct, mp4, i);
        match notice_for(outcome, i) {
            Some(notice) => {
                notices.push(notice);
            },
            None => {
                let ghost before = accepted_entries@;
                accepted_entries.push(i);
                proof {
                    assert forall|a: int, b: int|
                        0 <= a < accepted_entries@.len() && 0 <= b < accepted_entries@.len() && a
                            != b implies accepted_entries@[a] != accepted_entries@[b] by {
                        if a < before.len() && b < before.len() {
                            assert(before[a] == accepted_entries@[a]);
                            assert(before[b] == accepted_entries@[b]);
                        } else if a < before.len() {
                            assert(before[a] < i);
                        } else if b < before.len() {
                            assert(before[b] < i);
                        }
                    }
                    assert forall|j: int|
                        0 <= j < i + 1 && entry_outcome(entries@, direct@, mp4_names, j)
                            == EntryOutcome::Accepted implies accepted_entries@.contains(
                        j as usize,
                    ) by {
                        if j < i {
                            let k = choose|k: int|
                                0 <= k < before.len() && before[k] == j as usize;
                            assert(accepted_entries@[k] == j as usize);
                        } else {
                            assert(accepted_entries@[before.len() as int] == j as usize);
                        }
                    }
                }
            },
        }
        assert(entry_notices(entries@, direct@, mp4_names, i + 1) == entry_notices(
            entries@,
            direct@,
            mp4_names,
            i as int,
        ) + outcome_notice(outcome, i));
        i = i + 1;
    }

    let mut k: usize = 0;
    while k < mp4.len()
        invariant
            k <= mp4@.len(),
            direct@.len() == entries@.len(),
            mp4_names == string_views(mp4@),
            notices@ == entry_notices(entries@, direct@, mp4_names, n as int)
                + unreferenced_notices(entries@, direct@, mp4_names, k as int),
        decreases mp4.len() - k,
    {
        assert(mp4_names[k as int] == mp4@[k as int]@);
        if !referenced(entries, direct, mp4[k].as_str()) {
            notices.push(ManifestNotice::UnreferencedMp4 { file: k });
        }
        k = k + 1;
    }
    assert(unreferenced_notices(entries@, direct@, mp4_names, mp4@.len() as int)
        == unreferenced_notices(entries@, direct@, mp4_names, mp4_names.len() as int));

    // The first accepted entries by file name.
    let total = accepted_entries.len();
    let limit = if total < MAX_CLIPS {
        total
    } else {
        MAX_CLIPS
    };
    let mut used: Vec<bool> = Vec::new();
    let mut p: usize = 0;
    while p < total
        invariant
            p <= total,
            used@.len() == p,
            forall|q: int| 0 <= q < p ==> !used@[q],
        decreases total - p,
    {
        used.push(false);
        p = p + 1;
    }
    let ghost acc = accepted_entries@;
    let mut chosen: Vec<usize> = Vec::new();
    while chosen.len() < limit
        invariant
            n == entries@.len(),
            direct@.len() == entries@.len(),
            files == files_of(entries@),
            acc == accepted_entries@,
            total == acc.len(),
            limit <= total,
            chosen@.len() <= limit,
            used@.len() == total,
            acc.no_duplicates(),
            forall|k: int|
                0 <= k < acc.len() ==> #[trigger] acc[k] < n && entry_outcome(
                    entries@,
                    direct@,
                    mp4_names,
                    acc[k] as int,
                ) == EntryOutcome::Accepted,
            forall|q: int| 0 <= q < total ==> (used@[q] <==> chosen@.contains(#[trigger] acc[q])),
            forall|k: int| 0 <= k < chosen@.len() ==> acc.contains(#[trigger] chosen@[k]),
            chosen@.no_duplicates(),
            forall|k: int, l: int|
                0 <= k < l < chosen@.len() ==> seq_less(
                    files[#[trigger] chosen@[k] as int],
                    files[#[trigger] chosen@[l] as int],
                ),
            forall|q: int, k: int|
                0 <= q < total && !used@[q] && 0 <= k < chosen@.len() ==> seq_less(
                    files[#[trigger] chosen@[k] as int],
                    files[#[trigger] acc[q] as int],
                ),
        decreases limit - chosen@.len(),
    {
        proof {
            if forall|q: int| 0 <= q < total ==> used@[q] {
                assert(acc.to_set().subset_of(chosen@.to_set()));
                acc.unique_seq_to_set();
                chosen@.unique_seq_to_set();
                vstd::set_lib::lemma_len_subset(acc.to_set(), chosen@.to_set());
                assert(false);
            }
        }
        let mut best: usize = 0;
        while used[best]
            invariant
                used@.len() == total,
                best < total,
                exists|q: int| 0 <= q < total && !used@[q] && best <= q,
                forall|q: int| 0 <= q < best ==> used@[q],
            decreases total - best,
        {
            best = best + 1;
        }
        let mut j: usize = best + 1;
        proof {
            lemma_seq_less_irreflexive(files[acc[best as int] as int]);
        }
        while j < total
            invariant
                n == entries@.len(),
                files == files_of(entries@),
                acc == accepted_entries@,
                total == acc.len(),
                used@.len() == total,
                best < total,
                best < j <= total,
                !used@[best as int],
                forall|k: int| 0 <= k < acc.len() ==> #[trigger] acc[k] < n,
                forall|m: int|
                    0 <= m < j && !used@[m] ==> !seq_less(
                        files[#[trigger] acc[m] as int],
                        files[acc[best as int] as int],
                    ),
            decreases total - j,
        {
            let candidate = accepted_entries[j];
            let current = accepted_entries[best];
            assert(files[candidate as int] == entries@[candidate as int].file@);
            assert(files[current as int] == entries@[current as int].file@);
            if !used[j] && str_less(entries[candidate].file.as_str(), entries[current].file.as_str()) {
                proof {
                    assert forall|m: int| 0 <= m < j && !used@[m] implies !seq_less(
                        files[#[trigger] acc[m] as int],
                        files[acc[j as int] as int],
                    ) by {
                        if seq_less(files[acc[m] as int], files[acc[j as int] as int]) {
                            lemma_seq_less_transitive(
                                files[acc[m] as int],
                                files[acc[j as int] as int],
                                files[acc[best as int] as int],
                            );
                        }
                    }
                    lemma_seq_less_irreflexive(files[acc[j as int] as int]);
                }
                best = j;
            }
            j = j + 1;
        }
        let entry = accepted_entries[best];
        let ghost before = chosen@;
        proof {
            assert forall|q: int| 0 <= q < total && !used@[q] && q != best implies seq_less(
                files[acc[best as int] as int],
                files[#[trigger] acc[q] as int],
            ) by {
                lemma_accepted_files_distinct(
                    entries@,
                    direct@,
                    mp4_names,
                    acc[best as int] as int,
                    acc[q] as int,
                );
                lemma_seq_less_total(files[acc[best as int] as int], files[acc[q] as int]);
            }
            assert(!before.contains(entry)) by {
                if before.contains(entry) {
                    assert(used@[best as int]);
                }
            }
        }
        used.set(best, true);
        chosen.push(entry);
        proof {
            assert forall|q: int| 0 <= q < total implies (used@[q] <==> chosen@.contains(
                #[trigger] acc[q],
            )) by {
                if q == best {
                    assert(chosen@[before.len() as int] == entry);
                } else {
                    assert(acc[q] != acc[best as int]);
                    if before.contains(acc[q]) {
                        let k = choose|k: int| 0 <= k < before.len() && before[k] == acc[q];
                        assert(chosen@[k] == acc[q]);
                    }
                    if chosen@.contains(acc[q]) {
                        let k = choose|k: int| 0 <= k < chosen@.len() && chosen@[k] == acc[q];
                        assert(k < before.len());
                        assert(before[k] == acc[q]);
                    }
                }
            }
            assert forall|k: int| 0 <= k < chosen@.len() implies acc.contains(
                #[trigger] chosen@[k],
            ) by {
                if k < before.len() {
                    assert(before[k] == chosen@[k]);
                } else {
                    assert(acc[best as int] == chosen@[k]);
                }
            }
            assert forall|a: int, b: int|
                0 <= a < chosen@.len() && 0 <= b < chosen@.len() && a != b implies chosen@[a]
                != chosen@[b] by {
                if a < before.len() && b < before.len() {
                    assert(before[a] == chosen@[a]);
                    assert(before[b] == chosen@[b]);
                } else if a < before.len() {
                    assert(before.contains(chosen@[a]));
                } else if b < before.len() {
                    assert(before.contains(chosen@[b]));
                }
            }
            assert forall|k: int, l: int| 0 <= k < l < chosen@.len() implies seq_less(
                files[#[trigger] chosen@[k] as int],
                files[#[trigger] chosen@[l] as int],
            ) by {
                assert(chosen@[k] == before[k]);
                if l < before.len() {
                    assert(chosen@[l] == before[l]);
                }
            }
            assert forall|q: int, k: int|
                0 <= q < total && !used@[q] && 0 <= k < chosen@.len() implies seq_less(
                files[#[trigger] chosen@[k] as int],
                files[#[trigger] acc[q] as int],
            ) by {
                if k < before.len() {
                    assert(chosen@[k] == before[k]);
                }
            }
        }
    }

    if total > MAX_CLIPS {
        notices.push(ManifestNotice::TooManyClips { excluded: total - MAX_CLIPS });
    }
    if total == 0 {
        notices.push(ManifestNotice::NoValidClips);
    }

    let mut accepted: Vec<AcceptedClip> = Vec::new();
    let mut c: usize = 0;
    while c < chosen.len()
        invariant
            c <= chosen@.len(),
            accepted@.len() == c,
            n == entries@.len(),
            files == files_of(entries@),
            forall|k: int| 0 <= k < chosen@.len() ==> acc.contains(#[trigger] chosen@[k]),
            forall|k: int|
                0 <= k < acc.len() ==> #[trigger] acc[k] < n && entry_outcome(
                    entries@,
                    direct@,
                    mp4_names,
                    acc[k] as int,
                ) == EntryOutcome::Accepted,
            forall|k: int|
                0 <= k < c ==> (#[trigger] accepted@[k]).entry == chosen@[k] && accepted@[k].id@
                    == files[chosen@[k] as int],
        decreases chosen.len() - c,
    {
        let entry = chosen[c];
        assert(acc.contains(entry));
        assert(files[entry as int] == entries@[entry as int].file@);
        match ClipId::new(entries[entry].file.as_str()) {
            Ok(id) => {
                accepted.push(AcceptedClip { entry, id });
            },
            Err(_) => {
                proof {
                    let k = choose|k: int| 0 <= k < acc.len() && acc[k] == entry;
                    assert(entry_outcome(entries@, direct@, mp4_names, entry as int)
                        == EntryOutcome::Accepted);
                    assert(false);
                }
            },
        }
        c = c + 1;
    }
    let plan = ManifestPlan { accepted, notices };
    proof {
        assert(plan.accepted@.map_values(|a: AcceptedClip| a.entry) =~= chosen@);
        assert forall|i: int, k: int|
            0 <= i < entries@.len() && entry_outcome(entries@, direct@, mp4_names, i)
                == EntryOutcome::Accepted && !chosen@.contains(i as usize) && 0 <= k
                < chosen@.len() implies seq_less(
            files[#[trigger] chosen@[k] as int],
            #[trigger] files[i],
        ) by {
            assert(acc.contains(i as usize));
            let q = choose|q: int| 0 <= q < acc.len() && acc[q] == i as usize;
            assert(!used@[q]);
        }
        assert(plan.notices@ =~= manifest_notices(entries@, direct@, mp4_names));
    }
    plan
}

/// A name that could name a file directly in a folder on any platform: not empty, not `.`
/// or `..`, and without `/`.
pub open spec fn may_be_direct(s: Seq<char>) -> bool {
    &&& s.len() > 0
    &&& s != seq!['.']
    &&& s != seq!['.', '.']
    &&& !s.contains('/')
}

/// A plain file name: one that may be direct and holds neither `\` nor `:`. Such a name
/// is a single normal path component on every platform.
pub open spec fn is_plain_file_name(s: Seq<char>) -> bool {
    &&& may_be_direct(s)
    &&& !s.contains('\\')
    &&& !s.contains(':')
}

/// Calls `Path::file_name` on `file`: the final component of the path, when there is one
/// and it is valid UTF-8. The contract states only that a plain file name is its own final
/// component, which holds on every platform: such a name is one normal component. How any
/// other path is split (which characters separate, what a prefix such as `\\?\` or `C:`
/// changes) depends on the platform and is not stated.
#[verifier::external_body]
fn path_final_component(file: &str) -> (name: Option<String>)
    ensures
        is_plain_file_name(file@) ==> name is Some && name->0@ == file@,
{
    match std::path::Path::new(file).file_name() {
        Some(name) => name.to_str().map(str::to_owned),
        None => None,
    }
}

/// Whether `component`, the final component of path `file`, is `file` itself.
pub fn is_own_final_component(file: &str, component: Option<String>) -> (r: bool)
    ensures
        r == (component matches Some(name) && name@ == file@),
{
    match component {
        Some(name) => str_eq(name.as_str(), file),
        None => false,
    }
}

/// Whether `name` could name a file directly in a folder on any platform.
fn check_may_be_direct(name: &str) -> (r: bool)
    ensures
        r == may_be_direct(name@),
{
    let chars = chars_of(name);
    let n = chars.len();
    if n == 0 {
        return false;
    }
    if n == 1 && chars[0] == '.' {
        assert(name@ =~= seq!['.']);
        return false;
    }
    if n == 2 && chars[0] == '.' && chars[1] == '.' {
        assert(name@ =~= seq!['.', '.']);
        return false;
    }
    let mut k: usize = 0;
    while k < n
        invariant
            k <= n,
            n == chars@.len(),
            chars@ == name@,
            forall|j: int| 0 <= j < k ==> chars@[j] != '/',
        decreases n - k,
    {
        if chars[k] == '/' {
            assert(name@[k as int] == '/');
            return false;
        }
        k = k + 1;
    }
    assert(!name@.contains('/'));
    assert(name@ != seq!['.']) by {
        if name@ == seq!['.'] {
            assert(n == 1 && chars@[0] == '.');
        }
    }
    assert(name@ != seq!['.', '.']) by {
        if name@ == seq!['.', '.'] {
            assert(n == 2 && chars@[0] == '.' && chars@[1] == '.');
        }
    }
    true
}

/// Whether `file` names a file directly inside a folder: it is not empty, `.` or `..`,
/// holds no `/`, and its final path component is the whole of it. A plain file name always
/// does; which other names do (one with `\` or `:`) depends on the platform's paths.
pub fn is_direct_file_name(file: &str) -> (direct: bool)
    ensures
        is_plain_file_name(file@) ==> direct,
        direct ==> may_be_direct(file@),
{
    if !check_may_be_direct(file) {
        return false;
    }
    let component = path_final_component(file);
    is_own_final_component(file, component)
}

/// What the direct-name check may say of each name in `files`: yes for every plain file
/// name, no for every name that could not be direct, and the same for equal names.
pub open spec fn direct_flags_fit(files: Seq<Seq<char>>, direct: Seq<bool>) -> bool {
    &&& direct.len() == files.len()
    &&& forall|i: int|
        0 <= i < files.len() ==> {
            &&& is_plain_file_name(#[trigger] files[i]) ==> direct[i]
            &&& direct[i] ==> may_be_direct(files[i])
        }
    &&& forall|i: int, j: int|
        0 <= i < files.len() && 0 <= j < files.len() && #[trigger] files[i] == #[trigger] files[j]
            ==> direct[i] == direct[j]
}

/// Plans which manifest entries become clips, given the names of the MP4 files in the
/// media folder. Whether an entry names a file directly in the folder is asked once per
/// distinct name, by the platform's paths: a plain file name always does, a name that is
/// empty, `.`, `..` or holds `/` never does; the plan is the one for those answers.
pub fn plan_manifest(entries: &[ManifestRecord], mp4: &[String]) -> (plan: ManifestPlan)
    ensures
        exists|direct: Seq<bool>|
            direct_flags_fit(files_of(entries@), direct) && #[trigger] is_manifest_plan(
                entries@,
                direct,
                string_views(mp4@),
                plan,
            ),
{
    let mut direct: Vec<bool> = Vec::new();
    let mut i: usize = 0;
    while i < entries.len()
        invariant
            i <= entries@.len(),
            direct_flags_fit(files_of(entries@.take(i as int)), direct@),
        decreases entries.len() - i,
    {
        let ghost prefix = files_of(entries@.take(i as int));
        let file = entries[i].file.as_str();
        let mut earlier: Option<usize> = None;
        let mut j: usize = 0;
        while j < i
            invariant
                j <= i,
                i < entries@.len(),
                file@ == entries@[i as int].file@,
                prefix == files_of(entries@.take(i as int)),
                prefix.len() == i,
                match earlier {
                    Some(e) => e < i && prefix[e as int] == file@,
                    None => forall|q: int| 0 <= q < j ==> prefix[q] != file@,
                },
            decreases i - j,
        {
            if earlier.is_none() && str_eq(entries[j].file.as_str(), file) {
                earlier = Some(j);
            }
            j = j + 1;
        }
        let d = match earlier {
            Some(e) => direct[e],
            None => is_direct_file_name(file),
        };
        direct.push(d);
        i = i + 1;
        proof {
            let files = files_of(entries@.take(i as int));
            assert(files =~= prefix.push(file@));
            assert forall|a: int, b: int|
                0 <= a < files.len() && 0 <= b < files.len() && #[trigger] files[a]
                    == #[trigger] files[b] implies direct@[a] == direct@[b] by {
                if a < i - 1 && b < i - 1 {
                    assert(prefix[a] == prefix[b]);
                } else if a < i - 1 {
                    assert(prefix[a] == file@);
                } else if b < i - 1 {
                    assert(prefix[b] == file@);
                }
            }
            assert forall|a: int| 0 <= a < files.len() implies {
                &&& is_plain_file_name(#[trigger] files[a]) ==> direct@[a]
                &&& direct@[a] ==> may_be_direct(files[a])
            } by {
                if a < i - 1 {
                    assert(files[a] == prefix[a]);
                } else if let Some(e) = earlier {
                    assert(files[e as int] == files[a]);
                }
            }
        }
    }
    proof {
        assert(entries@.take(entries@.len() as int) =~= entries@);
    }
    let flags = direct.as_slice();
    let plan = plan_manifest_with(entries, flags, mp4);
    assert(is_manifest_plan(entries@, flags@, string_views(mp4@), plan));
    assert(direct_flags_fit(files_of(entries@), flags@));
    plan
}

/// The width of a preview frame, in pixels.
pub const VIDEO_WIDTH: usize = 320;
/// The height of a preview frame, in pixels.
pub const VIDEO_HEIGHT: usize = 180;
/// How many preview frames a second of video gives.
pub const VIDEO_FRAMES_PER_SECOND: usize = 15;
/// How many seconds of each clip the preview shows.
pub const MAX_VIDEO_SECONDS: usize = 3;
/// The most frames a preview holds.
pub const MAX_VIDEO_FRAMES: usize = VIDEO_FRAMES_PER_SECOND * MAX_VIDEO_SECONDS;
/// The bytes of one RGBA frame.
pub const FRAME_BYTES: usize = VIDEO_WIDTH * VIDEO_HEIGHT * 4;

/// One RGBA preview frame, row by row.
#[derive(Debug)]
pub struct VideoFrame {
    pub rgba: Vec<u8>,
}

/// Why decoded video gave no preview.
#[derive(Clone, Copy, Debug, PartialEq, Eq, Structural)]
pub enum PreviewError {
    /// The output held less than one whole frame.
    NoFrames,
}

/// How many whole frames a preview takes from `len` bytes of raw video.
pub open spec fn frame_count(len: nat) -> nat {
    let whole = len / (FRAME_BYTES as nat);
    if whole < MAX_VIDEO_FRAMES {
        whole
    } else {
        MAX_VIDEO_FRAMES as nat
    }
}

/// Cuts raw RGBA video into preview frames: the whole frames at its start, at most
/// `MAX_VIDEO_FRAMES` of them. Output with no whole frame is refused.
pub fn split_frames(output: &[u8]) -> (frames: Result<Vec<VideoFrame>, PreviewError>)
    ensures
        match frames {
            Ok(frames) => frame_count(output@.len()) > 0 && frames@.len() == frame_count(
                output@.len(),
            ) && forall|k: int|
                0 <= k < frames@.len() ==> (#[trigger] frames@[k]).rgba@ == output@.subrange(
                    k * FRAME_BYTES,
                    (k + 1) * FRAME_BYTES,
                ),
            Err(e) => frame_count(output@.len()) == 0 && e == PreviewError::NoFrames,
        },
{
    let whole = output.len() / FRAME_BYTES;
    let count = if whole < MAX_VIDEO_FRAMES {
        whole
    } else {
        MAX_VIDEO_FRAMES
    };
    if count == 0 {
        return Err(PreviewError::NoFrames);
    }
    assert(count * FRAME_BYTES <= output@.len()) by (nonlinear_arith)
        requires
            count <= whole,
            whole == output@.len() / (FRAME_BYTES as nat),
            FRAME_BYTES > 0,
    ;
    let mut frames: Vec<VideoFrame> = Vec::new();
    let mut k: usize = 0;
    while k < count
        invariant
            k <= count,
            count <= MAX_VIDEO_FRAMES,
            count * FRAME_BYTES <= output@.len(),
            frames@.len() == k,
            forall|m: int|
                0 <= m < k ==> (#[trigger] frames@[m]).rgba@ == output@.subrange(
                    m * FRAME_BYTES,
                    (m + 1) * FRAME_BYTES,
                ),
        decreases count - k,
    {
        assert((k + 1) * FRAME_BYTES <= count * FRAME_BYTES && k * FRAME_BYTES + FRAME_BYTES == (k
            + 1) * FRAME_BYTES && 0 <= k * FRAME_BYTES) by (nonlinear_arith)
            requires
                k < count,
        ;
        assert(output@.len() == output.len());
        let start = k * FRAME_BYTES;
        let end = start + FRAME_BYTES;
        let bytes = vstd::slice::slice_to_vec(vstd::slice::slice_subrange(output, start, end));
        frames.push(VideoFrame { rgba: bytes });
        k = k + 1;
    }
    Ok(frames)
}

/// What `String::from_utf8_lossy` makes of `bytes`.
pub uninterp spec fn utf8_lossy(bytes: Seq<u8>) -> Seq<char>;

/// Calls `String::from_utf8_lossy`, which decodes UTF-8 and puts a replacement character
/// for each invalid sequence. The contract names the result `utf8_lossy` and states what
/// the documentation gives: valid UTF-8 decodes as it is.
#[verifier::external_body]
fn decode_lossy(bytes: &[u8]) -> (text: String)
    ensures
        text@ == utf8_lossy(bytes@),
        vstd::utf8::valid_utf8(bytes@) ==> text@ == vstd::utf8::decode_utf8(bytes@),
{
    String::from_utf8_lossy(bytes).into_owned()
}

/// The words of `s`: its maximal runs of characters that are not white space, in order.
pub open spec fn words(s: Seq<char>) -> Seq<Seq<char>>
    decreases s.len(),
{
    if s.len() == 0 {
        Seq::empty()
    } else {
        let earlier = words(s.drop_last());
        let c = s.last();
        if is_white_space(c) {
            earlier
        } else if s.len() >= 2 && !is_white_space(s[s.len() - 2]) && earlier.len() > 0 {
            earlier.update(earlier.len() - 1, earlier.last().push(c))
        } else {
            earlier.push(seq![c])
        }
    }
}

/// The words joined by single spaces.
pub open spec fn join_words(ws: Seq<Seq<char>>) -> Seq<char>
    decreases ws.len(),
{
    if ws.len() == 0 {
        Seq::empty()
    } else if ws.len() == 1 {
        ws[0]
    } else {
        join_words(ws.drop_last()) + seq![' '] + ws.last()
    }
}

/// How many characters of a message are shown at most.
pub const MESSAGE_LIMIT: usize = 240;

/// The summary of an error text: its words joined by single spaces, cut to 240
/// characters; a fixed phrase when the text has no words.
pub open spec fn message_summary(text: Seq<char>) -> Seq<char> {
    let compact = join_words(words(text));
    if compact.len() == 0 {
        "詳細はありません"@
    } else if compact.len() <= MESSAGE_LIMIT {
        compact
    } else {
        compact.take(MESSAGE_LIMIT as int)
    }
}

proof fn lemma_join_extend_last(ws: Seq<Seq<char>>, c: char)
    requires
        ws.len() > 0,
    ensures
        join_words(ws.update(ws.len() - 1, ws.last().push(c))) == join_words(ws).push(c),
{
    let updated = ws.update(ws.len() - 1, ws.last().push(c));
    if ws.len() > 1 {
        assert(updated.drop_last() =~= ws.drop_last());
    }
    assert(join_words(updated) =~= join_words(ws).push(c));
}

proof fn lemma_join_push(ws: Seq<Seq<char>>, w: Seq<char>)
    ensures
        join_words(ws.push(w)) == if ws.len() == 0 {
            w
        } else {
            join_words(ws) + seq![' '] + w
        },
{
    assert(ws.push(w).drop_last() =~= ws);
}

/// The summary of an error text: words joined by single spaces, at most 240
/// characters, or a fixed phrase when there are no words.
pub fn summarize_message(text: &str) -> (summary: String)
    ensures
        summary@ == message_summary(text@),
{
    let chars = chars_of(text);
    let mut out: Vec<char> = Vec::new();
    let mut in_word = false;
    let mut any_word = false;
    let mut i: usize = 0;
    while i < chars.len()
        invariant
            i <= chars@.len(),
            chars@ == text@,
            out@ == join_words(words(chars@.take(i as int))),
            any_word == (words(chars@.take(i as int)).len() > 0),
            in_word == (i > 0 && !is_white_space(chars@[i - 1])),
            in_word ==> any_word,
        decreases chars.len() - i,
    {
        let c = chars[i];
        let ghost prefix = chars@.take(i as int);
        let ghost next = chars@.take(i + 1);
        assert(next.drop_last() =~= prefix);
        assert(next.last() == c);
        if char_is_whitespace(c) {
            in_word = false;
        } else {
            proof {
                if in_word {
                    assert(next[next.len() - 2] == chars@[i - 1]);
                    lemma_join_extend_last(words(prefix), c);
                } else {
                    if i > 0 {
                        assert(next[next.len() - 2] == chars@[i - 1]);
                    }
                    lemma_join_push(words(prefix), seq![c]);
                }
            }
            if !in_word && any_word {
                out.push(' ');
            }
            out.push(c);
            in_word = true;
            any_word = true;
        }
        i = i + 1;
        assert(out@ =~= join_words(words(chars@.take(i as int))));
    }
    assert(chars@.take(chars@.len() as int) =~= chars@);
    if out.len() == 0 {
        return "詳細はありません".to_owned();
    }
    if out.len() > MESSAGE_LIMIT {
        out.truncate(MESSAGE_LIMIT);
    }
    string_from_chars(&out)
}

/// The message to show for the error output of FFmpeg: the output decoded as UTF-8 (invalid
/// sequences replaced), summarized.
pub fn ffmpeg_message(stderr: &[u8]) -> (message: String)
    ensures
        message@ == message_summary(utf8_lossy(stderr@)),
{
    let text = decode_lossy(stderr);
    summarize_message(text.as_str())
}

/// A plan loads at most eight clips, each once, in order of name; each has its MP4 in the
/// folder and valid feature values.
pub proof fn lemma_plan_limits(
    entries: Seq<ManifestRecord>,
    direct: Seq<bool>,
    mp4: Seq<Seq<char>>,
    plan: ManifestPlan,
)
    requires
        direct.len() == entries.len(),
        is_manifest_plan(entries, direct, mp4, plan),
    ensures
        plan.accepted@.len() <= MAX_CLIPS,
        forall|k: int, l: int|
            0 <= k < l < plan.accepted@.len() ==> seq_less(
                (#[trigger] plan.accepted@[k]).id@,
                (#[trigger] plan.accepted@[l]).id@,
            ),
        forall|k: int|
            0 <= k < plan.accepted@.len() ==> mp4.contains((#[trigger] plan.accepted@[k]).id@)
                && entries[plan.accepted@[k].entry as int].features_ok && !is_blank(
                plan.accepted@[k].id@,
            ),
{
    let chosen = plan.accepted@.map_values(|a: AcceptedClip| a.entry);
    assert forall|k: int, l: int|
        0 <= k < l < plan.accepted@.len() implies seq_less(
        (#[trigger] plan.accepted@[k]).id@,
        (#[trigger] plan.accepted@[l]).id@,
    ) by {
        assert(chosen[k] == plan.accepted@[k].entry);
        assert(chosen[l] == plan.accepted@[l].entry);
    }
    assert forall|k: int| 0 <= k < plan.accepted@.len() implies mp4.contains(
        (#[trigger] plan.accepted@[k]).id@,
    ) && entries[plan.accepted@[k].entry as int].features_ok && !is_blank(
        plan.accepted@[k].id@,
    ) by {
        assert(chosen[k] == plan.accepted@[k].entry);
        assert(entry_outcome(entries, direct, mp4, chosen[k] as int) == EntryOutcome::Accepted);
    }
}

/// A message summary is never empty and never longer than 240 characters.
pub proof fn lemma_summary_bounded(text: Seq<char>)
    ensures
        0 < message_summary(text).len() <= MESSAGE_LIMIT,
{
    reveal_strlit("詳細はありません");
}

} // verus!
