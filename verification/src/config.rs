//! The configuration of drives, and what the commands on buckets do to it.

use vstd::prelude::*;

use crate::buckets::full_bucket_name;
#[allow(unused_imports)]
use crate::buckets::{dashed_prefix, meant_bucket, spec_full_bucket_name};

verus! {

pub const CONFIG_VERSION: u32 = 1;

pub const REGION: &'static str = "us-east-1";

/// The directory of the configuration file, below the user's own.
pub const CONFIG_DIR: &'static str = "infinite-storage-engine";

pub const CONFIG_FILE: &'static str = "config.json";

/// The letter that a drive gets when its bucket is created.
pub const DEFAULT_LETTER: char = 'D';

/// A configured drive.
#[derive(Debug, PartialEq, Eq)]
pub struct DriveConfig {
    pub id: String,
    pub label: String,
    pub bucket: String,
    pub letter: char,
    pub active: bool,
}

#[derive(Debug, PartialEq, Eq)]
pub struct DefaultSettings {
    pub region: String,
    pub bucket_prefix: String,
}

/// The whole configuration.
#[derive(Debug, PartialEq, Eq)]
pub struct AppConfig {
    pub version: u32,
    pub defaults: DefaultSettings,
    pub drives: Vec<DriveConfig>,
}

/// A [`DriveConfig`] as contracts speak of it.
#[verifier::ext_equal]
pub struct DriveConfigView {
    pub id: Seq<char>,
    pub label: Seq<char>,
    pub bucket: Seq<char>,
    pub letter: char,
    pub active: bool,
}

/// An [`AppConfig`] as contracts speak of it.
#[verifier::ext_equal]
pub struct AppConfigView {
    pub version: u32,
    pub region: Seq<char>,
    pub bucket_prefix: Seq<char>,
    pub drives: Seq<DriveConfigView>,
}

impl View for DriveConfig {
    type V = DriveConfigView;

    open spec fn view(&self) -> DriveConfigView {
        DriveConfigView {
            id: self.id@,
            label: self.label@,
            bucket: self.bucket@,
            letter: self.letter,
            active: self.active,
        }
    }
}

impl View for AppConfig {
    type V = AppConfigView;

    open spec fn view(&self) -> AppConfigView {
        AppConfigView {
            version: self.version,
            region: self.defaults.region@,
            bucket_prefix: self.defaults.bucket_prefix@,
            drives: drives_view(self.drives@),
        }
    }
}

/// Drives as contracts speak of them.
pub open spec fn drives_view(drives: Seq<DriveConfig>) -> Seq<DriveConfigView> {
    Seq::new(drives.len(), |i: int| drives[i]@)
}

/// The drives whose bucket is another one, in their order.
pub open spec fn without_bucket(drives: Seq<DriveConfigView>, bucket: Seq<char>) -> Seq<
    DriveConfigView,
>
    decreases drives.len(),
{
    if drives.len() == 0 {
        Seq::empty()
    } else if drives.last().bucket == bucket {
        without_bucket(drives.drop_last(), bucket)
    } else {
        without_bucket(drives.drop_last(), bucket).push(drives.last())
    }
}

impl AppConfigView {
    pub open spec fn has_bucket(self, bucket: Seq<char>) -> bool {
        exists|i: int| 0 <= i < self.drives.len() && (#[trigger] self.drives[i]).bucket == bucket
    }

    /// The drive of a bucket created under `name`.
    pub open spec fn created_drive(name: Seq<char>) -> DriveConfigView {
        DriveConfigView {
            id: spec_full_bucket_name(name),
            label: name,
            bucket: spec_full_bucket_name(name),
            letter: DEFAULT_LETTER,
            active: true,
        }
    }

    /// With a drive for the bucket created under `name`, where it has none.
    pub open spec fn with_created(self, name: Seq<char>) -> AppConfigView {
        if self.has_bucket(spec_full_bucket_name(name)) {
            self
        } else {
            AppConfigView { drives: self.drives.push(AppConfigView::created_drive(name)), ..self }
        }
    }

    /// Without the drives of a deleted bucket.
    pub open spec fn without(self, bucket: Seq<char>) -> AppConfigView {
        AppConfigView { drives: without_bucket(self.drives, bucket), ..self }
    }

    /// No two drives share a bucket.
    pub open spec fn buckets_distinct(self) -> bool {
        forall|i: int, j: int|
            0 <= i < j < self.drives.len() ==> (#[trigger] self.drives[i]).bucket != (
            #[trigger] self.drives[j]).bucket
    }

    /// The place of the first drive labelled `label`.
    pub open spec fn is_first_labelled(self, i: int, label: Seq<char>) -> bool {
        &&& 0 <= i < self.drives.len()
        &&& self.drives[i].label == label
        &&& forall|j: int| 0 <= j < i ==> (#[trigger] self.drives[j]).label != label
    }

    pub open spec fn has_label(self, label: Seq<char>) -> bool {
        exists|i: int| 0 <= i < self.drives.len() && (#[trigger] self.drives[i]).label == label
    }
}

/// A configuration of the current version, with default settings and the
/// given drives.
pub fn create_config(drives: Vec<DriveConfig>) -> (config: AppConfig)
    ensures
        config.version == CONFIG_VERSION,
        config.defaults.region@ == "us-east-1"@,
        config.defaults.bucket_prefix@ == "ise"@,
        config.drives == drives,
{
    AppConfig {
        version: CONFIG_VERSION,
        defaults: DefaultSettings {
            region: REGION.to_owned(),
            bucket_prefix: crate::buckets::BUCKET_PREFIX.to_owned(),
        },
        drives,
    }
}

/// The configuration to work with: the stored one where it could be read,
/// else one without drives.
pub fn load_config(stored: Option<AppConfig>) -> (config: AppConfig)
    ensures
        match stored {
            Some(found) => config == found,
            None => config@ == (AppConfigView {
                version: CONFIG_VERSION,
                region: "us-east-1"@,
                bucket_prefix: "ise"@,
                drives: Seq::empty(),
            }),
        },
{
    match stored {
        Some(found) => found,
        None => {
            let config = create_config(Vec::new());
            proof {
                assert(config@.drives =~= Seq::empty());
            }
            config
        },
    }
}

/// Records that the bucket `bucket_name` was created: it gets a drive, unless
/// it has one already.
pub fn record_created_bucket(config: &mut AppConfig, bucket_name: String)
    ensures
        final(config)@ == old(config)@.with_created(bucket_name@),
{
    let full_name: String = full_bucket_name(bucket_name.as_str());
    let n: usize = config.drives.len();
    for i in 0..n
        invariant
            n == config.drives.len(),
            config@ == old(config)@,
            full_name@ == spec_full_bucket_name(bucket_name@),
            forall|j: int| 0 <= j < i ==> (#[trigger] config@.drives[j]).bucket != full_name@,
    {
        if config.drives[i].bucket == full_name {
            proof {
                assert(config@.drives[i as int].bucket == full_name@);
            }
            return ;
        }
    }
    config.drives.push(
        DriveConfig {
            id: full_name.clone(),
            label: bucket_name,
            bucket: full_name,
            letter: DEFAULT_LETTER,
            active: true,
        },
    );
    proof {
        assert(config@.drives =~= old(config)@.drives.push(
            AppConfigView::created_drive(bucket_name@),
        ));
    }
}

/// Records that the bucket `full_name` was deleted: its drives go.
pub fn forget_bucket(config: &mut AppConfig, full_name: &str)
    ensures
        final(config)@ == old(config)@.without(full_name@),
{
    let gone: String = full_name.to_owned();
    let ghost before = config@.drives;
    let ghost mut seen: int = 0;
    let mut i: usize = 0;
    proof {
        assert(before.take(0) =~= Seq::empty());
        assert(config@.drives =~= without_bucket(before.take(0), gone@) + before.skip(0));
    }
    while i < config.drives.len()
        invariant
            gone@ == full_name@,
            before == old(config)@.drives,
            config@.version == old(config)@.version,
            config@.region == old(config)@.region,
            config@.bucket_prefix == old(config)@.bucket_prefix,
            0 <= seen <= before.len(),
            i == without_bucket(before.take(seen), gone@).len(),
            config@.drives == without_bucket(before.take(seen), gone@) + before.skip(seen),
        decreases before.len() - seen,
    {
        let ghost kept = without_bucket(before.take(seen), gone@);
        let ghost now = config@.drives;
        proof {
            assert(now.len() == kept.len() + before.len() - seen);
            assert(now[i as int] == before[seen]);
            assert(before.take(seen + 1).drop_last() =~= before.take(seen));
        }
        if config.drives[i].bucket == gone {
            config.drives.remove(i);
            proof {
                assert(config@.drives =~= now.remove(i as int));
                assert(config@.drives =~= kept + before.skip(seen + 1));
            }
        } else {
            i = i + 1;
            proof {
                assert(config@.drives =~= kept.push(before[seen]) + before.skip(seen + 1));
            }
        }
        proof {
            seen = seen + 1;
        }
    }
    proof {
        assert(before.take(seen) =~= before);
        assert(config@.drives =~= without_bucket(before, gone@));
    }
}

/// What a mount comes to.
#[derive(Debug, PartialEq, Eq)]
pub enum MountDecision {
    /// No drive has the label.
    NotConfigured,
    /// The drive is switched off.
    Inactive,
    /// This platform cannot mount drives.
    Unsupported,
    Mount { label: String, bucket: String, letter: char },
}

/// Decides about mounting the drive labelled `label`, on a platform that can
/// mount drives or not. Of drives with the same label the first counts.
pub fn mount_decision(config: &AppConfig, label: &str, can_mount: bool) -> (decision: MountDecision)
    ensures
        decision is NotConfigured <==> !config@.has_label(label@),
        decision is Unsupported <==> config@.has_label(label@) && !can_mount,
        decision is Inactive <==> can_mount && exists|i: int|
            #[trigger] config@.is_first_labelled(i, label@) && !config@.drives[i].active,
        decision is Mount <==> can_mount && exists|i: int|
            #[trigger] config@.is_first_labelled(i, label@) && config@.drives[i].active,
        decision matches MountDecision::Mount { label: l, bucket: b, letter: c } ==> forall|i: int|
            #[trigger] config@.is_first_labelled(i, label@) ==> l@ == config@.drives[i].label && b@
                == config@.drives[i].bucket && c == config@.drives[i].letter,
{
    let wanted: String = label.to_owned();
    let n: usize = config.drives.len();
    for i in 0..n
        invariant
            n == config.drives.len(),
            wanted@ == label@,
            forall|j: int| 0 <= j < i ==> (#[trigger] config@.drives[j]).label != label@,
    {
        let drive = &config.drives[i];
        if drive.label == wanted {
            proof {
                assert(config@.drives[i as int] == drive@);
                assert(config@.is_first_labelled(i as int, label@));
                assert forall|k: int| #[trigger]
                    config@.is_first_labelled(k, label@) implies k == i by {
                    if k < i {
                        assert(config@.drives[k].label != label@);
                    }
                    if i < k {
                        assert(config@.drives[i as int].label == label@);
                    }
                }
            }
            if !can_mount {
                return MountDecision::Unsupported;
            }
            if !drive.active {
                return MountDecision::Inactive;
            }
            return MountDecision::Mount {
                label: drive.label.clone(),
                bucket: drive.bucket.clone(),
                letter: drive.letter,
            };
        }
    }
    MountDecision::NotConfigured
}

/// Where a drive with `letter` is mounted: `D` at `D:`.
pub fn mount_point(letter: char) -> (point: String)
    ensures
        point@ == seq![letter, ':'],
{
    let mut point: String = String::new();
    point.push(letter);
    point.push(':');
    proof {
        assert(point@ =~= seq![letter, ':']);
    }
    point
}

proof fn lemma_without_bucket_push(
    drives: Seq<DriveConfigView>,
    drive: DriveConfigView,
    bucket: Seq<char>,
)
    ensures
        without_bucket(drives.push(drive), bucket) == (if drive.bucket == bucket {
            without_bucket(drives, bucket)
        } else {
            without_bucket(drives, bucket).push(drive)
        }),
{
    assert(drives.push(drive).drop_last() =~= drives);
}

/// Every drive that is left was there before, and its bucket is another one.
proof fn lemma_without_bucket_keeps(drives: Seq<DriveConfigView>, bucket: Seq<char>)
    ensures
        forall|i: int|
            0 <= i < without_bucket(drives, bucket).len() ==> drives.contains(
                #[trigger] without_bucket(drives, bucket)[i],
            ) && without_bucket(drives, bucket)[i].bucket != bucket,
        forall|i: int|
            0 <= i < drives.len() && (#[trigger] drives[i]).bucket != bucket ==> without_bucket(
                drives,
                bucket,
            ).contains(drives[i]),
        (forall|i: int| 0 <= i < drives.len() ==> (#[trigger] drives[i]).bucket != bucket)
            ==> without_bucket(drives, bucket) == drives,
    decreases drives.len(),
{
    let left = without_bucket(drives, bucket);
    if drives.len() > 0 {
        let rest = drives.drop_last();
        let front = without_bucket(rest, bucket);
        let last = drives[drives.len() - 1];
        lemma_without_bucket_keeps(rest, bucket);
        assert forall|i: int| 0 <= i < left.len() implies drives.contains(#[trigger] left[i])
            && left[i].bucket != bucket by {
            if i < front.len() {
                assert(left[i] == front[i]);
                let j = choose|j: int| 0 <= j < rest.len() && rest[j] == front[i];
                assert(drives[j] == left[i]);
            } else {
                assert(left[i] == last);
            }
        }
        assert forall|i: int|
            0 <= i < drives.len() && (#[trigger] drives[i]).bucket != bucket implies left.contains(
            drives[i],
        ) by {
            if i < rest.len() {
                assert(rest[i] == drives[i]);
                let j = choose|j: int| 0 <= j < front.len() && front[j] == rest[i];
                assert(left[j] == drives[i]);
            } else {
                assert(left[left.len() - 1] == last);
            }
        }
        if forall|i: int| 0 <= i < drives.len() ==> (#[trigger] drives[i]).bucket != bucket {
            assert forall|i: int| 0 <= i < rest.len() implies (#[trigger] rest[i]).bucket
                != bucket by {
                assert(rest[i] == drives[i]);
            }
            assert(last.bucket != bucket);
            assert(left =~= drives);
        }
    } else {
        assert(left =~= drives);
    }
}

/// A deleted bucket has no drive left, all other drives stay, and nothing
/// else of the configuration changes.
pub proof fn law_deleted_bucket_is_gone(config: AppConfigView, bucket: Seq<char>)
    ensures
        !config.without(bucket).has_bucket(bucket),
        forall|i: int|
            0 <= i < config.drives.len() && (#[trigger] config.drives[i]).bucket != bucket
                ==> config.without(bucket).drives.contains(config.drives[i]),
        forall|i: int|
            0 <= i < config.without(bucket).drives.len() ==> config.drives.contains(
                #[trigger] config.without(bucket).drives[i],
            ),
        config.without(bucket).without(bucket) == config.without(bucket),
        config.without(bucket).version == config.version,
        config.without(bucket).region == config.region,
        config.without(bucket).bucket_prefix == config.bucket_prefix,
{
    lemma_without_bucket_keeps(config.drives, bucket);
    lemma_without_bucket_keeps(config.without(bucket).drives, bucket);
    assert(config.without(bucket).without(bucket) =~= config.without(bucket));
}

/// A created bucket has a drive, all drives there were stay in their places,
/// and recording the creation again changes nothing.
pub proof fn law_created_bucket_has_a_drive(config: AppConfigView, name: Seq<char>)
    ensures
        config.with_created(name).has_bucket(spec_full_bucket_name(name)),
        config.drives.is_prefix_of(config.with_created(name).drives),
        config.with_created(name).with_created(name) == config.with_created(name),
{
    let after = config.with_created(name);
    if !config.has_bucket(spec_full_bucket_name(name)) {
        assert(after.drives[config.drives.len() as int].bucket == spec_full_bucket_name(name));
    }
    assert(config.drives =~= after.drives.subrange(0, config.drives.len() as int));
}

/// Deleting a bucket takes back its creation: under a name without the
/// prefix, both mean the same bucket, and the configuration is what deleting
/// alone makes of it. Where no drive had that bucket, it is as before.
pub proof fn law_delete_undoes_create(config: AppConfigView, name: Seq<char>)
    requires
        !dashed_prefix().is_prefix_of(name),
    ensures
        config.with_created(name).without(meant_bucket(name)) == config.without(
            meant_bucket(name),
        ),
        !config.has_bucket(meant_bucket(name)) ==> config.with_created(name).without(
            meant_bucket(name),
        ) == config,
{
    let bucket = spec_full_bucket_name(name);
    lemma_without_bucket_push(config.drives, AppConfigView::created_drive(name), bucket);
    assert(config.with_created(name).without(bucket) =~= config.without(bucket));
    if !config.has_bucket(bucket) {
        assert forall|i: int| 0 <= i < config.drives.len() implies (
        #[trigger] config.drives[i]).bucket != bucket by {}
        lemma_without_bucket_keeps(config.drives, bucket);
        assert(config.without(bucket) =~= config);
    }
}

/// Where no two drives share a bucket, none do after a creation or a
/// deletion.
pub proof fn law_buckets_stay_distinct(config: AppConfigView, name: Seq<char>, bucket: Seq<char>)
    requires
        config.buckets_distinct(),
    ensures
        config.with_created(name).buckets_distinct(),
        config.without(bucket).buckets_distinct(),
{
    lemma_distinct_without(config.drives, bucket);
}

proof fn lemma_distinct_without(drives: Seq<DriveConfigView>, bucket: Seq<char>)
    requires
        forall|i: int, j: int|
            0 <= i < j < drives.len() ==> (#[trigger] drives[i]).bucket != (
            #[trigger] drives[j]).bucket,
    ensures
        forall|i: int, j: int|
            0 <= i < j < without_bucket(drives, bucket).len() ==> (
            #[trigger] without_bucket(drives, bucket)[i]).bucket != (
            #[trigger] without_bucket(drives, bucket)[j]).bucket,
    decreases drives.len(),
{
    if drives.len() > 0 {
        let rest = drives.drop_last();
        let left = without_bucket(drives, bucket);
        let front = without_bucket(rest, bucket);
        assert forall|i: int, j: int| 0 <= i < j < rest.len() implies (#[trigger] rest[i]).bucket
            != (#[trigger] rest[j]).bucket by {
            assert(rest[i] == drives[i] && rest[j] == drives[j]);
        }
        lemma_distinct_without(rest, bucket);
        lemma_without_bucket_keeps(rest, bucket);
        assert forall|i: int, j: int| 0 <= i < j < left.len() implies (#[trigger] left[i]).bucket
            != (#[trigger] left[j]).bucket by {
            assert(left[i] == front[i]);
            if j < front.len() {
                assert(left[j] == front[j]);
            } else {
                let k = choose|k: int| 0 <= k < rest.len() && rest[k] == front[i];
                assert(drives[k] == left[i]);
                assert(drives[drives.len() - 1] == left[j]);
            }
        }
    }
}

/// A configuration as contracts speak of it holds all that it holds.
pub proof fn law_configuration_is_seen_whole(config: AppConfig)
    ensures
        config@.version == config.version,
        config@.region == config.defaults.region@,
        config@.bucket_prefix == config.defaults.bucket_prefix@,
        config@.drives.len() == config.drives@.len(),
        forall|i: int|
            0 <= i < config.drives@.len() ==> {
                &&& (#[trigger] config@.drives[i]).id == config.drives@[i].id@
                &&& config@.drives[i].label == config.drives@[i].label@
                &&& config@.drives[i].bucket == config.drives@[i].bucket@
                &&& config@.drives[i].letter == config.drives@[i].letter
                &&& config@.drives[i].active == config.drives@[i].active
            },
{
}

/// A creation adds one drive behind the others, active, at letter `D`, with
/// the name as its label and the bucket as its id. Where some drive has the
/// bucket already, and only there, it adds none.
pub proof fn law_creation_adds_a_drive(config: AppConfigView, name: Seq<char>)
    ensures
        ({
            let bucket = dashed_prefix() + name;
            let after = config.with_created(name);
            let known = exists|i: int|
                0 <= i < config.drives.len() && (#[trigger] config.drives[i]).bucket == bucket;
            &&& known ==> after == config
            &&& !known ==> {
                &&& after.drives.len() == config.drives.len() + 1
                &&& after.drives.drop_last() == config.drives
                &&& after.drives.last().id == bucket
                &&& after.drives.last().label == name
                &&& after.drives.last().bucket == bucket
                &&& after.drives.last().letter == 'D'
                &&& after.drives.last().active
            }
            &&& after.version == config.version && after.region == config.region
            &&& after.bucket_prefix == config.bucket_prefix
        }),
{
    let after = config.with_created(name);
    if !config.has_bucket(spec_full_bucket_name(name)) {
        assert(after.drives.drop_last() =~= config.drives);
    }
}

/// A deletion leaves all drives of other buckets, in their order, and no
/// other.
pub proof fn law_deletion_keeps_other_drives(config: AppConfigView, bucket: Seq<char>)
    ensures
        config.without(bucket).drives == config.drives.filter(
            |drive: DriveConfigView| drive.bucket != bucket,
        ),
{
    lemma_without_bucket_filters(config.drives, bucket);
}

proof fn lemma_without_bucket_filters(drives: Seq<DriveConfigView>, bucket: Seq<char>)
    ensures
        without_bucket(drives, bucket) == drives.filter(
            |drive: DriveConfigView| drive.bucket != bucket,
        ),
    decreases drives.len(),
{
    reveal(Seq::filter);
    if drives.len() > 0 {
        lemma_without_bucket_filters(drives.drop_last(), bucket);
    } else {
        assert(without_bucket(drives, bucket) =~= drives);
    }
}

/// A label is configured where some drive has it, and the first drive that
/// has it counts: there is exactly one such place.
pub proof fn law_first_label_counts(config: AppConfigView, label: Seq<char>, i: int)
    requires
        0 <= i < config.drives.len(),
    ensures
        config.drives[i].label == label ==> config.has_label(label),
        config.has_label(label) ==> config.drives.map_values(
            |drive: DriveConfigView| drive.label,
        ).contains(label),
        config.is_first_labelled(i, label) <==> config.drives[i].label == label
            && !config.drives.take(i).map_values(|drive: DriveConfigView| drive.label).contains(
            label,
        ),
        config.drives[i].label == label ==> exists|k: int|
            0 <= k <= i && #[trigger] config.is_first_labelled(k, label),
    decreases i,
{
    let labels = config.drives.map_values(|drive: DriveConfigView| drive.label);
    let before = config.drives.take(i).map_values(|drive: DriveConfigView| drive.label);
    if config.has_label(label) {
        let k = choose|k: int|
            0 <= k < config.drives.len() && (#[trigger] config.drives[k]).label == label;
        assert(labels[k] == label);
    }
    if before.contains(label) {
        let k = before.index_of(label);
        assert(config.drives[k].label == label);
        if config.drives[i].label == label {
            law_first_label_counts(config, label, k);
        }
    } else {
        assert forall|j: int| 0 <= j < i implies (#[trigger] config.drives[j]).label != label by {
            assert(before[j] == config.drives[j].label);
        }
        if config.drives[i].label == label {
            assert(config.is_first_labelled(i, label));
        }
    }
}

} // verus!
