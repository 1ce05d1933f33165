use ise::buckets::bucket_to_delete;
use ise::config::{
    create_config, forget_bucket, load_config, mount_decision, mount_point, record_created_bucket,
    AppConfig, DriveConfig, MountDecision, CONFIG_VERSION,
};

fn drive(label: &str, bucket: &str, letter: char, active: bool) -> DriveConfig {
    DriveConfig {
        id: bucket.to_owned(),
        label: label.to_owned(),
        bucket: bucket.to_owned(),
        letter,
        active,
    }
}

fn buckets(config: &AppConfig) -> Vec<&str> {
    config.drives.iter().map(|d| d.bucket.as_str()).collect()
}

#[test]
fn new_configuration_has_the_defaults() {
    let config = create_config(vec![drive("photos", "ise-photos", 'E', false)]);
    assert_eq!(config.version, 1);
    assert_eq!(CONFIG_VERSION, 1);
    assert_eq!(config.defaults.region, "us-east-1");
    assert_eq!(config.defaults.bucket_prefix, "ise");
    assert_eq!(config.drives, vec![drive("photos", "ise-photos", 'E', false)]);
}

#[test]
fn unreadable_configuration_counts_as_empty() {
    assert_eq!(load_config(None), create_config(Vec::new()));
    let mut stored = create_config(vec![drive("a", "ise-a", 'D', true)]);
    stored.version = 7;
    let kept = load_config(Some(stored));
    assert_eq!(kept.version, 7);
    assert_eq!(buckets(&kept), vec!["ise-a"]);
}

#[test]
fn created_bucket_gets_a_drive_once() {
    let mut config = create_config(Vec::new());
    record_created_bucket(&mut config, "photos".to_owned());
    assert_eq!(config.drives, vec![drive("photos", "ise-photos", 'D', true)]);
    record_created_bucket(&mut config, "photos".to_owned());
    assert_eq!(config.drives.len(), 1);
}

#[test]
fn deletion_takes_creation_back() {
    let mut config = create_config(vec![drive("a", "ise-a", 'E', true)]);
    record_created_bucket(&mut config, "photos".to_owned());
    assert_eq!(buckets(&config), vec!["ise-a", "ise-photos"]);
    forget_bucket(&mut config, &bucket_to_delete("photos".to_owned()));
    assert_eq!(config, create_config(vec![drive("a", "ise-a", 'E', true)]));
}

#[test]
fn deletion_after_a_repeated_creation_is_a_deletion() {
    let drives = || {
        vec![
            drive("a", "ise-a", 'E', true),
            drive("old", "ise-photos", 'F', false),
        ]
    };
    let mut config = create_config(drives());
    record_created_bucket(&mut config, "photos".to_owned());
    assert_eq!(config, create_config(drives()));
    forget_bucket(&mut config, &bucket_to_delete("photos".to_owned()));
    assert_eq!(buckets(&config), vec!["ise-a"]);
}

#[test]
fn prefixed_name_is_created_and_deleted_differently() {
    let mut config = create_config(Vec::new());
    record_created_bucket(&mut config, "ise-x".to_owned());
    assert_eq!(buckets(&config), vec!["ise-ise-x"]);
    forget_bucket(&mut config, &bucket_to_delete("ise-x".to_owned()));
    assert_eq!(buckets(&config), vec!["ise-ise-x"]);
}

#[test]
fn all_drives_of_a_deleted_bucket_go() {
    let mut config = create_config(vec![
        drive("1", "x", 'D', true),
        drive("2", "y", 'E', true),
        drive("3", "x", 'F', true),
        drive("4", "z", 'G', true),
    ]);
    forget_bucket(&mut config, "x");
    assert_eq!(buckets(&config), vec!["y", "z"]);
    forget_bucket(&mut config, "absent");
    assert_eq!(buckets(&config), vec!["y", "z"]);
}

#[test]
fn mounting_needs_an_active_drive_and_a_platform() {
    let config = create_config(vec![
        drive("on", "ise-on", 'E', true),
        drive("off", "ise-off", 'F', false),
        drive("off", "ise-late", 'G', true),
    ]);
    assert_eq!(
        mount_decision(&config, "on", true),
        MountDecision::Mount {
            label: "on".to_owned(),
            bucket: "ise-on".to_owned(),
            letter: 'E'
        }
    );
    assert_eq!(mount_decision(&config, "off", true), MountDecision::Inactive);
    assert_eq!(
        mount_decision(&config, "none", true),
        MountDecision::NotConfigured
    );
    assert_eq!(
        mount_decision(&config, "none", false),
        MountDecision::NotConfigured
    );
    assert_eq!(
        mount_decision(&config, "on", false),
        MountDecision::Unsupported
    );
    assert_eq!(
        mount_decision(&config, "off", false),
        MountDecision::Unsupported
    );
}

#[test]
fn letters_make_mount_points() {
    assert_eq!(mount_point('D'), "D:");
}
