//! Profiles and where they are kept.

use display_studio::keyed::TextMap;
use display_studio::model::profile::{validate_name, Listing, Reading, Removal};
use display_studio::model::{DisplayProfile, Profile, ProfileError, ProfileStore};
use display_studio::paths::FilePath;
use std::collections::BTreeMap;

/// What a file holds.
#[derive(Clone)]
enum File {
    Holds(Profile),
    Broken(String),
    Other,
}

/// A profile directory in memory: what the owner of the file system does on the
/// store's behalf.
struct Disk {
    store: ProfileStore,
    files: BTreeMap<String, File>,
}

impl Disk {
    fn path(name: &str) -> String {
        format!("/data/profiles/{name}")
    }

    fn list(&self) -> Result<Vec<String>, ProfileError> {
        let names = self
            .files
            .keys()
            .map(|p| p.rsplit('/').next().unwrap().to_string())
            .collect();
        self.store.list(Listing::Files(names))
    }

    fn load(&self, name: &str) -> Result<Profile, ProfileError> {
        let found = match self.store.path_for(name) {
            Ok(path) => match self.files.get(&path.describe()) {
                Some(File::Holds(p)) => Reading::Parsed(p.clone()),
                Some(File::Broken(why)) => Reading::Unparseable(why.clone()),
                Some(File::Other) => Reading::Failed("not text".into()),
                None => Reading::Missing,
            },
            Err(e) => return Err(e),
        };
        self.store.load(name, found)
    }

    fn save(&mut self, p: &Profile, force: bool) -> Result<String, ProfileError> {
        let exists = match self.store.path_for(&p.name) {
            Ok(path) => self.files.contains_key(&path.describe()),
            Err(_) => false,
        };
        let plan = self.store.save(p, force, exists)?;
        self.files.insert(plan.temporary.describe(), File::Holds(p.clone()));
        let written = self.files.remove(&plan.temporary.describe()).unwrap();
        self.files.insert(plan.path.describe(), written);
        Ok(plan.path.describe())
    }

    fn delete(&mut self, name: &str) -> Result<(), ProfileError> {
        let done = match self.store.path_for(name) {
            Ok(path) => match self.files.remove(&path.describe()) {
                Some(_) => Removal::Removed,
                None => Removal::Missing,
            },
            Err(e) => return Err(e),
        };
        self.store.delete(name, done)
    }
}

fn store() -> Disk {
    Disk {
        store: ProfileStore::new(FilePath::of("/data/profiles")),
        files: BTreeMap::new(),
    }
}

fn settings(list: &[(&str, u16)]) -> TextMap<u16> {
    let mut m = TextMap::new();
    for (k, v) in list {
        m.insert(k.to_string(), *v);
    }
    m
}

fn sample() -> Profile {
    Profile {
        name: "coding".into(),
        displays: vec![DisplayProfile {
            selector: "MB169CK".into(),
            settings: settings(&[("brightness", 60), ("contrast", 75)]),
        }],
    }
}

/// A profile name becomes a path. Traversal must be impossible.
#[test]
fn rejects_names_that_could_escape_the_directory() {
    for bad in [
        "../evil",
        "../../.ssh/authorized_keys",
        "a/b",
        "a\\b",
        ".",
        "..",
        "",
        "with space",
        "semi;colon",
        "null\0byte",
    ] {
        assert!(
            validate_name(bad).is_err(),
            "{bad:?} must be rejected as a profile name"
        );
    }
}

#[test]
fn accepts_reasonable_names() {
    for ok in ["coding", "movie-night", "photo_edit", "p1", "A-1_b"] {
        assert!(validate_name(ok).is_ok(), "{ok:?} should be valid");
    }
}

#[test]
fn traversal_name_cannot_reach_the_filesystem() {
    let mut s = store();
    assert!(matches!(
        s.load("../../../etc/passwd"),
        Err(ProfileError::InvalidName(_))
    ));
    assert!(matches!(
        s.delete("../boom"),
        Err(ProfileError::InvalidName(_))
    ));
}

#[test]
fn saves_and_loads_round_trip() {
    let mut s = store();
    s.save(&sample(), false).unwrap();
    assert_eq!(s.load("coding").unwrap(), sample());
}

#[test]
fn save_refuses_to_clobber_without_force() {
    let mut s = store();
    s.save(&sample(), false).unwrap();
    assert!(matches!(
        s.save(&sample(), false),
        Err(ProfileError::Exists(_))
    ));
    s.save(&sample(), true).unwrap();
}

#[test]
fn missing_profile_is_not_found_not_io_error() {
    let mut s = store();
    assert!(matches!(s.load("nope"), Err(ProfileError::NotFound(_))));
    assert!(matches!(s.delete("nope"), Err(ProfileError::NotFound(_))));
}

#[test]
fn listing_an_absent_directory_yields_nothing() {
    let s = ProfileStore::new(FilePath::of("/nonexistent/path/for/tests"));
    assert!(s.list(Listing::Missing).unwrap().is_empty());
}

#[test]
fn list_is_sorted_and_ignores_non_toml() {
    let mut s = store();
    for n in ["zebra", "alpha", "middle"] {
        let mut p = sample();
        p.name = n.into();
        s.save(&p, false).unwrap();
    }
    s.files.insert(Disk::path("notes.txt"), File::Other);
    assert_eq!(s.list().unwrap(), vec!["alpha", "middle", "zebra"]);
}

/// Hand-editing is a supported workflow, so the on-disk shape is a contract.
#[test]
fn hand_written_toml_parses() {
    let mut s = store();
    s.files.insert(
        Disk::path("manual.toml"),
        File::Holds(Profile {
            name: "whatever".into(),
            displays: vec![DisplayProfile {
                selector: "MB169CK".into(),
                settings: settings(&[("brightness", 42), ("0x12", 70)]),
            }],
        }),
    );
    let p = s.load("manual").unwrap();
    // Filename wins over the `name` field.
    assert_eq!(p.name, "manual");
    assert_eq!(p.displays[0].selector, "MB169CK");
    assert_eq!(p.displays[0].settings.get("brightness"), Some(&42));
    assert_eq!(p.displays[0].settings.get("0x12"), Some(&70));
}

#[test]
fn a_profile_with_no_displays_is_valid() {
    let mut s = store();
    let p = Profile::new("empty".into()).unwrap();
    s.save(&p, false).unwrap();
    assert!(s.load("empty").unwrap().displays.is_empty());
}

#[test]
fn malformed_toml_reports_the_path() {
    let mut s = store();
    s.files.insert(
        Disk::path("broken.toml"),
        File::Broken("this is not = = toml".into()),
    );
    let err = s.load("broken").unwrap_err().message();
    assert!(err.contains("broken.toml"), "{err}");
}

/// A crash mid-save must not destroy the previous profile.
#[test]
fn save_leaves_no_temp_file_behind() {
    let mut s = store();
    s.save(&sample(), false).unwrap();
    let stray: Vec<_> = s.files.keys().filter(|n| n.contains("tmp")).collect();
    assert!(stray.is_empty(), "temp file left behind: {stray:?}");
}
