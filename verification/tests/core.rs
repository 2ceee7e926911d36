use pwa_core::ids::Identifier;
use pwa_core::lifecycle::profile_data_dir;
use pwa_core::model::{Error, Profile, Site, Store};
use pwa_core::sevenzip::{download_url, install_verdict, Arch, RegistryEntry, _7Zip};
use pwa_core::text::confirmation_accepted;

fn ident(n: u128) -> Identifier {
    Identifier { value: n }
}

fn site(n: u128, name: &str, manifest: &str, document: &str) -> Site {
    Site {
        id: ident(n),
        name: name.to_string(),
        manifest_url: manifest.to_string(),
        document_url: document.to_string(),
    }
}

fn profile(n: u128, name: Option<&str>, description: Option<&str>, sites: Vec<u128>) -> Profile {
    Profile {
        id: ident(n),
        name: name.map(|s| s.to_string()),
        description: description.map(|s| s.to_string()),
        sites: sites.into_iter().map(ident).collect(),
    }
}

fn stores_equal(a: &Store, b: &Store) -> bool {
    a.profiles.len() == b.profiles.len()
        && a.sites.len() == b.sites.len()
        && a.profiles.iter().zip(b.profiles.iter()).all(|(p, q)| {
            p.id == q.id && p.name == q.name && p.description == q.description && p.sites == q.sites
        })
        && a.sites.iter().zip(b.sites.iter()).all(|(s, t)| {
            s.id == t.id
                && s.name == t.name
                && s.manifest_url == t.manifest_url
                && s.document_url == t.document_url
        })
}

#[test]
fn initial_store_has_only_the_nil_profile() {
    let st = Store::load(None).unwrap();
    assert_eq!(st.profiles.len(), 1);
    assert_eq!(st.profiles[0].id, Identifier::nil());
    assert!(st.profiles[0].name.is_none());
    assert!(st.profiles[0].description.is_none());
    assert!(st.profiles[0].sites.is_empty());
    assert!(st.sites.is_empty());
}

#[test]
fn round_trip_preserves_profiles_and_sites() {
    let mut st = Store::initial();
    st.insert_site(site(7, "A \"quoted\" name", "https://a/site.webmanifest", "https://a/"));
    st.insert_site(site(9, "back\\slash", "data:application/json;x", "https://b/"));
    st.insert_profile(profile(3, Some("Work"), None, vec![7, 9]));
    st.insert_profile(profile(5, None, Some("spare"), vec![]));
    let text = st.to_text();
    let back = Store::from_text(&text).unwrap();
    assert!(stores_equal(&st, &back));
}

#[test]
fn round_trip_of_the_initial_store() {
    let st = Store::initial();
    let back = Store::from_text(&st.to_text()).unwrap();
    assert!(stores_equal(&st, &back));
}

#[test]
fn canonical_document_shape() {
    let st = Store::initial();
    let text: String = st.to_text().into_iter().collect();
    assert_eq!(
        text,
        "{\"profiles\":{\"00000000000000000000000000\":{\"name\":null,\"description\":null,\"sites\":[]}},\"sites\":{}}"
    );
}

#[test]
fn garbage_text_is_corrupt() {
    let text: Vec<char> = "not a state file".chars().collect();
    assert!(matches!(Store::from_text(&text), Err(Error::Corrupt)));
    let empty: Vec<char> = Vec::new();
    assert!(matches!(Store::from_text(&empty), Err(Error::Corrupt)));
}

#[test]
fn duplicate_keys_are_corrupt() {
    let mut st = Store::initial();
    // bypass keyed insertion to forge a duplicated key column
    st.profiles.push(profile(3, None, None, vec![]));
    st.profiles.push(profile(3, None, None, vec![]));
    let text = st.to_text();
    assert!(matches!(Store::from_text(&text), Err(Error::Corrupt)));
}

#[test]
fn create_then_list_shows_placeholders() {
    let mut st = Store::initial();
    let id = st.create_profile(Some("Work".to_string()), None);
    let entries = st.list().unwrap();
    assert_eq!(entries.len(), 2);
    let e = entries.iter().find(|e| e.id == id).unwrap();
    assert_eq!(e.title, "Work");
    assert_eq!(e.about, "* Nothing *");
    assert!(e.apps.is_empty());
    let nil = entries.iter().find(|e| e.id == Identifier::nil()).unwrap();
    assert_eq!(nil.title, "* Unnamed *");
}

#[test]
fn list_resolves_urls_and_flags_dangling_references() {
    let mut st = Store::initial();
    st.insert_site(site(7, "plain", "https://a/site.webmanifest", "https://a/doc"));
    st.insert_site(site(9, "inline", "data:application/json;base64,xx", "https://b/doc"));
    st.insert_profile(profile(3, Some("P"), None, vec![7, 9]));
    let entries = st.list().unwrap();
    let e = entries.iter().find(|e| e.id == ident(3)).unwrap();
    assert_eq!(e.apps[0].url, "https://a/site.webmanifest");
    assert_eq!(e.apps[1].url, "https://b/doc");

    st.insert_profile(profile(4, None, None, vec![42]));
    match st.list() {
        Err(Error::ReferentialIntegrity(j)) => assert_eq!(j, ident(42)),
        _ => panic!("expected a referential-integrity failure"),
    }
}

#[test]
fn update_merges_only_supplied_fields() {
    let mut st = Store::initial();
    st.insert_site(site(7, "s", "https://m", "https://d"));
    st.insert_profile(profile(3, Some("old name"), Some("old desc"), vec![7]));
    st.update_profile(ident(3), Some("new name".to_string()), None).unwrap();
    let p = st.profiles.iter().find(|p| p.id == ident(3)).unwrap();
    assert_eq!(p.name.as_deref(), Some("new name"));
    assert_eq!(p.description.as_deref(), Some("old desc"));
    assert_eq!(p.sites, vec![ident(7)]);
}

#[test]
fn update_with_nothing_supplied_is_a_successful_noop() {
    let mut st = Store::initial();
    st.insert_profile(profile(3, Some("n"), Some("d"), vec![]));
    assert_eq!(st.update_profile(ident(3), None, None), Ok(()));
    let p = st.profiles.iter().find(|p| p.id == ident(3)).unwrap();
    assert_eq!(p.name.as_deref(), Some("n"));
    assert_eq!(p.description.as_deref(), Some("d"));
}

#[test]
fn update_of_a_missing_profile_is_not_found() {
    let mut st = Store::initial();
    assert_eq!(
        st.update_profile(ident(99), Some("x".to_string()), None),
        Err(Error::NotFound(ident(99)))
    );
}

#[test]
fn remove_cascades_once_per_site() {
    let mut st = Store::initial();
    st.insert_site(site(1, "S1", "https://1", "https://1d"));
    st.insert_site(site(2, "S2", "https://2", "https://2d"));
    st.insert_site(site(8, "other", "https://8", "https://8d"));
    st.insert_profile(profile(5, Some("P"), None, vec![1, 2]));
    let cascade = st.remove_profile(ident(5), true).unwrap();
    // exactly one uninstall call per referenced site, in reference order
    let torn: Vec<u128> = cascade.iter().map(|s| s.id.value).collect();
    assert_eq!(torn, vec![1, 2]);
    assert!(st.profiles.iter().all(|p| p.id != ident(5)));
    assert!(st.sites.iter().all(|s| s.id != ident(1) && s.id != ident(2)));
    assert!(st.sites.iter().any(|s| s.id == ident(8)));
}

#[test]
fn removing_the_nil_profile_keeps_the_record_and_clears_its_sites() {
    let mut st = Store::initial();
    st.insert_site(site(3, "S3", "https://3", "https://3d"));
    st.profiles[0].sites.push(ident(3));
    let cascade = st.remove_profile(Identifier::nil(), true).unwrap();
    assert_eq!(cascade.len(), 1);
    assert_eq!(cascade[0].id, ident(3));
    let nil = st.profiles.iter().find(|p| p.id == Identifier::nil()).unwrap();
    assert!(nil.sites.is_empty());
    assert!(st.sites.iter().all(|s| s.id != ident(3)));
}

#[test]
fn unconfirmed_removal_aborts_with_zero_side_effects() {
    let mut st = Store::initial();
    st.insert_site(site(1, "S1", "https://1", "https://1d"));
    st.insert_profile(profile(5, Some("P"), None, vec![1]));
    let before = st.to_text();
    assert!(matches!(st.remove_profile(ident(5), false), Err(Error::UserAborted)));
    assert_eq!(st.to_text(), before);
}

#[test]
fn removing_a_missing_profile_is_not_found() {
    let mut st = Store::initial();
    match st.remove_profile(ident(99), true) {
        Err(Error::NotFound(j)) => assert_eq!(j, ident(99)),
        _ => panic!("expected not-found"),
    }
}

#[test]
fn persisted_mutations_survive_a_round_trip() {
    let mut st = Store::initial();
    st.insert_site(site(1, "S1", "https://1", "https://1d"));
    let id = st.create_profile(None, Some("described".to_string()));
    st.update_profile(id, Some("named".to_string()), None).unwrap();
    let back = Store::from_text(&st.to_text()).unwrap();
    assert!(stores_equal(&st, &back));
}

#[test]
fn detection_prefers_the_registry_entry() {
    let reg = Some(RegistryEntry {
        display_version: "24.08".to_string(),
        install_location: "C:\\Program Files\\7-Zip".to_string(),
    });
    let dirs = vec!["C:\\tools".to_string()];
    let present = vec![true];
    let z = _7Zip::new(&reg, &dirs, &present);
    assert_eq!(z.version.as_deref(), Some("24.08"));
    assert_eq!(z.executable.as_deref(), Some("C:\\Program Files\\7-Zip\\7z.exe"));
}

#[test]
fn detection_falls_back_to_the_first_path_hit() {
    let dirs = vec!["a".to_string(), "b".to_string(), "c".to_string()];
    let present = vec![false, true, true];
    let z = _7Zip::new(&None, &dirs, &present);
    assert_eq!(z.version.as_deref(), Some("0.0.0"));
    assert_eq!(z.executable.as_deref(), Some("b\\7z.exe"));
}

#[test]
fn absent_tool_yields_an_empty_descriptor_and_run_fails() {
    let z = _7Zip::new(&None, &vec![], &vec![]);
    assert!(z.version.is_none());
    assert!(z.executable.is_none());
    assert_eq!(z.command(), Err(Error::NotInstalled));
}

#[test]
fn command_of_a_detected_tool_is_its_executable() {
    let dirs = vec!["d".to_string()];
    let z = _7Zip::new_from_path(&dirs, &vec![true]);
    assert_eq!(z.command(), Ok("d\\7z.exe".to_string()));
}

#[test]
fn installer_urls_are_version_pinned_and_architecture_selected() {
    assert_eq!(download_url(Some(Arch::X86)).unwrap(), "https://7-zip.org/a/7z2500.exe");
    assert_eq!(download_url(Some(Arch::X64)).unwrap(), "https://7-zip.org/a/7z2500-x64.exe");
    assert_eq!(download_url(Some(Arch::Arm64)).unwrap(), "https://7-zip.org/a/7z2500-arm64.exe");
    assert_eq!(download_url(None), Err(Error::UnsupportedPlatform));
}

#[test]
fn installer_exit_status_decides_the_verdict() {
    assert_eq!(install_verdict(true), Ok(()));
    assert_eq!(install_verdict(false), Err(Error::InstallFailure));
}

#[test]
fn only_an_explicit_affirmative_confirms() {
    assert!(confirmation_accepted("y"));
    assert!(confirmation_accepted("Y\n"));
    assert!(confirmation_accepted("  y  \r\n"));
    assert!(!confirmation_accepted("yes"));
    assert!(!confirmation_accepted("n"));
    assert!(!confirmation_accepted(""));
    assert!(!confirmation_accepted("  "));
}

#[test]
fn profile_directories_use_the_canonical_identifier_form() {
    let dir = profile_data_dir(&"/home/u/.local/share/app".to_string(), Identifier::nil());
    assert_eq!(dir, "/home/u/.local/share/app/profiles/00000000000000000000000000");
    let dir2 = profile_data_dir(&"u".to_string(), ident(1));
    assert_eq!(dir2, "u/profiles/00000000000000000000000001");
}

#[test]
fn keyed_insertion_replaces_an_existing_record() {
    let mut st = Store::initial();
    st.insert_profile(profile(3, Some("first"), None, vec![]));
    st.insert_profile(profile(3, Some("second"), None, vec![]));
    assert_eq!(st.profiles.len(), 2);
    let p = st.profiles.iter().find(|p| p.id == ident(3)).unwrap();
    assert_eq!(p.name.as_deref(), Some("second"));
}

#[test]
fn created_profiles_get_fresh_identifiers() {
    let mut st = Store::initial();
    let a = st.create_profile(None, None);
    let b = st.create_profile(None, None);
    assert!(st.profiles.iter().any(|p| p.id == a));
    assert!(st.profiles.iter().any(|p| p.id == b));
}

#[test]
fn round_trip_keeps_unusual_characters() {
    let mut st = Store::initial();
    st.insert_profile(profile(1, Some("line\nbreak \u{1F980} \\ \" mix"), None, vec![]));
    st.insert_site(site(2, "\ttab", "https://m", "https://d"));
    let back = Store::from_text(&st.to_text()).unwrap();
    assert!(stores_equal(&st, &back));
}

#[test]
fn truncated_or_padded_documents_are_corrupt() {
    let mut text = Store::initial().to_text();
    text.pop();
    assert!(matches!(Store::from_text(&text), Err(Error::Corrupt)));
    let mut text2 = Store::initial().to_text();
    text2.push(' ');
    assert!(matches!(Store::from_text(&text2), Err(Error::Corrupt)));
}
