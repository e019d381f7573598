use kurumi_containerd::config::identity::{
    assign_new_uuid, assign_uuid, container_uuid, persist_identity, temporary_extension, uuid_text,
    IdentityError,
};

const SOURCE: &str = "[runtime]\n\n[container]\nname = 'test'\nrootfs = 'rootfs'\n";

fn uuid_of(source: &str) -> Option<String> {
    let value: toml::Value = toml::from_str(source).unwrap();
    value.get("container")?.get("uuid")?.as_str().map(str::to_owned)
}

#[test]
fn persists_stable_uuid_when_missing() {
    let (uuid, written) = assign_new_uuid(SOURCE).unwrap();
    assert_eq!(uuid_of(&written), Some(uuid_text(uuid)));
    assert_eq!(container_uuid(Some(uuid)), uuid);
    assert!(!written.contains(".tmp"));
    let value: toml::Value = toml::from_str(&written).unwrap();
    assert_eq!(value["container"]["name"].as_str(), Some("test"));
    assert_eq!(value["container"]["rootfs"].as_str(), Some("rootfs"));
    assert!(value["runtime"].is_table());
}

#[test]
fn lib_persists_stable_uuid_when_missing() {
    let first = assign_uuid(SOURCE, 0x1234).unwrap();
    assert_eq!(uuid_of(&first).as_deref(), Some("00000000-0000-0000-0000-000000001234"));
    let second = assign_uuid(&first, 0x1234).unwrap();
    assert_eq!(first, second);
}

#[test]
fn uuids_are_written_as_usual() {
    let bits: u128 = 0x0123_4567_89ab_cdef_0011_2233_4455_6677;
    assert_eq!(uuid_text(bits), "01234567-89ab-cdef-0011-223344556677");
    assert_eq!(uuid_text(bits), uuid::Uuid::from_u128(bits).to_string());
    assert_eq!(temporary_extension(bits), format!("{}.tmp", uuid_text(bits)));
}

#[test]
fn new_identities_differ_and_configured_ones_stay() {
    assert_eq!(container_uuid(Some(7)), 7);
    let fresh = container_uuid(None);
    assert_ne!(fresh, container_uuid(None));
    assert_eq!(uuid::Uuid::from_u128(fresh).get_version_num(), 4);
}

#[test]
fn documents_without_a_container_get_no_identity() {
    assert_eq!(assign_uuid("[runtime", 1), Err(IdentityError::Syntax));
    assert_eq!(assign_uuid("[runtime]\n", 1), Err(IdentityError::NoContainer));
    assert_eq!(assign_uuid("container = 1\n", 1), Err(IdentityError::NoContainer));
    assert!(matches!(assign_new_uuid("x"), Err(IdentityError::Syntax)));
}

#[test]
fn only_the_identity_changes() {
    let source = "[runtime]\nstop_timeout_seconds = 15\n\n[container]\nname = 'test'\nforeground \
                  = true\nuuid = { old = 1 }\nsince = 2024-01-02T03:04:05Z\nratio = 0.5\n\n\
                  [container.network_options]\nprefix = 24\ndns = ['1.1.1.1', \
                  '8.8.8.8']\n\n[[container.network_options.ports]]\nhost = 8080\ncontainer = \
                  80\n\n[container.android]\n";
    let before: toml::Value = toml::from_str(source).unwrap();
    let after: toml::Value = toml::from_str(&assign_uuid(source, 7).unwrap()).unwrap();
    let mut expected = before.clone();
    expected["container"]
        .as_table_mut()
        .unwrap()
        .insert("uuid".to_owned(), toml::Value::String(uuid_text(7)));
    assert_eq!(after, expected);
}

#[test]
fn a_configured_identity_is_not_written_again() {
    assert_eq!(persist_identity(Some(5), SOURCE), Ok(None));
    assert_eq!(persist_identity(Some(5), "no toml"), Ok(None));
    let (uuid, text) = persist_identity(None, SOURCE).unwrap().unwrap();
    assert_eq!(uuid_of(&text), Some(uuid_text(uuid)));
    assert_eq!(persist_identity(None, "no toml"), Err(IdentityError::Syntax));
}

#[test]
fn texts_that_could_not_be_read_again_are_refused() {
    let key = vec!["a"; 70].join(".");
    let source = format!("x = [1, {{ {key} = {{ {key} = 1 }} }}]\n[container]\nname = 'test'\n");
    assert!(toml::from_str::<toml::Value>(&source).is_ok());
    assert_eq!(assign_uuid(&source, 1), Err(IdentityError::Unreadable));
}
