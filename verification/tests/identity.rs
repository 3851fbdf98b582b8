use playpnp::config::Config;
use playpnp::identity::{load_or_create_uuid, read_uuid, uuid_or};

const ID: u128 = 0x0123456789abcdef_0123456789abcdef;
const TEXT: &str = "01234567-89ab-cdef-0123-456789abcdef";

#[test]
fn an_identity_is_read_in_any_form() {
    for s in [
        TEXT.to_string(),
        format!("  {}\n", TEXT),
        format!("uuid:{}", TEXT),
        format!("uuid:uuid:{}", TEXT),
        TEXT.to_uppercase(),
        TEXT.replace('-', ""),
        format!("{{{}}}", TEXT),
        format!("urn:uuid:{}", TEXT),
        format!("URN:UUID:{}", TEXT),
    ] {
        assert_eq!(read_uuid(&s), Some(ID), "{}", s);
    }
    for s in ["", "nonsense", "01234567-89ab-cdef-0123-456789abcde", "0123456789ab-cdef-0123-456789abcdef0"] {
        assert_eq!(read_uuid(s), None, "{}", s);
    }
}

#[test]
fn a_new_identity_is_stored_and_kept() {
    let (id, store) = load_or_create_uuid(None);
    assert_eq!(id >> 76 & 0xf, 4);
    assert_eq!(id >> 62 & 3, 2);
    let content = store.unwrap();
    assert_eq!(content.len(), 36);
    assert_eq!(load_or_create_uuid(Some(&content)), (id, None));
    let (other, _) = load_or_create_uuid(Some("nonsense"));
    assert_ne!(other, id);
    assert_eq!(uuid_or(None, ID), (ID, Some(TEXT.to_string())));
    assert_eq!(uuid_or(Some("x"), ID), (ID, Some(TEXT.to_string())));
    assert_eq!(uuid_or(Some(TEXT), 1), (ID, None));
}

#[test]
fn the_device_is_named_by_its_uuid() {
    let config = Config::load(ID, "box");
    assert_eq!(config.friendly_name, "playpnp (box)");
    assert_eq!(config.uuid_string(), format!("uuid:{}", TEXT));
    assert_eq!(config.udn(), config.uuid_string());
    assert_eq!((config.http_port, config.control_port), (0, 52411));
}
