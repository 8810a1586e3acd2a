//! Tests of the manifest codec and the underlying JSON document model:
//! reading the two known fields, writing with everything else
//! preserved, and the round trip.

use douyin_config::errors::FileError;
use douyin_config::json::{get_str_field, parse_document, serialize, Json};
use douyin_config::manifest::{manifest_from_chars, manifest_to_chars, update_manifest_content};
use douyin_config::text::{chars_of, string_from_chars};

fn key(s: &str) -> Vec<char> {
    chars_of(s)
}

fn obj_get<'a>(j: &'a Json, name: &str) -> Option<&'a Json> {
    match j {
        Json::Obj(members) => {
            let k = key(name);
            for (mk, mv) in members.iter() {
                if *mk == k {
                    return Some(mv);
                }
            }
            None
        }
        _ => None,
    }
}

#[test]
fn test_read_json_config() {
    // Reading from disk is the caller's part; the content-level reader is
    // covered by the surrounding tests.
}

#[test]
fn test_config_flatten() {
    let json_data = r#"{
            "appid": "tt123456",
            "projectname": "TestGame",
            "setting": {
                "es6": true
            },
            "compileType": "miniprogram"
        }"#;

    let mut config = manifest_from_chars(&chars_of(json_data)).expect("parse failed");
    assert_eq!(config.appid, "tt123456");
    assert_eq!(config.projectname, "TestGame");
    config.appid = "tt_new_id".to_string();

    let new_json = string_from_chars(&manifest_to_chars(&config));
    let v = parse_document(&chars_of(&new_json)).unwrap();

    assert_eq!(string_from_chars(&get_str_field(&v, &key("appid"))), "tt_new_id");
    let setting = obj_get(&v, "setting").unwrap();
    assert_eq!(obj_get(setting, "es6"), Some(&Json::Bool(true)));
}

#[test]
fn round_trip_preserves_extras() {
    let doc = r#"{"appid":"a1","projectname":"n1","extra1":{"nested":[1,2,{"k":"v"}],"t":true},"z":null,"num":1.5e3,"s":"line\nbreak A"}"#;
    let c1 = manifest_from_chars(&chars_of(doc)).unwrap();
    let s1 = string_from_chars(&manifest_to_chars(&c1));
    let c2 = manifest_from_chars(&chars_of(&s1)).unwrap();
    let s2 = string_from_chars(&manifest_to_chars(&c2));

    assert_eq!(s1, s2);
    assert_eq!(c1.extra, c2.extra);
    assert_eq!(c1.appid, c2.appid);
    assert_eq!(c1.projectname, c2.projectname);

    let orig = parse_document(&chars_of(doc)).unwrap();
    let reread = parse_document(&chars_of(&s2)).unwrap();
    for name in ["extra1", "z", "num", "s"] {
        assert_eq!(obj_get(&orig, name), obj_get(&reread, name), "extra {name} changed");
    }
}

#[test]
fn round_trip_after_field_edit_keeps_extras() {
    let doc = r#"{"deep":{"a":[true,false,null]},"appid":"old","projectname":"p"}"#;
    let mut c = manifest_from_chars(&chars_of(doc)).unwrap();
    c.appid = "new".to_string();
    let s = string_from_chars(&manifest_to_chars(&c));
    let c2 = manifest_from_chars(&chars_of(&s)).unwrap();
    assert_eq!(c2.appid, "new");
    assert_eq!(c2.projectname, "p");
    assert_eq!(c.extra, c2.extra);
    let orig = parse_document(&chars_of(doc)).unwrap();
    let reread = parse_document(&chars_of(&s)).unwrap();
    assert_eq!(obj_get(&orig, "deep"), obj_get(&reread, "deep"));
}

#[test]
fn parse_error_on_bad_bytes() {
    assert_eq!(manifest_from_chars(&chars_of("not json")).unwrap_err(), FileError::Parse);
    assert_eq!(manifest_from_chars(&chars_of(r#"{"a":}"#)).unwrap_err(), FileError::Parse);
}

#[test]
fn parse_error_on_non_object() {
    assert_eq!(manifest_from_chars(&chars_of("[1,2]")).unwrap_err(), FileError::Parse);
    assert_eq!(manifest_from_chars(&chars_of("\"s\"")).unwrap_err(), FileError::Parse);
}

#[test]
fn missing_fields_default_to_empty() {
    let c = manifest_from_chars(&chars_of(r#"{"other":1,"appid":17}"#)).unwrap();
    assert_eq!(c.appid, "");
    assert_eq!(c.projectname, "");
}

#[test]
fn update_content_sets_fields_in_place() {
    let disk = r#"{"projectname":"old","other":7,"appid":"x"}"#;
    let out = update_manifest_content(
        &chars_of(disk),
        &chars_of("new_id"),
        &chars_of("new_name"),
    )
    .unwrap();
    let s = string_from_chars(&out);
    let v = parse_document(&chars_of(&s)).unwrap();
    assert_eq!(string_from_chars(&get_str_field(&v, &key("appid"))), "new_id");
    assert_eq!(string_from_chars(&get_str_field(&v, &key("projectname"))), "new_name");
    assert_eq!(obj_get(&v, "other"), Some(&Json::Num(chars_of("7"))));
    // in-place: the member order of the disk file is kept
    assert!(s.find("projectname").unwrap() < s.find("other").unwrap());
    assert!(s.find("other").unwrap() < s.find("appid").unwrap());
}

#[test]
fn update_content_rejects_bad_json() {
    assert_eq!(
        update_manifest_content(&chars_of("{"), &chars_of("a"), &chars_of("b")).unwrap_err(),
        FileError::Parse
    );
}

#[test]
fn update_content_leaves_non_objects_alone() {
    let out = update_manifest_content(&chars_of("[1,2]"), &chars_of("a"), &chars_of("b")).unwrap();
    assert_eq!(string_from_chars(&out), "[\n  1,\n  2\n]");
}

#[test]
fn json_numbers_keep_their_lexeme() {
    let v = parse_document(&chars_of("[1.50e2, -0.5, 0]")).unwrap();
    let s = string_from_chars(&serialize(&v));
    assert_eq!(s, "[\n  1.50e2,\n  -0.5,\n  0\n]");
}

#[test]
fn json_rejects_malformed_documents() {
    for bad in ["{", "01", "1.", "--1", "[1,]", "{\"a\" 1}", "[1] trailing", "'s'"] {
        assert!(parse_document(&chars_of(bad)).is_none(), "accepted {bad}");
    }
}

#[test]
fn json_string_escapes_round_trip() {
    let doc = r#"{"k":"quote \" backslash \\ slash \/ tab \t nl \n cr \r b \b f \f uni é"}"#;
    let v = parse_document(&chars_of(doc)).unwrap();
    let s = string_from_chars(&serialize(&v));
    let v2 = parse_document(&chars_of(&s)).unwrap();
    assert_eq!(v, v2);
}

#[test]
fn json_unicode_escape_decodes() {
    let v = parse_document(&chars_of(r#"{"appid":"\u0041BC"}"#)).unwrap();
    assert_eq!(string_from_chars(&get_str_field(&v, &key("appid"))), "ABC");
}
