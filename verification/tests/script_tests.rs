//! Tests of the script-file codec: extraction, replacement, no-op
//! detection, and the empty defaults.

use douyin_config::script::{
    extract_app_id, extract_douyin_ids, js_config_from_content, script_replace,
    script_write_needed, JsConfig,
};

#[test]
fn test_extract_app_id() {
    let content = r#"appId="test123""#;
    assert_eq!(extract_app_id(content), Some("test123".to_string()));
}

#[test]
fn test_extract_douyin_ids() {
    let content = r#"douyinIds=["id1","id2"]"#;
    assert_eq!(extract_douyin_ids(content), Some("\"id1\",\"id2\"".to_string()));
}

#[test]
fn test_extract_real_content() {
    let content = r#"d.rewardVideoAd=void 0,d.nowid=0,d.appId="appId",d.douyinIds=["id1","id2"],e._RF.pop()"#;
    assert_eq!(extract_app_id(content), Some("appId".to_string()));
    assert_eq!(extract_douyin_ids(content), Some("\"id1\",\"id2\"".to_string()));

    let new_content = script_replace(content, "new_app_id", "\"new_id1\",\"new_id2\"");

    assert!(new_content.contains(r#"d.appId="new_app_id""#));
    assert!(new_content.contains(r#"d.douyinIds=["new_id1","new_id2"]"#));
}

#[test]
fn test_js_config_parsing() {
    let js_content = r#"
            // some code
            d.appId="old_app_id",d.douyinIds=["id1","id2"],e._RF.pop()
            // more code
        "#;

    assert_eq!(extract_app_id(js_content), Some("old_app_id".to_string()));
    assert_eq!(extract_douyin_ids(js_content), Some("\"id1\",\"id2\"".to_string()));

    let new_app_id = "new_app_id";
    let new_content = script_replace(js_content, new_app_id, "\"id1\",\"id2\"");
    assert!(new_content.contains(r#"d.appId="new_app_id""#));

    let new_content_2 = script_replace(&new_content, new_app_id, "\"new1\",\"new2\"");
    assert!(new_content_2.contains(r#"d.douyinIds=["new1","new2"]"#));
}

#[test]
fn extraction_fields_and_list() {
    let content = r#"d.appId="appId",d.douyinIds=["id1","id2"]"#;
    let cfg = js_config_from_content(content);
    assert_eq!(cfg.app_id, "appId");
    assert_eq!(cfg.douyin_ids, vec!["id1".to_string(), "id2".to_string()]);
    assert_eq!(cfg.douyin_ids_str, "id1,id2");
}

#[test]
fn replacement_changes_only_the_fields() {
    let content = r#"d.appId="appId",d.douyinIds=["id1","id2"]"#;
    let replaced = script_replace(content, "new_app_id", "new_id1,new_id2");
    assert!(replaced.contains(r#"d.appId="new_app_id""#));
    assert!(replaced.contains(r#"d.douyinIds=["new_id1","new_id2"]"#));
    assert_eq!(replaced, r#"d.appId="new_app_id",d.douyinIds=["new_id1","new_id2"]"#);
}

#[test]
fn replace_with_extracted_is_identity() {
    let content = r#"var x = 1; d.appId = "abc", d.douyinIds=["a","b"], done();"#;
    let cfg = js_config_from_content(content);
    let replaced = script_replace(content, &cfg.app_id, &cfg.douyin_ids_str);
    assert_eq!(replaced, content);
}

#[test]
fn write_needed_reports_changes_only() {
    let content = r#"d.appId="abc",d.douyinIds=["a","b"]"#;
    assert!(!script_write_needed(content, "abc", "a,b"));
    assert!(script_write_needed(content, "other", "a,b"));
    assert!(script_write_needed(content, "abc", "a,b,c"));
}

#[test]
fn missing_fields_default_and_noop() {
    let content = "console.log('nothing to see');";
    let cfg = js_config_from_content(content);
    assert_eq!(cfg.app_id, "");
    assert!(cfg.douyin_ids.is_empty());
    assert_eq!(cfg.douyin_ids_str, "");
    let replaced = script_replace(content, "whatever", "a,b");
    assert_eq!(replaced, content);
    assert!(!script_write_needed(content, "whatever", "a,b"));
}

#[test]
fn single_quotes_and_spacing_are_matched() {
    let content = "conf.appId = 'aid' ; conf.douyinIds = [ 'x' , \"y\" ]";
    let cfg = js_config_from_content(content);
    assert_eq!(cfg.app_id, "aid");
    assert_eq!(cfg.douyin_ids, vec!["x".to_string(), "y".to_string()]);
    let replaced = script_replace(content, "bid", "z");
    assert_eq!(replaced, "conf.appId = \"bid\" ; conf.douyinIds = [\"z\"]");
}

#[test]
fn empty_list_pieces_are_dropped() {
    let content = r#"d.appId="a",d.douyinIds=[]"#;
    let cfg = js_config_from_content(content);
    assert!(cfg.douyin_ids.is_empty());
    let replaced = script_replace(content, "a", " , ,, ");
    assert_eq!(replaced, content);
}

#[test]
fn field_set_keeps_list_and_string_consistent() {
    let mut cfg = JsConfig::empty();
    cfg.set_douyin_ids_str(" \"a\" , b ,, ");
    assert_eq!(cfg.douyin_ids, vec!["a".to_string(), "b".to_string()]);
    assert_eq!(cfg.douyin_ids_str, " \"a\" , b ,, ");
}
