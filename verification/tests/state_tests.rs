//! Tests of the in-memory session state: batch edits over selected
//! records, the whitespace guard, and the bookkeeping of a save pass.

use douyin_config::app_state::{is_skipped_dir_name, zip_file_name, MyApp};
use douyin_config::config::AppConfig;
use douyin_config::errors::FileError;
use douyin_config::editor::BytegameConfigEditor;
use douyin_config::json::Json;
use douyin_config::manifest::ProjectConfig;
use douyin_config::model::ProjectItem;
use douyin_config::script::JsConfig;

fn item(appid: &str, selected: bool, with_js: bool) -> ProjectItem {
    ProjectItem {
        path: format!("{appid}/project.config.json"),
        config: ProjectConfig {
            appid: appid.to_string(),
            projectname: "game".to_string(),
            extra: Json::Obj(Vec::new()),
        },
        js_path: if with_js { Some(format!("{appid}/application.js")) } else { None },
        js_config: if with_js {
            Some(JsConfig {
                app_id: appid.to_string(),
                douyin_ids: vec!["d1".to_string()],
                douyin_ids_str: "d1".to_string(),
            })
        } else {
            None
        },
        image_paths: Vec::new(),
        is_modified: false,
        selected,
    }
}

fn app_with(items: Vec<ProjectItem>) -> MyApp {
    let mut app = MyApp::default();
    app.projects = items;
    app
}

#[test]
fn whitespace_batch_input_changes_nothing() {
    let mut app = app_with(vec![item("a", true, true), item("b", true, false)]);
    app.batch_appid = " \t\n ".to_string();
    app.batch_projectname = "   ".to_string();
    app.batch_douyin_ids = "\t".to_string();
    app.apply_batch_appid();
    app.apply_batch_name();
    app.apply_batch_douyin_ids();
    for (it, want) in app.projects.iter().zip(["a", "b"]) {
        assert!(!it.is_modified);
        assert_eq!(it.config.appid, want);
        assert_eq!(it.config.projectname, "game");
        if let Some(js) = &it.js_config {
            assert_eq!(js.app_id, want);
            assert_eq!(js.douyin_ids_str, "d1");
        }
    }
}

#[test]
fn batch_appid_hits_selected_records_only() {
    let mut app = app_with(vec![item("a", true, true), item("b", false, true), item("c", true, false)]);
    app.batch_appid = "fresh".to_string();
    app.apply_batch_appid();
    let p = &app.projects;
    assert_eq!(p[0].config.appid, "fresh");
    assert_eq!(p[0].js_config.as_ref().unwrap().app_id, "fresh");
    assert!(p[0].is_modified);
    assert_eq!(p[1].config.appid, "b");
    assert_eq!(p[1].js_config.as_ref().unwrap().app_id, "b");
    assert!(!p[1].is_modified);
    assert_eq!(p[2].config.appid, "fresh");
    assert!(p[2].js_config.is_none());
    assert!(p[2].is_modified);
}

#[test]
fn batch_name_touches_manifest_side_only() {
    let mut app = app_with(vec![item("a", true, true)]);
    app.batch_projectname = "renamed".to_string();
    app.apply_batch_name();
    assert_eq!(app.projects[0].config.projectname, "renamed");
    assert_eq!(app.projects[0].js_config.as_ref().unwrap().app_id, "a");
    assert!(app.projects[0].is_modified);
}

#[test]
fn batch_ids_sanitizes_and_skips_records_without_script() {
    let mut app = app_with(vec![item("a", true, true), item("b", true, false)]);
    app.batch_douyin_ids = " x1 ,\tx2 ".to_string();
    app.apply_batch_douyin_ids();
    assert_eq!(app.batch_douyin_ids, "x1,x2");
    let js = app.projects[0].js_config.as_ref().unwrap();
    assert_eq!(js.douyin_ids_str, "x1,x2");
    assert_eq!(js.douyin_ids, vec!["x1".to_string(), "x2".to_string()]);
    assert!(app.projects[0].is_modified);
    assert!(!app.projects[1].is_modified);
}

#[test]
fn save_pass_isolates_one_failure() {
    let mut app = app_with(vec![item("a", true, true), item("b", true, true), item("c", true, true)]);
    for it in app.projects.iter_mut() {
        it.is_modified = true;
    }
    let results = vec![true, false, true];
    let (saved, failed) = app.apply_save_outcomes(&results);
    assert_eq!(saved, 2);
    assert_eq!(failed, 1);
    assert!(!app.projects[0].is_modified);
    assert!(app.projects[1].is_modified);
    assert!(!app.projects[2].is_modified);
}

#[test]
fn save_pass_skips_clean_records() {
    let mut app = app_with(vec![item("a", true, true), item("b", true, true)]);
    app.projects[1].is_modified = true;
    let results = vec![false, true];
    let (saved, failed) = app.apply_save_outcomes(&results);
    assert_eq!(saved, 1);
    assert_eq!(failed, 0);
    assert!(!app.projects[0].is_modified);
    assert!(!app.projects[1].is_modified);
}

#[test]
fn clear_data_keeps_the_root() {
    let mut app = app_with(vec![item("a", true, true)]);
    app.root_path = Some("somewhere".to_string());
    app.batch_appid = "x".to_string();
    app.clear_data();
    assert_eq!(app.root_path.as_deref(), Some("somewhere"));
    assert!(app.projects.is_empty());
    assert!(app.batch_appid.is_empty());
}

#[test]
fn app_config_new_and_is_empty() {
    let mut cfg = AppConfig::new();
    assert!(cfg.is_empty());
    cfg.douyin_ids = "\"a\"".to_string();
    assert!(!cfg.is_empty());
}

#[test]
fn editor_prepare_formats_ids_and_syncs_identifier() {
    let mut ed = BytegameConfigEditor::new();
    ed.new_config.appid = "tt42".to_string();
    ed.new_config.douyin_ids = " x , \"y\" ,, ".to_string();
    ed.prepare_modifications();
    assert_eq!(ed.new_config.douyin_ids, "\"x\",\"y\"");
    assert_eq!(ed.new_config.app_id, "tt42");
    assert!(ed.is_modifying);
    assert!(ed.modified_files.is_empty());
}

#[test]
fn editor_reset_restores_loaded_values() {
    let mut ed = BytegameConfigEditor::new();
    ed.config.appid = "loaded".to_string();
    ed.new_config.appid = "edited".to_string();
    ed.reset();
    assert_eq!(ed.new_config.appid, "loaded");
}

#[test]
fn editor_adopts_first_non_empty_script_fields() {
    let mut ed = BytegameConfigEditor::new();
    let mut empty = AppConfig::new();
    assert!(!ed.adopt_js_config(&empty));
    empty.app_id = "found".to_string();
    assert!(ed.adopt_js_config(&empty));
    assert_eq!(ed.config.app_id, "found");
    assert_eq!(ed.config.douyin_ids, "");
}

#[test]
fn archive_name_prefers_the_display_name() {
    assert_eq!(zip_file_name("MyGame", "folder"), "MyGame.zip");
    assert_eq!(zip_file_name("", "folder"), "folder.zip");
}

#[test]
fn archive_skips_tooling_directories() {
    assert!(is_skipped_dir_name("node_modules"));
    assert!(is_skipped_dir_name(".git"));
    assert!(is_skipped_dir_name(".svn"));
    assert!(!is_skipped_dir_name("assets"));
}

#[test]
fn error_kinds_have_labels() {
    assert_eq!(FileError::Read.label(), "read");
    assert_eq!(FileError::Parse.label(), "parse");
    assert_eq!(FileError::Write.label(), "write");
}

#[test]
fn editor_finish_modifications_promotes_edits() {
    let mut ed = BytegameConfigEditor::new();
    ed.new_config.appid = "done".to_string();
    ed.prepare_modifications();
    ed.record_modified("JSON: project.config.json".to_string());
    ed.finish_modifications();
    assert!(!ed.is_modifying);
    assert!(ed.show_success);
    assert_eq!(ed.config.appid, "done");
    assert_eq!(ed.modified_files.len(), 1);
}
