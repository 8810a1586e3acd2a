//! The single-project editor session: the loaded configuration, the
//! values being edited, and the state transitions around loading and
//! applying modifications.  The file and directory traffic around a
//! session stays outside.

use vstd::prelude::*;
use vstd::string::StringExecFns;

use crate::config::AppConfig;
use crate::discovery::{image_qualifies, qualifying_image};
use crate::errors::FileError;
use crate::json::{get_str_field, parse_document, sp_get_str, sp_parse_doc};
use crate::manifest::{appid_key, appid_key_chars, name_key, name_key_chars};
use crate::script::{
    clean_ids_chars, extract_app_id, extract_douyin_ids, quote_join_chars, sp_clean_ids,
    sp_extract_id, sp_extract_ids_raw, sp_quote_join,
};
use crate::text::{chars_of, string_from_chars};

verus! {

/// Read the manifest fields of one configuration file's content: the
/// identifier and display name, each empty when absent or not a
/// string.  Fails exactly when the content is not well-formed JSON.
pub fn read_json_config(content: &str) -> (r: Result<AppConfig, FileError>)
    ensures
        match r {
            Ok(cfg) => {
                &&& sp_parse_doc(content@) matches Some(d) && cfg.appid@ == sp_get_str(
                    d,
                    appid_key(),
                ) && cfg.appname@ == sp_get_str(d, name_key())
                &&& cfg.app_id@.len() == 0
                &&& cfg.douyin_ids@.len() == 0
            },
            Err(e) => e == FileError::Parse && sp_parse_doc(content@) is None,
        },
{
    let cc = chars_of(content);
    match parse_document(&cc) {
        Some(d) => {
            let ak = appid_key_chars();
            let nk = name_key_chars();
            let appid_c = get_str_field(&d, &ak);
            let name_c = get_str_field(&d, &nk);
            Ok(
                AppConfig {
                    appid: string_from_chars(&appid_c),
                    app_id: String::new(),
                    douyin_ids: String::new(),
                    appname: string_from_chars(&name_c),
                },
            )
        },
        None => Err(FileError::Parse),
    }
}

/// Read the script fields of one script file's content: the identifier
/// value and the raw list body, each empty when its pattern is absent.
pub fn read_js_config(content: &str) -> (r: AppConfig)
    ensures
        r.app_id@ == match sp_extract_id(content@) {
            Some(v) => v,
            None => Seq::<char>::empty(),
        },
        r.douyin_ids@ == match sp_extract_ids_raw(content@) {
            Some(b) => b,
            None => Seq::<char>::empty(),
        },
        r.appid@.len() == 0,
        r.appname@.len() == 0,
{
    let app_id = match extract_app_id(content) {
        Some(v) => v,
        None => String::new(),
    };
    let douyin_ids = match extract_douyin_ids(content) {
        Some(v) => v,
        None => String::new(),
    };
    AppConfig { appid: String::new(), app_id, douyin_ids, appname: String::new() }
}

/// The single-project editor state.
pub struct BytegameConfigEditor {
    /// The chosen project directory; empty until one is picked.
    pub project_dir: String,
    /// The configuration as loaded from disk.
    pub config: AppConfig,
    /// The configuration being edited.
    pub new_config: AppConfig,
    /// The status line shown to the user.
    pub status_message: String,
    /// A modification pass is running.
    pub is_modifying: bool,
    /// The last modification pass finished.
    pub show_success: bool,
    /// Labels of the files the last pass changed.
    pub modified_files: Vec<String>,
    /// Preview images of the required width: a location label and the
    /// raw bytes.
    pub preview_images: Vec<(String, Vec<u8>)>,
}

impl BytegameConfigEditor {
    /// A fresh editor with nothing loaded.
    pub fn new() -> (r: BytegameConfigEditor)
        ensures
            r.project_dir@.len() == 0,
            r.config.appid@.len() == 0 && r.config.app_id@.len() == 0 && r.config.douyin_ids@.len()
                == 0 && r.config.appname@.len() == 0,
            r.new_config.appid@.len() == 0 && r.new_config.app_id@.len() == 0
                && r.new_config.douyin_ids@.len() == 0 && r.new_config.appname@.len() == 0,
            !r.is_modifying,
            !r.show_success,
            r.modified_files@.len() == 0,
            r.preview_images@.len() == 0,
    {
        BytegameConfigEditor {
            project_dir: String::new(),
            config: AppConfig::new(),
            new_config: AppConfig::new(),
            status_message: String::from_str("choose a mini-game project directory"),
            is_modifying: false,
            show_success: false,
            modified_files: Vec::new(),
            preview_images: Vec::new(),
        }
    }

    /// Start a load pass: the loaded configuration and the preview list
    /// are emptied; everything else stays.
    pub fn begin_load(&mut self)
        ensures
            final(self).config.appid@.len() == 0,
            final(self).config.app_id@.len() == 0,
            final(self).config.douyin_ids@.len() == 0,
            final(self).config.appname@.len() == 0,
            final(self).preview_images@.len() == 0,
            final(self).project_dir == old(self).project_dir,
            final(self).new_config == old(self).new_config,
            final(self).is_modifying == old(self).is_modifying,
            final(self).show_success == old(self).show_success,
            final(self).modified_files == old(self).modified_files,
    {
        self.config = AppConfig::new();
        self.preview_images = Vec::new();
    }

    /// Keep one candidate preview: the bytes are kept under their label
    /// exactly when they decode to an image of the required width.
    pub fn absorb_preview(&mut self, label: String, data: Vec<u8>) -> (r: bool)
        ensures
            r == qualifying_image(data@),
            r ==> final(self).preview_images@ == old(self).preview_images@.push((label, data)),
            !r ==> final(self).preview_images == old(self).preview_images,
            final(self).config == old(self).config,
            final(self).new_config == old(self).new_config,
            final(self).project_dir == old(self).project_dir,
            final(self).modified_files == old(self).modified_files,
            final(self).is_modifying == old(self).is_modifying,
            final(self).show_success == old(self).show_success,
    {
        if image_qualifies(&data) {
            self.preview_images.push((label, data));
            true
        } else {
            false
        }
    }

    /// Adopt manifest fields read from a configuration file.
    pub fn adopt_json_config(&mut self, cfg: &AppConfig)
        ensures
            final(self).config.appid == cfg.appid,
            final(self).config.appname == cfg.appname,
            final(self).config.app_id == old(self).config.app_id,
            final(self).config.douyin_ids == old(self).config.douyin_ids,
            final(self).new_config == old(self).new_config,
            final(self).project_dir == old(self).project_dir,
            final(self).preview_images == old(self).preview_images,
            final(self).modified_files == old(self).modified_files,
            final(self).is_modifying == old(self).is_modifying,
            final(self).show_success == old(self).show_success,
    {
        self.config.appid = cfg.appid.clone();
        self.config.appname = cfg.appname.clone();
    }

    /// Adopt script fields read from one script file; reports whether
    /// the file held anything, so a caller can stop at the first such
    /// file.  An empty field leaves the loaded value alone.
    pub fn adopt_js_config(&mut self, cfg: &AppConfig) -> (r: bool)
        ensures
            r == (cfg.app_id@.len() > 0 || cfg.douyin_ids@.len() > 0),
            final(self).config.app_id == (if cfg.app_id@.len() > 0 {
                cfg.app_id
            } else {
                old(self).config.app_id
            }),
            final(self).config.douyin_ids == (if cfg.douyin_ids@.len() > 0 {
                cfg.douyin_ids
            } else {
                old(self).config.douyin_ids
            }),
            final(self).config.appid == old(self).config.appid,
            final(self).config.appname == old(self).config.appname,
            final(self).new_config == old(self).new_config,
            final(self).project_dir == old(self).project_dir,
            final(self).preview_images == old(self).preview_images,
            final(self).modified_files == old(self).modified_files,
            final(self).is_modifying == old(self).is_modifying,
            final(self).show_success == old(self).show_success,
    {
        let mut found = false;
        if !self.is_empty_str(&cfg.app_id) {
            self.config.app_id = cfg.app_id.clone();
            found = true;
        }
        if !self.is_empty_str(&cfg.douyin_ids) {
            self.config.douyin_ids = cfg.douyin_ids.clone();
            found = true;
        }
        found
    }

    fn is_empty_str(&self, s: &String) -> (r: bool)
        ensures
            r == (s@.len() == 0),
    {
        s.as_str().is_empty()
    }

    /// Finish a load pass: the edited values start out equal to the
    /// loaded ones.
    pub fn finish_load(&mut self)
        ensures
            final(self).new_config == old(self).config,
            final(self).config == old(self).config,
            final(self).project_dir == old(self).project_dir,
            final(self).preview_images == old(self).preview_images,
            final(self).modified_files == old(self).modified_files,
            final(self).is_modifying == old(self).is_modifying,
            final(self).show_success == old(self).show_success,
    {
        self.new_config = self.config.duplicate();
    }

    /// Restore the edited values to the loaded ones.
    pub fn reset(&mut self)
        ensures
            final(self).new_config == old(self).config,
            final(self).config == old(self).config,
            final(self).project_dir == old(self).project_dir,
            final(self).preview_images == old(self).preview_images,
            final(self).modified_files == old(self).modified_files,
            final(self).is_modifying == old(self).is_modifying,
            final(self).show_success == old(self).show_success,
    {
        self.new_config = self.config.duplicate();
        self.status_message = String::from_str("reset to the loaded values");
    }

    /// Begin applying modifications: the edited list body is rebuilt as
    /// double-quoted cleaned pieces, the script identifier is synced
    /// from the manifest identifier, the pass is marked running, and
    /// the changed-file list is emptied.
    pub fn prepare_modifications(&mut self)
        ensures
            final(self).new_config.douyin_ids@ == sp_quote_join(
                sp_clean_ids(old(self).new_config.douyin_ids@),
            ),
            final(self).new_config.app_id == old(self).new_config.appid,
            final(self).new_config.appid == old(self).new_config.appid,
            final(self).new_config.appname == old(self).new_config.appname,
            final(self).is_modifying,
            final(self).modified_files@.len() == 0,
            final(self).config == old(self).config,
            final(self).project_dir == old(self).project_dir,
            final(self).preview_images == old(self).preview_images,
            final(self).show_success == old(self).show_success,
    {
        let idsc = chars_of(self.new_config.douyin_ids.as_str());
        let pieces = clean_ids_chars(&idsc);
        let body = quote_join_chars(&pieces);
        self.new_config.douyin_ids = string_from_chars(&body);
        self.new_config.app_id = self.new_config.appid.clone();
        self.is_modifying = true;
        self.modified_files = Vec::new();
    }

    /// Note one changed file.
    pub fn record_modified(&mut self, label: String)
        ensures
            final(self).modified_files@ == old(self).modified_files@.push(label),
            final(self).config == old(self).config,
            final(self).new_config == old(self).new_config,
            final(self).project_dir == old(self).project_dir,
            final(self).preview_images == old(self).preview_images,
            final(self).is_modifying == old(self).is_modifying,
            final(self).show_success == old(self).show_success,
    {
        self.modified_files.push(label);
    }

    /// Finish applying modifications: the pass stops, success is shown,
    /// and the loaded configuration becomes the edited one.
    pub fn finish_modifications(&mut self)
        ensures
            !final(self).is_modifying,
            final(self).show_success,
            final(self).config == old(self).new_config,
            final(self).new_config == old(self).new_config,
            final(self).project_dir == old(self).project_dir,
            final(self).preview_images == old(self).preview_images,
            final(self).modified_files == old(self).modified_files,
    {
        self.is_modifying = false;
        self.show_success = true;
        self.config = self.new_config.duplicate();
    }
}

} // verus!
