//! The flat configuration record of one project directory, as the
//! single-project editor uses it: both manifest fields and both script
//! fields side by side.

use vstd::prelude::*;

verus! {

/// Configuration gathered from one project: the manifest's identifier
/// and display name, and the script file's identifier and raw
/// platform-ID list body.
pub struct AppConfig {
    /// The manifest `appid` field.
    pub appid: String,
    /// The script `appId` value.
    pub app_id: String,
    /// The script platform-ID list body, as written between the
    /// brackets (for example `"id1","id2"`).
    pub douyin_ids: String,
    /// The manifest `projectname` field.
    pub appname: String,
}

impl Default for AppConfig {
    /// The empty configuration.
    fn default() -> (r: AppConfig)
        ensures
            r.appid@.len() == 0,
            r.app_id@.len() == 0,
            r.douyin_ids@.len() == 0,
            r.appname@.len() == 0,
    {
        AppConfig {
            appid: String::new(),
            app_id: String::new(),
            douyin_ids: String::new(),
            appname: String::new(),
        }
    }
}

impl AppConfig {
    /// A new, empty configuration.
    pub fn new() -> (r: AppConfig)
        ensures
            r.appid@.len() == 0,
            r.app_id@.len() == 0,
            r.douyin_ids@.len() == 0,
            r.appname@.len() == 0,
    {
        AppConfig::default()
    }

    /// All four fields are empty.
    pub fn is_empty(&self) -> (r: bool)
        ensures
            r == (self.appid@.len() == 0 && self.app_id@.len() == 0 && self.douyin_ids@.len() == 0
                && self.appname@.len() == 0),
    {
        self.appid.as_str().is_empty() && self.app_id.as_str().is_empty()
            && self.douyin_ids.as_str().is_empty() && self.appname.as_str().is_empty()
    }

    /// An equal copy.
    pub fn duplicate(&self) -> (r: AppConfig)
        ensures
            r == *self,
    {
        AppConfig {
            appid: self.appid.clone(),
            app_id: self.app_id.clone(),
            douyin_ids: self.douyin_ids.clone(),
            appname: self.appname.clone(),
        }
    }
}

} // verus!
