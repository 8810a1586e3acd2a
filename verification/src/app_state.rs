//! The multi-project editing session: the scanned record list, the
//! batch-edit inputs, and the bookkeeping of a save pass.  Everything
//! here works purely on the in-memory records; reading and writing the
//! files around a session is the caller's part.

use vstd::prelude::*;
use vstd::string::StringExecFns;

use crate::model::ProjectItem;
use crate::script::{clean_ids_chars, sp_clean_ids, strings_of_pieces, JsConfig};
use crate::text::{all_ws, chars_eq, chars_of, clone_strings, remove_ws, sp_remove_ws, str_all_ws, str_views, string_from_chars};

verus! {

/// The application state of one scan-edit-save session.
pub struct MyApp {
    /// The scanned root directory, when one was chosen.
    pub root_path: Option<String>,
    /// The records of the last scan.
    pub projects: Vec<ProjectItem>,
    /// The identifier to apply to every selected record.
    pub batch_appid: String,
    /// The display name to apply to every selected record.
    pub batch_projectname: String,
    /// The comma-joined platform-ID list to apply to every selected
    /// record.
    pub batch_douyin_ids: String,
    /// The status line shown to the user.
    pub status_msg: String,
}

/// How one record relates to its old value after a batch identifier
/// edit: a selected record carries the new identifier in both the
/// manifest and the script fields and is marked dirty; an unselected
/// record is untouched.
pub open spec fn appid_applied(old_it: ProjectItem, new_it: ProjectItem, v: Seq<char>) -> bool {
    if old_it.selected {
        &&& new_it.config.appid@ == v
        &&& new_it.config.projectname == old_it.config.projectname
        &&& new_it.config.extra == old_it.config.extra
        &&& match (old_it.js_config, new_it.js_config) {
            (Some(o), Some(n)) => n.app_id@ == v && n.douyin_ids@ == o.douyin_ids@
                && n.douyin_ids_str == o.douyin_ids_str,
            (None, None) => true,
            _ => false,
        }
        &&& new_it.is_modified
        &&& new_it.path == old_it.path
        &&& new_it.js_path == old_it.js_path
        &&& new_it.image_paths == old_it.image_paths
        &&& new_it.selected == old_it.selected
    } else {
        new_it == old_it
    }
}

/// The same for a batch display-name edit: only the manifest name
/// changes.
pub open spec fn name_applied(old_it: ProjectItem, new_it: ProjectItem, v: Seq<char>) -> bool {
    if old_it.selected {
        &&& new_it.config.projectname@ == v
        &&& new_it.config.appid == old_it.config.appid
        &&& new_it.config.extra == old_it.config.extra
        &&& new_it.js_config == old_it.js_config
        &&& new_it.is_modified
        &&& new_it.path == old_it.path
        &&& new_it.js_path == old_it.js_path
        &&& new_it.image_paths == old_it.image_paths
        &&& new_it.selected == old_it.selected
    } else {
        new_it == old_it
    }
}

/// The same for a batch platform-ID edit: only records with a script
/// field set change, and only the list and its joined form.
pub open spec fn ids_applied(old_it: ProjectItem, new_it: ProjectItem, v: Seq<char>) -> bool {
    if old_it.selected && old_it.js_config is Some {
        &&& match (old_it.js_config, new_it.js_config) {
            (Some(o), Some(n)) => n.app_id == o.app_id && n.douyin_ids_str@ == v && str_views(
                n.douyin_ids@,
            ) == sp_clean_ids(v),
            _ => false,
        }
        &&& new_it.config == old_it.config
        &&& new_it.is_modified
        &&& new_it.path == old_it.path
        &&& new_it.js_path == old_it.js_path
        &&& new_it.image_paths == old_it.image_paths
        &&& new_it.selected == old_it.selected
    } else {
        new_it == old_it
    }
}

/// How many records of the first `i` were dirty and saved.
pub open spec fn saved_upto(items: Seq<ProjectItem>, results: Seq<bool>, i: int) -> int
    decreases i,
{
    if i <= 0 {
        0
    } else {
        saved_upto(items, results, i - 1) + (if items[i - 1].is_modified && results[i - 1] {
            1int
        } else {
            0int
        })
    }
}

/// How many records of the first `i` were dirty and failed.
pub open spec fn failed_upto(items: Seq<ProjectItem>, results: Seq<bool>, i: int) -> int
    decreases i,
{
    if i <= 0 {
        0
    } else {
        failed_upto(items, results, i - 1) + (if items[i - 1].is_modified && !results[i - 1] {
            1int
        } else {
            0int
        })
    }
}

/// One record untouched but for its dirty flag, now clear.
pub open spec fn dirty_cleared(old_it: ProjectItem, new_it: ProjectItem) -> bool {
    &&& !new_it.is_modified
    &&& new_it.path == old_it.path
    &&& new_it.config == old_it.config
    &&& new_it.js_path == old_it.js_path
    &&& new_it.js_config == old_it.js_config
    &&& new_it.image_paths == old_it.image_paths
    &&& new_it.selected == old_it.selected
}

impl Default for MyApp {
    /// A fresh session: nothing scanned, nothing pending.
    fn default() -> (r: MyApp)
        ensures
            r.root_path is None,
            r.projects@.len() == 0,
            r.batch_appid@.len() == 0,
            r.batch_projectname@.len() == 0,
            r.batch_douyin_ids@.len() == 0,
    {
        MyApp {
            root_path: None,
            projects: Vec::new(),
            batch_appid: String::new(),
            batch_projectname: String::new(),
            batch_douyin_ids: String::new(),
            status_msg: String::from_str("ready: choose a folder holding mini-game projects"),
        }
    }
}

impl MyApp {
    /// Drop the record list, the batch inputs and the status line; the
    /// chosen root stays.
    pub fn clear_data(&mut self)
        ensures
            final(self).root_path == old(self).root_path,
            final(self).projects@.len() == 0,
            final(self).batch_appid@.len() == 0,
            final(self).batch_projectname@.len() == 0,
            final(self).batch_douyin_ids@.len() == 0,
            final(self).status_msg@.len() == 0,
    {
        self.projects = Vec::new();
        self.batch_appid = String::new();
        self.batch_projectname = String::new();
        self.batch_douyin_ids = String::new();
        self.status_msg = String::new();
    }

    /// Apply the batch identifier to every selected record, in the
    /// manifest field and, where a script field set exists, in the
    /// script field too, marking those records dirty.  An input of
    /// nothing but whitespace changes nothing at all.
    pub fn apply_batch_appid(&mut self)
        ensures
            all_ws(old(self).batch_appid@) ==> *final(self) == *old(self),
            !all_ws(old(self).batch_appid@) ==> {
                &&& final(self).projects@.len() == old(self).projects@.len()
                &&& forall|i: int|
                    0 <= i < old(self).projects@.len() ==> appid_applied(
                        old(self).projects@[i],
                        #[trigger] final(self).projects@[i],
                        old(self).batch_appid@,
                    )
                &&& final(self).root_path == old(self).root_path
                &&& final(self).batch_appid == old(self).batch_appid
                &&& final(self).batch_projectname == old(self).batch_projectname
                &&& final(self).batch_douyin_ids == old(self).batch_douyin_ids
            },
    {
        if str_all_ws(self.batch_appid.as_str()) {
            return ;
        }
        let ghost items0 = self.projects@;
        let n = self.projects.len();
        let mut i: usize = 0;
        while i < n
            invariant
                i <= n,
                n == self.projects@.len(),
                items0.len() == n,
                !all_ws(self.batch_appid@),
                self.batch_appid == old(self).batch_appid,
                self.batch_projectname == old(self).batch_projectname,
                self.batch_douyin_ids == old(self).batch_douyin_ids,
                self.root_path == old(self).root_path,
                self.status_msg == old(self).status_msg,
                items0 == old(self).projects@,
                forall|k: int|
                    0 <= k < i ==> appid_applied(
                        items0[k],
                        #[trigger] self.projects@[k],
                        self.batch_appid@,
                    ),
                forall|k: int| i <= k < n ==> self.projects@[k] == items0[k],
            decreases n - i,
        {
            if self.projects[i].selected {
                self.projects[i].config.appid = self.batch_appid.clone();
                let js2: Option<JsConfig> = match &self.projects[i].js_config {
                    Some(js) => Some(
                        JsConfig {
                            app_id: self.batch_appid.clone(),
                            douyin_ids: clone_strings(&js.douyin_ids),
                            douyin_ids_str: js.douyin_ids_str.clone(),
                        },
                    ),
                    None => None,
                };
                self.projects[i].js_config = js2;
                self.projects[i].is_modified = true;
            }
            i += 1;
        }
        self.status_msg = String::from_str("batch identifier applied; save to persist");
    }

    /// Apply the batch display name to every selected record, marking
    /// it dirty.  An input of nothing but whitespace changes nothing.
    pub fn apply_batch_name(&mut self)
        ensures
            all_ws(old(self).batch_projectname@) ==> *final(self) == *old(self),
            !all_ws(old(self).batch_projectname@) ==> {
                &&& final(self).projects@.len() == old(self).projects@.len()
                &&& forall|i: int|
                    0 <= i < old(self).projects@.len() ==> name_applied(
                        old(self).projects@[i],
                        #[trigger] final(self).projects@[i],
                        old(self).batch_projectname@,
                    )
                &&& final(self).root_path == old(self).root_path
                &&& final(self).batch_appid == old(self).batch_appid
                &&& final(self).batch_projectname == old(self).batch_projectname
                &&& final(self).batch_douyin_ids == old(self).batch_douyin_ids
            },
    {
        if str_all_ws(self.batch_projectname.as_str()) {
            return ;
        }
        let ghost items0 = self.projects@;
        let n = self.projects.len();
        let mut i: usize = 0;
        while i < n
            invariant
                i <= n,
                n == self.projects@.len(),
                items0.len() == n,
                !all_ws(self.batch_projectname@),
                self.batch_appid == old(self).batch_appid,
                self.batch_projectname == old(self).batch_projectname,
                self.batch_douyin_ids == old(self).batch_douyin_ids,
                self.root_path == old(self).root_path,
                items0 == old(self).projects@,
                forall|k: int|
                    0 <= k < i ==> name_applied(
                        items0[k],
                        #[trigger] self.projects@[k],
                        self.batch_projectname@,
                    ),
                forall|k: int| i <= k < n ==> self.projects@[k] == items0[k],
            decreases n - i,
        {
            if self.projects[i].selected {
                self.projects[i].config.projectname = self.batch_projectname.clone();
                self.projects[i].is_modified = true;
            }
            i += 1;
        }
        self.status_msg = String::from_str("batch name applied; save to persist");
    }

    /// Apply the batch platform-ID list to every selected record that
    /// has a script field set, marking it dirty.  The input is first
    /// stripped of all whitespace, and that sanitized form also
    /// replaces the batch input itself.  An input of nothing but
    /// whitespace changes nothing.
    pub fn apply_batch_douyin_ids(&mut self)
        ensures
            all_ws(old(self).batch_douyin_ids@) ==> *final(self) == *old(self),
            !all_ws(old(self).batch_douyin_ids@) ==> {
                &&& final(self).projects@.len() == old(self).projects@.len()
                &&& forall|i: int|
                    0 <= i < old(self).projects@.len() ==> ids_applied(
                        old(self).projects@[i],
                        #[trigger] final(self).projects@[i],
                        sp_remove_ws(old(self).batch_douyin_ids@),
                    )
                &&& final(self).root_path == old(self).root_path
                &&& final(self).batch_appid == old(self).batch_appid
                &&& final(self).batch_projectname == old(self).batch_projectname
                &&& final(self).batch_douyin_ids@ == sp_remove_ws(old(self).batch_douyin_ids@)
            },
    {
        if str_all_ws(self.batch_douyin_ids.as_str()) {
            return ;
        }
        let cleaned = remove_ws(self.batch_douyin_ids.as_str());
        self.batch_douyin_ids = cleaned;
        let ghost items0 = self.projects@;
        let ghost v = self.batch_douyin_ids@;
        let n = self.projects.len();
        let mut i: usize = 0;
        while i < n
            invariant
                i <= n,
                n == self.projects@.len(),
                items0.len() == n,
                v == self.batch_douyin_ids@,
                self.batch_appid == old(self).batch_appid,
                self.batch_projectname == old(self).batch_projectname,
                self.root_path == old(self).root_path,
                items0 == old(self).projects@,
                forall|k: int|
                    0 <= k < i ==> ids_applied(items0[k], #[trigger] self.projects@[k], v),
                forall|k: int| i <= k < n ==> self.projects@[k] == items0[k],
            decreases n - i,
        {
            if self.projects[i].selected {
                let js2: Option<JsConfig> = match &self.projects[i].js_config {
                    Some(js) => {
                        let sc = chars_of(self.batch_douyin_ids.as_str());
                        let pieces = clean_ids_chars(&sc);
                        Some(
                            JsConfig {
                                app_id: js.app_id.clone(),
                                douyin_ids: strings_of_pieces(&pieces),
                                douyin_ids_str: self.batch_douyin_ids.clone(),
                            },
                        )
                    },
                    None => None,
                };
                if js2.is_some() {
                    self.projects[i].js_config = js2;
                    self.projects[i].is_modified = true;
                }
            }
            i += 1;
        }
        self.status_msg = String::from_str("batch platform ids applied; save to persist");
    }

    /// Bookkeeping of one save pass.  `results[i]` says whether record
    /// `i`, if dirty, was committed; a committed record's dirty flag is
    /// cleared, a failed one keeps it, a clean record is untouched.
    /// Returns how many dirty records were saved and how many failed.
    pub fn apply_save_outcomes(&mut self, results: &Vec<bool>) -> (r: (usize, usize))
        requires
            results@.len() == old(self).projects@.len(),
        ensures
            final(self).projects@.len() == old(self).projects@.len(),
            forall|i: int|
                0 <= i < old(self).projects@.len() ==> {
                    if old(self).projects@[i].is_modified && results@[i] {
                        dirty_cleared(old(self).projects@[i], #[trigger] final(self).projects@[i])
                    } else {
                        final(self).projects@[i] == old(self).projects@[i]
                    }
                },
            r.0 == saved_upto(old(self).projects@, results@, old(self).projects@.len() as int),
            r.1 == failed_upto(old(self).projects@, results@, old(self).projects@.len() as int),
            final(self).root_path == old(self).root_path,
            final(self).batch_appid == old(self).batch_appid,
            final(self).batch_projectname == old(self).batch_projectname,
            final(self).batch_douyin_ids == old(self).batch_douyin_ids,
    {
        let ghost items0 = self.projects@;
        let n = self.projects.len();
        let mut success: usize = 0;
        let mut fail: usize = 0;
        let mut i: usize = 0;
        while i < n
            invariant
                i <= n,
                n == self.projects@.len(),
                items0.len() == n,
                n == results@.len(),
                items0 == old(self).projects@,
                self.root_path == old(self).root_path,
                self.batch_appid == old(self).batch_appid,
                self.batch_projectname == old(self).batch_projectname,
                self.batch_douyin_ids == old(self).batch_douyin_ids,
                self.status_msg == old(self).status_msg,
                success <= i,
                fail <= i,
                success == saved_upto(items0, results@, i as int),
                fail == failed_upto(items0, results@, i as int),
                forall|k: int|
                    0 <= k < i ==> {
                        if items0[k].is_modified && results@[k] {
                            dirty_cleared(items0[k], #[trigger] self.projects@[k])
                        } else {
                            self.projects@[k] == items0[k]
                        }
                    },
                forall|k: int| i <= k < n ==> self.projects@[k] == items0[k],
            decreases n - i,
        {
            if self.projects[i].is_modified {
                if results[i] {
                    self.projects[i].is_modified = false;
                    success += 1;
                } else {
                    fail += 1;
                }
            }
            i += 1;
        }
        (success, fail)
    }
}

/// The archive file name of a project: the display name, or the given
/// folder name when the display name is empty, with `.zip` appended.
pub fn zip_file_name(projectname: &str, fallback: &str) -> (r: String)
    ensures
        projectname@.len() > 0 ==> r@ == projectname@ + ".zip"@,
        projectname@.len() == 0 ==> r@ == fallback@ + ".zip"@,
{
    let base = if projectname.is_empty() {
        fallback
    } else {
        projectname
    };
    let mut v = chars_of(base);
    v.push('.');
    v.push('z');
    v.push('i');
    v.push('p');
    proof {
        reveal_strlit(".zip");
        assert(v@ =~= base@ + ".zip"@);
    }
    string_from_chars(&v)
}

/// Directory names that are left out of a project archive.
pub fn is_skipped_dir_name(name: &str) -> (r: bool)
    ensures
        r == (name@ == "node_modules"@ || name@ == ".git"@ || name@ == ".svn"@),
{
    let n = chars_of(name);
    let a = chars_of("node_modules");
    let b = chars_of(".git");
    let c = chars_of(".svn");
    chars_eq(&n, &a) || chars_eq(&n, &b) || chars_eq(&n, &c)
}

/// With `n` dirty records of which exactly one fails to commit, a save
/// pass reports `n - 1` saved and `1` failed, and every record but the
/// failing one has its dirty flag cleared (which
/// [`MyApp::apply_save_outcomes`] states record by record).
pub proof fn lemma_partial_failure_isolation(
    items: Seq<ProjectItem>,
    results: Seq<bool>,
    k: int,
)
    requires
        items.len() == results.len(),
        0 <= k < items.len(),
        forall|i: int| 0 <= i < items.len() ==> (#[trigger] items[i]).is_modified,
        forall|i: int| 0 <= i < results.len() ==> (#[trigger] results[i]) == (i != k),
    ensures
        saved_upto(items, results, items.len() as int) == items.len() - 1,
        failed_upto(items, results, items.len() as int) == 1,
{
    lemma_counts_one_failure(items, results, k, items.len() as int);
}

proof fn lemma_counts_one_failure(items: Seq<ProjectItem>, results: Seq<bool>, k: int, i: int)
    requires
        items.len() == results.len(),
        0 <= k < items.len(),
        0 <= i <= items.len(),
        forall|t: int| 0 <= t < items.len() ==> (#[trigger] items[t]).is_modified,
        forall|t: int| 0 <= t < results.len() ==> (#[trigger] results[t]) == (t != k),
    ensures
        saved_upto(items, results, i) == i - (if k < i {
            1int
        } else {
            0int
        }),
        failed_upto(items, results, i) == (if k < i {
            1int
        } else {
            0int
        }),
    decreases i,
{
    if i > 0 {
        lemma_counts_one_failure(items, results, k, i - 1);
    }
}

} // verus!
