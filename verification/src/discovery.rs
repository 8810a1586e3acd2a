//! Discovery rules: which file names are manifests, which relative
//! paths may hold the companion script, the content sniff that accepts
//! a script file, which images qualify as previews, and the assembly of
//! one project record from the gathered plain values.

use vstd::prelude::*;
use vstd::string::StringExecFns;

use crate::json::{jv, sp_obj_lookup, sp_parse_doc, sp_str_of, JsonV};
use crate::manifest::{appid_key, manifest_from_chars, name_key, sp_extras};
use crate::model::ProjectItem;
use crate::script::{
    id_lit, id_lit_chars, ids_lit, ids_lit_chars, js_config_from_content, lit_at, lit_at_exec,
    sp_extract_id_or_empty, sp_extract_list, sp_join_comma,
};
use crate::text::{chars_eq, chars_of, str_views};

verus! {

/// `lit` occurs somewhere in `s`.
pub open spec fn sp_contains(s: Seq<char>, lit: Seq<char>) -> bool {
    exists|i: int| lit_at(s, i, lit)
}

/// The fixed manifest file name.
pub fn is_manifest_filename(name: &str) -> (r: bool)
    ensures
        r == (name@ == "project.config.json"@),
{
    let a = chars_of(name);
    let b = chars_of("project.config.json");
    chars_eq(&a, &b)
}

/// The candidate relative paths of the companion script file, in the
/// order they are tried.
pub fn candidate_script_paths() -> (r: Vec<String>)
    ensures
        r@.len() == 2,
        r@[0]@ == "assets/main/index.js"@,
        r@[1]@ == "application.js"@,
{
    let mut v: Vec<String> = Vec::new();
    v.push(String::from_str("assets/main/index.js"));
    v.push(String::from_str("application.js"));
    v
}

/// The content sniff that accepts a candidate script file: either field
/// name occurs literally in the text.
pub fn script_sniff(content: &str) -> (r: bool)
    ensures
        r == (sp_contains(content@, id_lit()) || sp_contains(content@, ids_lit())),
{
    let s = chars_of(content);
    let l1 = id_lit_chars();
    let l2 = ids_lit_chars();
    let n = s.len();
    let mut i: usize = 0;
    while i < n
        invariant
            i <= n,
            n == s@.len(),
            s@ == content@,
            l1@ == id_lit(),
            l2@ == ids_lit(),
            forall|j: int| 0 <= j < i ==> !lit_at(s@, j, id_lit()) && !lit_at(s@, j, ids_lit()),
        decreases n - i,
    {
        if lit_at_exec(&s, i, &l1) {
            assert(sp_contains(content@, id_lit())) by {
                assert(lit_at(content@, i as int, id_lit()));
            }
            return true;
        }
        if lit_at_exec(&s, i, &l2) {
            assert(sp_contains(content@, ids_lit())) by {
                assert(lit_at(content@, i as int, ids_lit()));
            }
            return true;
        }
        i += 1;
    }
    proof {
        assert forall|j: int| !lit_at(content@, j, id_lit()) by {
            if 0 <= j < n {
            }
        }
        assert forall|j: int| !lit_at(content@, j, ids_lit()) by {
            if 0 <= j < n {
            }
        }
    }
    false
}

/// The dimensions a byte sequence decodes to as an image, or nothing
/// when it does not decode.
pub uninterp spec fn image_dims(data: Seq<u8>) -> Option<(u32, u32)>;

/// The bytes decode to an image whose width is exactly 750 pixels,
/// whatever its height.
pub open spec fn qualifying_image(data: Seq<u8>) -> bool {
    match image_dims(data) {
        Some((w, h)) => w == 750,
        None => false,
    }
}

/// Relies on `image::load_from_memory`: decoding is a function of the
/// bytes alone, and yields the decoded image's width and height, or an
/// error when the bytes are not a readable image.
#[verifier::external_body]
fn decode_image_dims(data: &Vec<u8>) -> (r: Option<(u32, u32)>)
    ensures
        r == image_dims(data@),
{
    match image::load_from_memory(data.as_slice()) {
        Ok(img) => Some((img.width(), img.height())),
        Err(_) => None,
    }
}

/// Whether a file's bytes qualify as a preview image: they decode, and
/// the decoded width is exactly 750; a file that does not decode never
/// qualifies.
pub fn image_qualifies(data: &Vec<u8>) -> (r: bool)
    ensures
        r == qualifying_image(data@),
{
    match decode_image_dims(data) {
        Some((w, _h)) => w == 750,
        None => false,
    }
}

/// An ASCII lower-case copy of the characters.
pub open spec fn ascii_lower(s: Seq<char>) -> Seq<char> {
    Seq::new(s.len(), |i: int| lower_char(s[i]))
}

/// ASCII lower case of one character.
pub open spec fn lower_char(c: char) -> char {
    if 'A' <= c && c <= 'Z' {
        ((c as u32) + 32) as char
    } else {
        c
    }
}

/// The extension of a path: what follows the last `.` of the final
/// path component, provided that dot is neither its first character
/// nor absent.
pub open spec fn sp_extension(s: Seq<char>) -> Option<Seq<char>> {
    let comp_start = last_sep_end(s, s.len() as int);
    let dot = last_dot_end(s, s.len() as int);
    if dot > comp_start + 1 {
        Some(s.subrange(dot, s.len() as int))
    } else {
        None
    }
}

/// One past the last path separator strictly before `i`, or zero.
pub open spec fn last_sep_end(s: Seq<char>, i: int) -> int
    decreases i,
{
    if i <= 0 {
        0
    } else if s[i - 1] == '/' || s[i - 1] == '\\' {
        i
    } else {
        last_sep_end(s, i - 1)
    }
}

/// One past the last `.` strictly before `i`, or zero.
pub open spec fn last_dot_end(s: Seq<char>, i: int) -> int
    decreases i,
{
    if i <= 0 {
        0
    } else if s[i - 1] == '.' {
        i
    } else {
        last_dot_end(s, i - 1)
    }
}

/// The fixed set of preview image extensions, compared without regard
/// to ASCII case.
pub open spec fn image_extension(e: Seq<char>) -> bool {
    ||| ascii_lower(e) == seq!['p', 'n', 'g']
    ||| ascii_lower(e) == seq!['j', 'p', 'g']
    ||| ascii_lower(e) == seq!['j', 'p', 'e', 'g']
    ||| ascii_lower(e) == seq!['b', 'm', 'p']
    ||| ascii_lower(e) == seq!['w', 'e', 'b', 'p']
}

/// Whether a path names a file with a preview image extension.
pub fn has_image_extension(path: &str) -> (r: bool)
    ensures
        r == (sp_extension(path@) matches Some(e) && image_extension(e)),
{
    let s = chars_of(path);
    let n = s.len();
    let mut comp_start: usize = n;
    while comp_start > 0 && s[comp_start - 1] != '/' && s[comp_start - 1] != '\\'
        invariant
            comp_start <= n,
            n == s@.len(),
            last_sep_end(s@, n as int) == last_sep_end(s@, comp_start as int),
        decreases comp_start,
    {
        comp_start -= 1;
    }
    let ghost cs = last_sep_end(s@, n as int);
    let mut dot: usize = n;
    while dot > 0 && s[dot - 1] != '.'
        invariant
            dot <= n,
            n == s@.len(),
            last_dot_end(s@, n as int) == last_dot_end(s@, dot as int),
        decreases dot,
    {
        dot -= 1;
    }
    proof {
        assert(last_sep_end(s@, n as int) == comp_start as int);
        assert(last_dot_end(s@, n as int) == dot as int);
    }
    if dot == 0 || dot - 1 <= comp_start {
        assert(!(sp_extension(path@) matches Some(_)));
        return false;
    }
    let mut ext: Vec<char> = Vec::new();
    let mut i = dot;
    while i < n
        invariant
            dot <= i <= n,
            n == s@.len(),
            ext@ =~= ascii_lower(s@.subrange(dot as int, i as int)),
        decreases n - i,
    {
        let c = s[i];
        let lc: char = if c >= 'A' && c <= 'Z' {
            match char::from_u32((c as u32) + 32) {
                Some(l) => l,
                None => c,
            }
        } else {
            c
        };
        proof {
            assert(lc == lower_char(s@[i as int]));
        }
        ext.push(lc);
        assert(ext@ =~= ascii_lower(s@.subrange(dot as int, i + 1)));
        i += 1;
    }
    proof {
        assert(ext@ =~= ascii_lower(s@.subrange(dot as int, n as int)));
    }
    let png = chars_of("png");
    let jpg = chars_of("jpg");
    let jpeg = chars_of("jpeg");
    let bmp = chars_of("bmp");
    let webp = chars_of("webp");
    proof {
        reveal_strlit("png");
        reveal_strlit("jpg");
        reveal_strlit("jpeg");
        reveal_strlit("bmp");
        reveal_strlit("webp");
        assert(png@ =~= seq!['p', 'n', 'g']);
        assert(jpg@ =~= seq!['j', 'p', 'g']);
        assert(jpeg@ =~= seq!['j', 'p', 'e', 'g']);
        assert(bmp@ =~= seq!['b', 'm', 'p']);
        assert(webp@ =~= seq!['w', 'e', 'b', 'p']);
    }
    let r = chars_eq(&ext, &png) || chars_eq(&ext, &jpg) || chars_eq(&ext, &jpeg) || chars_eq(
        &ext,
        &bmp,
    ) || chars_eq(&ext, &webp);
    proof {
        let e = s@.subrange(dot as int, n as int);
        assert(sp_extension(path@) == Some(e));
        assert(ascii_lower(e) == ext@);
        assert(ascii_lower(ascii_lower(e)) =~= ascii_lower(e));
    }
    r
}

/// Assemble one project record from gathered plain values: the parsed
/// manifest (a record is produced only when the manifest parses to an
/// object), the accepted companion script with its extracted fields,
/// and the qualifying image paths.  A fresh record is clean and
/// selected.
pub fn build_project_item(
    path: String,
    manifest_content: &str,
    script: Option<(String, String)>,
    image_paths: Vec<String>,
) -> (r: Option<ProjectItem>)
    ensures
        match r {
            Some(item) => {
                &&& sp_parse_doc(manifest_content@) matches Some(JsonV::Obj(m)) && item
                    .config
                    .appid@ == sp_str_of(sp_obj_lookup(m, appid_key())) && item
                    .config
                    .projectname@ == sp_str_of(sp_obj_lookup(m, name_key())) && jv(
                    item.config.extra,
                ) == JsonV::Obj(sp_extras(m))
                &&& item.path == path
                &&& match (script, item.js_path, item.js_config) {
                    (Some((sp, sc)), Some(ip), Some(ic)) => {
                        &&& ip == sp
                        &&& ic.app_id@ == sp_extract_id_or_empty(sc@)
                        &&& str_views(ic.douyin_ids@) == sp_extract_list(sc@)
                        &&& ic.douyin_ids_str@ == sp_join_comma(sp_extract_list(sc@))
                    },
                    (None, None, None) => true,
                    _ => false,
                }
                &&& item.image_paths == image_paths
                &&& !item.is_modified
                &&& item.selected
            },
            None => !(sp_parse_doc(manifest_content@) matches Some(JsonV::Obj(_))),
        },
{
    let mc = chars_of(manifest_content);
    match manifest_from_chars(&mc) {
        Ok(config) => {
            let (js_path, js_config) = match script {
                Some((sp, sc)) => {
                    let jc = js_config_from_content(sc.as_str());
                    (Some(sp), Some(jc))
                },
                None => (None, None),
            };
            Some(
                ProjectItem {
                    path,
                    config,
                    js_path,
                    js_config,
                    image_paths,
                    is_modified: false,
                    selected: true,
                },
            )
        },
        Err(_) => None,
    }
}

} // verus!
