//! Manifest codec: reads the two known string fields of a project
//! manifest out of a generic JSON document, keeps every other member
//! verbatim, and writes documents back with the two fields set in place.

use vstd::prelude::*;

use crate::errors::FileError;
use crate::json::{
    clone_json, get_str_field, jv, jvm, lemma_jv_unfold, lemma_parse_serialize,
    lemma_wf_members_cons, parse_document, serialize, sp_obj_lookup, sp_obj_set, sp_parse_doc,
    sp_serialize, sp_set_str, sp_str_of, wf_json, wf_members, with_str_field, Json, JsonV,
};
use crate::text::{chars_eq, chars_of, string_from_chars};

verus! {

/// The key of the identifier field of a manifest.
pub open spec fn appid_key() -> Seq<char> {
    seq!['a', 'p', 'p', 'i', 'd']
}

/// The key of the display-name field of a manifest.
pub open spec fn name_key() -> Seq<char> {
    seq!['p', 'r', 'o', 'j', 'e', 'c', 't', 'n', 'a', 'm', 'e']
}

/// The identifier key as characters.
pub fn appid_key_chars() -> (r: Vec<char>)
    ensures
        r@ == appid_key(),
{
    let mut v: Vec<char> = Vec::new();
    v.push('a');
    v.push('p');
    v.push('p');
    v.push('i');
    v.push('d');
    assert(v@ =~= appid_key());
    v
}

/// The display-name key as characters.
pub fn name_key_chars() -> (r: Vec<char>)
    ensures
        r@ == name_key(),
{
    let mut v: Vec<char> = Vec::new();
    v.push('p');
    v.push('r');
    v.push('o');
    v.push('j');
    v.push('e');
    v.push('c');
    v.push('t');
    v.push('n');
    v.push('a');
    v.push('m');
    v.push('e');
    assert(v@ =~= name_key());
    v
}

/// A member that is neither the identifier nor the display name.
pub open spec fn is_extra_member(p: (Seq<char>, JsonV)) -> bool {
    p.0 != appid_key() && p.0 != name_key()
}

/// The members other than the two known fields, in order.
pub open spec fn sp_extras(m: Seq<(Seq<char>, JsonV)>) -> Seq<(Seq<char>, JsonV)>
    decreases m.len(),
{
    if m.len() == 0 {
        Seq::empty()
    } else if is_extra_member(m[0]) {
        seq![m[0]] + sp_extras(m.drop_first())
    } else {
        sp_extras(m.drop_first())
    }
}

/// The in-memory form of one manifest: the two known scalar fields and
/// the untouched bag of every other member.
#[derive(Debug)]
pub struct ProjectConfig {
    /// The application identifier (`appid`); empty when absent or not a
    /// string.
    pub appid: String,
    /// The display name (`projectname`); empty when absent or not a
    /// string.
    pub projectname: String,
    /// Every other member of the manifest object, order preserved.
    pub extra: Json,
}

impl ProjectConfig {
    /// The extra bag is an object.
    pub open spec fn wf(&self) -> bool {
        jv(self.extra) matches JsonV::Obj(_)
    }

    /// The members of the extra bag.
    pub open spec fn extra_members(&self) -> Seq<(Seq<char>, JsonV)> {
        match jv(self.extra) {
            JsonV::Obj(m) => m,
            _ => Seq::empty(),
        }
    }
}

/// The document a configuration stands for: the two known fields first,
/// then every extra member.
pub open spec fn sp_config_doc(
    appid: Seq<char>,
    name: Seq<char>,
    extras: Seq<(Seq<char>, JsonV)>,
) -> JsonV {
    JsonV::Obj(
        seq![(appid_key(), JsonV::Str(appid)), (name_key(), JsonV::Str(name))] + extras,
    )
}

/// Read a manifest from file content.  Fails exactly when the content is
/// not a JSON document whose top level is an object; the two known
/// fields default to empty when absent or not strings, and every other
/// member is kept.
pub fn manifest_from_chars(content: &Vec<char>) -> (r: Result<ProjectConfig, FileError>)
    ensures
        match r {
            Ok(cfg) => {
                &&& sp_parse_doc(content@) matches Some(JsonV::Obj(m))
                    && cfg.appid@ == sp_str_of(sp_obj_lookup(m, appid_key()))
                    && cfg.projectname@ == sp_str_of(sp_obj_lookup(m, name_key()))
                    && jv(cfg.extra) == JsonV::Obj(sp_extras(m))
                &&& cfg.wf()
            },
            Err(e) => e == FileError::Parse && !(sp_parse_doc(content@) matches Some(
                JsonV::Obj(_),
            )),
        },
{
    match parse_document(content) {
        Some(d) => {
            let ak = appid_key_chars();
            let nk = name_key_chars();
            let appid_c = get_str_field(&d, &ak);
            let name_c = get_str_field(&d, &nk);
            proof {
                lemma_jv_unfold(d);
            }
            match d {
                Json::Obj(members) => {
                    let ghost m0 = jvm(members@);
                    let mut rest = members;
                    let mut extras: Vec<(Vec<char>, Json)> = Vec::new();
                    while rest.len() > 0
                        invariant
                            ak@ == appid_key(),
                            nk@ == name_key(),
                            sp_extras(m0) == jvm(extras@) + sp_extras(jvm(rest@)),
                        decreases rest@.len(),
                    {
                        let ghost rest0 = jvm(rest@);
                        let p = rest.remove(0);
                        proof {
                            assert(rest0.drop_first() =~= jvm(rest@));
                            assert(rest0[0] == (p.0@, jv(p.1)));
                        }
                        if !(chars_eq(&p.0, &ak) || chars_eq(&p.0, &nk)) {
                            let ghost gp = (p.0@, jv(p.1));
                            let ghost ex0 = jvm(extras@);
                            proof {
                                assert(is_extra_member(rest0[0]));
                                assert(sp_extras(rest0) == seq![gp] + sp_extras(jvm(rest@)));
                            }
                            extras.push(p);
                            proof {
                                assert(jvm(extras@) =~= ex0 + seq![gp]);
                                assert((ex0 + seq![gp]) + sp_extras(jvm(rest@)) =~= ex0 + (
                                seq![gp] + sp_extras(jvm(rest@))));
                                assert(sp_extras(m0) =~= jvm(extras@) + sp_extras(jvm(rest@)));
                            }
                        } else {
                            proof {
                                assert(!is_extra_member(rest0[0]));
                                assert(sp_extras(rest0) == sp_extras(jvm(rest@)));
                            }
                        }
                    }
                    proof {
                        assert(jvm(rest@) =~= Seq::<(Seq<char>, JsonV)>::empty());
                        assert(sp_extras(m0) =~= jvm(extras@));
                    }
                    let extra = Json::Obj(extras);
                    proof {
                        lemma_jv_unfold(extra);
                    }
                    Ok(
                        ProjectConfig {
                            appid: string_from_chars(&appid_c),
                            projectname: string_from_chars(&name_c),
                            extra,
                        },
                    )
                },
                _ => Err(FileError::Parse),
            }
        },
        None => Err(FileError::Parse),
    }
}

/// Serialize a manifest: the two known fields first, then every extra
/// member, with stable indentation.
pub fn manifest_to_chars(cfg: &ProjectConfig) -> (r: Vec<char>)
    requires
        cfg.wf(),
    ensures
        r@ == sp_serialize(sp_config_doc(cfg.appid@, cfg.projectname@, cfg.extra_members())),
{
    let mut members: Vec<(Vec<char>, Json)> = Vec::new();
    let ac = chars_of(cfg.appid.as_str());
    let nc = chars_of(cfg.projectname.as_str());
    members.push((appid_key_chars(), Json::Str(ac)));
    members.push((name_key_chars(), Json::Str(nc)));
    let ec = clone_json(&cfg.extra);
    proof {
        lemma_jv_unfold(ec);
    }
    match ec {
        Json::Obj(mut eo) => {
            proof {
                lemma_jv_unfold(Json::Obj(eo));
            }
            let ghost pre = jvm(members@);
            let ghost eom = jvm(eo@);
            members.append(&mut eo);
            proof {
                assert(jvm(members@) =~= pre + eom);
                assert(jvm(members@) =~= seq![
                    (appid_key(), JsonV::Str(cfg.appid@)),
                    (name_key(), JsonV::Str(cfg.projectname@)),
                ] + cfg.extra_members());
            }
            let doc = Json::Obj(members);
            proof {
                lemma_jv_unfold(doc);
            }
            serialize(&doc)
        },
        _ => {
            proof {
                assert(false);
            }
            Vec::new()
        },
    }
}

proof fn lemma_wf_members_drop(m: Seq<(Seq<char>, JsonV)>)
    requires
        m.len() > 0,
    ensures
        wf_members(m, 0) == (wf_json(m[0].1) && wf_members(m.drop_first(), 0)),
{
    assert(seq![m[0]] + m.drop_first() =~= m);
    lemma_wf_members_cons(m[0], m.drop_first(), 0);
}

/// The extra bag of a well-formed document is well formed, and every
/// member of it really is an extra member.
pub proof fn lemma_extras_of_wf(m: Seq<(Seq<char>, JsonV)>)
    requires
        wf_members(m, 0),
    ensures
        wf_members(sp_extras(m), 0),
        forall|k: int| 0 <= k < sp_extras(m).len() ==> is_extra_member(#[trigger] sp_extras(m)[k]),
    decreases m.len(),
{
    if m.len() > 0 {
        lemma_wf_members_drop(m);
        lemma_extras_of_wf(m.drop_first());
        if is_extra_member(m[0]) {
            let rest = sp_extras(m.drop_first());
            assert(sp_extras(m) == seq![m[0]] + rest);
            assert((seq![m[0]] + rest)[0] == m[0]);
            lemma_wf_members_cons(m[0], rest, 0);
            assert(forall|k: int|
                1 <= k < sp_extras(m).len() ==> #[trigger] sp_extras(m)[k] == rest[k - 1]);
        }
    }
}

/// A bag of extra members is left whole by the extra-bag filter.
pub proof fn lemma_extras_identity(extras: Seq<(Seq<char>, JsonV)>)
    requires
        forall|k: int| 0 <= k < extras.len() ==> is_extra_member(#[trigger] extras[k]),
    ensures
        sp_extras(extras) == extras,
    decreases extras.len(),
{
    if extras.len() > 0 {
        lemma_extras_identity(extras.drop_first());
        assert(sp_extras(extras) =~= extras);
    }
}

/// The document-level round trip: the document a configuration stands
/// for parses back, after serialization, to exactly itself, its two
/// known fields read back as written, and its extra bag comes back
/// whole.  With the contracts of [`manifest_to_chars`] and
/// [`manifest_from_chars`], writing a manifest and reading it again
/// yields the same identifier, display name, and extra members.
pub proof fn lemma_manifest_round_trip(
    appid: Seq<char>,
    name: Seq<char>,
    extras: Seq<(Seq<char>, JsonV)>,
)
    requires
        wf_members(extras, 0),
        forall|k: int| 0 <= k < extras.len() ==> is_extra_member(#[trigger] extras[k]),
    ensures
        ({
            let m = seq![(appid_key(), JsonV::Str(appid)), (name_key(), JsonV::Str(name))]
                + extras;
            &&& sp_config_doc(appid, name, extras) == JsonV::Obj(m)
            &&& sp_parse_doc(sp_serialize(JsonV::Obj(m))) == Some(JsonV::Obj(m))
            &&& sp_str_of(sp_obj_lookup(m, appid_key())) == appid
            &&& sp_str_of(sp_obj_lookup(m, name_key())) == name
            &&& sp_extras(m) == extras
        }),
{
    let pairs = seq![(appid_key(), JsonV::Str(appid)), (name_key(), JsonV::Str(name))];
    let m = pairs + extras;
    let mid = seq![(name_key(), JsonV::Str(name))] + extras;
    assert(m =~= seq![(appid_key(), JsonV::Str(appid))] + mid);
    assert(wf_json(JsonV::Obj(m))) by {
        assert(m[0] == (appid_key(), JsonV::Str(appid)));
        lemma_wf_members_cons((name_key(), JsonV::Str(name)), extras, 0);
        assert(mid[0] == (name_key(), JsonV::Str(name)));
        assert(wf_json(JsonV::Str(name)));
        assert(wf_members(mid, 1) == wf_members(extras, 0));
        assert(wf_members(mid, 0));
        lemma_wf_members_cons((appid_key(), JsonV::Str(appid)), mid, 0);
        assert((seq![(appid_key(), JsonV::Str(appid))] + mid)[0] == (
            appid_key(),
            JsonV::Str(appid),
        ));
        assert(wf_json(JsonV::Str(appid)));
        assert(wf_members(m, 1) == wf_members(mid, 0));
        assert(wf_members(m, 0));
    }
    lemma_parse_serialize(JsonV::Obj(m));
    assert(appid_key().len() == 5 && name_key().len() == 11);
    assert(m[0] == (appid_key(), JsonV::Str(appid)));
    assert(m[1] == (name_key(), JsonV::Str(name)));
    assert(sp_str_of(sp_obj_lookup(m, appid_key())) == appid) by {
        assert(m.drop_first()[0] == m[1]);
    }
    assert(sp_str_of(sp_obj_lookup(m, name_key())) == name) by {
        assert(m[0].0 != name_key());
        assert(m.drop_first()[0] == m[1]);
        assert(sp_obj_lookup(m, name_key()) == sp_obj_lookup(m.drop_first(), name_key()));
        assert(sp_obj_lookup(m.drop_first(), name_key()) == Some(JsonV::Str(name)));
    }
    assert(sp_extras(m) == extras) by {
        reveal_strlit("appid");
        reveal_strlit("projectname");
        assert(!is_extra_member(m[0]));
        assert(m.drop_first()[0] == m[1]);
        assert(!is_extra_member(m[1]));
        assert(m.drop_first().drop_first() =~= extras);
        assert(sp_extras(m) == sp_extras(m.drop_first()));
        assert(sp_extras(m.drop_first()) == sp_extras(m.drop_first().drop_first()));
        lemma_extras_identity(extras);
    }
}

/// Setting one of the two known fields changes no other member: the
/// extra bag of an object is the same before and after.  Together with
/// [`manifest_from_chars`], which keeps every extra member verbatim,
/// this is the document-level half of the round-trip guarantee: only
/// the two known fields can ever change value.
pub proof fn lemma_set_field_preserves_extras(
    m: Seq<(Seq<char>, JsonV)>,
    key: Seq<char>,
    val: Seq<char>,
)
    requires
        key == appid_key() || key == name_key(),
    ensures
        sp_extras(sp_obj_set(m, key, val)) == sp_extras(m),
    decreases m.len(),
{
    reveal_strlit("appid");
    reveal_strlit("projectname");
    if m.len() == 0 {
        assert(!is_extra_member((key, JsonV::Str(val))));
        assert(seq![(key, JsonV::Str(val))][0] == (key, JsonV::Str(val)));
        assert(seq![(key, JsonV::Str(val))].drop_first() =~= Seq::<(Seq<char>, JsonV)>::empty());
        assert(sp_extras(Seq::<(Seq<char>, JsonV)>::empty()) =~= Seq::<(Seq<char>, JsonV)>::empty());
        assert(sp_extras(seq![(key, JsonV::Str(val))]) =~= sp_extras(m));
    } else if m[0].0 == key {
        let r = seq![(key, JsonV::Str(val))] + m.drop_first();
        assert(r[0] == (key, JsonV::Str(val)));
        assert(!is_extra_member(r[0]));
        assert(!is_extra_member(m[0]));
        assert(r.drop_first() =~= m.drop_first());
        assert(sp_extras(r) == sp_extras(m.drop_first()));
    } else {
        lemma_set_field_preserves_extras(m.drop_first(), key, val);
        let r = seq![m[0]] + sp_obj_set(m.drop_first(), key, val);
        assert(r[0] == m[0]);
        assert(r.drop_first() =~= sp_obj_set(m.drop_first(), key, val));
        if is_extra_member(m[0]) {
            assert(sp_extras(r) =~= seq![m[0]] + sp_extras(m.drop_first()));
            assert(sp_extras(m) =~= seq![m[0]] + sp_extras(m.drop_first()));
        } else {
            assert(sp_extras(r) =~= sp_extras(m.drop_first()));
        }
    }
}

/// Update the two known fields inside freshly read manifest content,
/// leaving every other byte of structure alone: the content is parsed,
/// the fields are set in place, and the document is re-serialized.
/// Fails exactly when the content is not well-formed JSON.
pub fn update_manifest_content(
    disk: &Vec<char>,
    appid: &Vec<char>,
    name: &Vec<char>,
) -> (r: Result<Vec<char>, FileError>)
    ensures
        match r {
            Ok(out) => sp_parse_doc(disk@) matches Some(d) && out@ == sp_serialize(
                sp_set_str(sp_set_str(d, appid_key(), appid@), name_key(), name@),
            ),
            Err(e) => e == FileError::Parse && sp_parse_doc(disk@) is None,
        },
{
    match parse_document(disk) {
        Some(d) => {
            let ak = appid_key_chars();
            let nk = name_key_chars();
            let d1 = with_str_field(d, &ak, appid);
            let d2 = with_str_field(d1, &nk, name);
            Ok(serialize(&d2))
        },
        None => Err(FileError::Parse),
    }
}

} // verus!
