//! Module to create the metadata text from hupas and to read hupas back
//! out of it.
//!
//! The metadata is a JSON array of item records; a record without a
//! required-flags entry reads as requiring nothing.

use vstd::prelude::*;

use crate::error::{Error, ErrorSpec};
use crate::hupa::{Hupa, HupaSpec};
use crate::jsonval::{
    json_dump_pretty, json_parse, json_text_pretty, json_view, json_view_arr, json_view_obj,
    lemma_json_view_arr, lemma_json_view_obj, obj_get, parsed_json, JsonSpec, JsonVal,
};

verus! {

/// The record that stands for a hupa in the metadata.
pub open spec fn hupa_json(h: HupaSpec) -> JsonSpec {
    JsonSpec::Obj(
        seq![
            ("name"@, JsonSpec::Str(h.name)),
            ("desc"@, JsonSpec::Str(h.desc)),
            ("categories"@, JsonSpec::Arr(h.category.map_values(|c: Seq<char>| JsonSpec::Str(c)))),
            ("backup_parent"@, JsonSpec::Str(h.backup_parent)),
            ("origin"@, JsonSpec::Str(h.origin_path)),
            ("autobackup"@, JsonSpec::Bool(h.autobackup)),
            (
                "needed_vars"@,
                JsonSpec::Arr(h.needed_vars.map_values(|c: Seq<char>| JsonSpec::Str(c))),
            ),
        ],
    )
}

/// The array of records that stands for a list of hupas.
pub open spec fn hupas_json(hs: Seq<HupaSpec>) -> JsonSpec {
    JsonSpec::Arr(hs.map_values(|h: HupaSpec| hupa_json(h)))
}

/// The texts of a list of values, when every value is a text.
pub open spec fn strs_of(items: Seq<JsonSpec>) -> Option<Seq<Seq<char>>>
    decreases items.len(),
{
    if items.len() == 0 {
        Some(Seq::empty())
    } else {
        match items[0] {
            JsonSpec::Str(s) => match strs_of(items.drop_first()) {
                Some(t) => Some(seq![s] + t),
                None => None,
            },
            _ => None,
        }
    }
}

/// A record's list of names under `key`: an absent or non-list entry
/// reads as no names; a list must hold texts only.
pub open spec fn names_field(
    fields: Seq<(Seq<char>, JsonSpec)>,
    key: Seq<char>,
) -> Option<Seq<Seq<char>>> {
    match obj_get(fields, key) {
        Some(JsonSpec::Arr(items)) => strs_of(items),
        Some(_) => Some(Seq::empty()),
        None => Some(Seq::empty()),
    }
}

/// The hupa a record stands for, if it is well formed.
pub open spec fn member_hupa(m: JsonSpec) -> Option<HupaSpec> {
    match m {
        JsonSpec::Obj(fields) => match (
            obj_get(fields, "name"@),
            obj_get(fields, "desc"@),
            obj_get(fields, "backup_parent"@),
            obj_get(fields, "origin"@),
            obj_get(fields, "autobackup"@),
        ) {
            (
                Some(JsonSpec::Str(n)),
                Some(JsonSpec::Str(d)),
                Some(JsonSpec::Str(b)),
                Some(JsonSpec::Str(o)),
                Some(JsonSpec::Bool(a)),
            ) => match (names_field(fields, "categories"@), names_field(fields, "needed_vars"@)) {
                (Some(cs), Some(nv)) => Some(
                    HupaSpec {
                        name: n,
                        desc: d,
                        category: cs,
                        backup_parent: b,
                        origin_path: o,
                        autobackup: a,
                        needed_vars: nv,
                    },
                ),
                _ => None,
            },
            _ => None,
        },
        _ => None,
    }
}

/// The hupas a list of records stands for, if every record is well
/// formed.
pub open spec fn members_hupas(items: Seq<JsonSpec>) -> Option<Seq<HupaSpec>>
    decreases items.len(),
{
    if items.len() == 0 {
        Some(Seq::empty())
    } else {
        match member_hupa(items[0]) {
            Some(h) => match members_hupas(items.drop_first()) {
                Some(t) => Some(seq![h] + t),
                None => None,
            },
            None => None,
        }
    }
}

/// The hupas a metadata document stands for: it must be an array of well
/// formed records.
pub open spec fn parse_hupas(v: JsonSpec) -> Option<Seq<HupaSpec>> {
    match v {
        JsonSpec::Arr(items) => members_hupas(items),
        _ => None,
    }
}

/// A list of texts as a list of JSON text values.
fn strings_to_json(strs: &Vec<String>) -> (r: Vec<JsonVal>)
    ensures
        r.deep_view() == strs.deep_view().map_values(|c: Seq<char>| JsonSpec::Str(c)),
{
    let mut r: Vec<JsonVal> = Vec::new();
    let n = strs.len();
    let mut i: usize = 0;
    while i < n
        invariant
            i <= n,
            n == strs.len(),
            r.deep_view() == strs.deep_view().take(i as int).map_values(
                |c: Seq<char>| JsonSpec::Str(c),
            ),
        decreases n - i,
    {
        let ghost r0 = r;
        r.push(JsonVal::Str(strs[i].clone()));
        proof {
            assert(r0.deep_view().len() == r0@.len());
            assert(r@.len() == i + 1);
            assert(r.deep_view().len() == i + 1);
            assert forall|k: int| 0 <= k < i + 1 implies r.deep_view()[k] == strs.deep_view().take(
                i + 1,
            ).map_values(|c: Seq<char>| JsonSpec::Str(c))[k] by {
                assert(r.deep_view()[k] == json_view(r@[k]));
                assert(strs.deep_view()[k] == strs@[k]@);
                if k < i {
                    assert(r@[k] == r0@[k]);
                    assert(r0.deep_view()[k] == json_view(r0@[k]));
                    assert(r0.deep_view()[k] == strs.deep_view().take(i as int).map_values(
                        |c: Seq<char>| JsonSpec::Str(c),
                    )[k]);
                }
            }
            assert(r.deep_view() =~= strs.deep_view().take(i + 1).map_values(
                |c: Seq<char>| JsonSpec::Str(c),
            ));
        }
        i = i + 1;
    }
    proof {
        assert(strs.deep_view().take(n as int) =~= strs.deep_view());
    }
    r
}

/// Convert hupa to its metadata record.
pub fn hupa_to_json(hupa: &Hupa) -> (r: JsonVal)
    ensures
        r@ == hupa_json(hupa@),
{
    let cats = strings_to_json(hupa.get_category());
    let nv = strings_to_json(hupa.get_needed_vars());
    proof {
        assert(cats.deep_view().len() == cats@.len());
        assert(nv.deep_view().len() == nv@.len());
        lemma_json_view_arr(cats@);
        lemma_json_view_arr(nv@);
        assert(json_view_arr(cats@) =~= cats.deep_view());
        assert(json_view_arr(nv@) =~= nv.deep_view());
    }
    let mut fields: Vec<(String, JsonVal)> = Vec::new();
    fields.push((String::from_str("name"), JsonVal::Str(String::from_str(hupa.get_name()))));
    fields.push((String::from_str("desc"), JsonVal::Str(String::from_str(hupa.get_desc()))));
    fields.push((String::from_str("categories"), JsonVal::Arr(cats)));
    fields.push(
        (String::from_str("backup_parent"), JsonVal::Str(hupa.get_backup_parent().clone())),
    );
    fields.push((String::from_str("origin"), JsonVal::Str(hupa.get_origin().clone())));
    fields.push((String::from_str("autobackup"), JsonVal::Bool(hupa.is_autobackup_enabled())));
    fields.push((String::from_str("needed_vars"), JsonVal::Arr(nv)));
    let r = JsonVal::Obj(fields);
    proof {
        lemma_json_view_obj(fields@);
        assert(fields@.len() == 7);
        assert(json_view_obj(fields@) =~= hupa_json(hupa@)->Obj_0);
    }
    r
}

/// The items of a built list of text values image as the mapped texts.
proof fn lemma_json_view_arr_is_map(items: Seq<JsonVal>, strs: Seq<Seq<char>>)
    requires
        items.len() == strs.len(),
        forall|i: int|
            0 <= i < items.len() ==> json_view(items[i]) == JsonSpec::Str(strs[i]),
    ensures
        json_view_arr(items) == strs.map_values(|c: Seq<char>| JsonSpec::Str(c)),
{
    lemma_json_view_arr(items);
    assert(json_view_arr(items) =~= strs.map_values(|c: Seq<char>| JsonSpec::Str(c)));
}

/// Convert hupas to the metadata array.
pub fn hupas_to_json(hupas: &Vec<Hupa>) -> (r: JsonVal)
    ensures
        r@ == hupas_json(hupas.deep_view()),
{
    let mut items: Vec<JsonVal> = Vec::new();
    let n = hupas.len();
    let mut i: usize = 0;
    while i < n
        invariant
            i <= n,
            n == hupas.len(),
            items.deep_view() == hupas.deep_view().take(i as int).map_values(
                |h: HupaSpec| hupa_json(h),
            ),
        decreases n - i,
    {
        let ghost items0 = items;
        items.push(hupa_to_json(&hupas[i]));
        proof {
            assert(items0.deep_view().len() == items0@.len());
            assert(items@.len() == i + 1);
            assert(items.deep_view().len() == i + 1);
            assert forall|k: int|
                0 <= k < i + 1 implies items.deep_view()[k] == hupas.deep_view().take(
                i + 1,
            ).map_values(|h: HupaSpec| hupa_json(h))[k] by {
                assert(items.deep_view()[k] == json_view(items@[k]));
                assert(hupas.deep_view()[k] == hupas@[k]@);
                if k < i {
                    assert(items@[k] == items0@[k]);
                    assert(items0.deep_view()[k] == json_view(items0@[k]));
                    assert(items0.deep_view()[k] == hupas.deep_view().take(i as int).map_values(
                        |h: HupaSpec| hupa_json(h),
                    )[k]);
                }
            }
            assert(items.deep_view() =~= hupas.deep_view().take(i + 1).map_values(
                |h: HupaSpec| hupa_json(h),
            ));
        }
        i = i + 1;
    }
    proof {
        assert(hupas.deep_view().take(n as int) =~= hupas.deep_view());
        lemma_json_view_arr(items@);
        assert(json_view_arr(items@) =~= items.deep_view());
    }
    JsonVal::Arr(items)
}

/// The names under `key` of a record, cloned out; requires the record to
/// be a keyed list.
fn names_list(m: &JsonVal, key: &str) -> (r: Result<Vec<String>, Error>)
    requires
        m@ is Obj,
    ensures
        r matches Ok(v) ==> names_field(m@->Obj_0, key@) == Some(v.deep_view()),
        r matches Err(e) ==> names_field(m@->Obj_0, key@) is None && e@ is InvalidMetadata,
{
    let items = match m.get(key) {
        None => {
            let r: Vec<String> = Vec::new();
            proof {
                assert(r.deep_view() =~= Seq::<Seq<char>>::empty());
            }
            return Ok(r);
        },
        Some(x) => match x.as_array() {
            None => {
                let r: Vec<String> = Vec::new();
                proof {
                    assert(r.deep_view() =~= Seq::<Seq<char>>::empty());
                }
                return Ok(r);
            },
            Some(items) => items,
        },
    };
    let ghost ispec = items.deep_view();
    let mut r: Vec<String> = Vec::new();
    let n = items.len();
    let mut i: usize = 0;
    proof {
        assert(ispec.skip(0) =~= ispec);
        assert(r.deep_view() =~= Seq::<Seq<char>>::empty());
        assert(names_field(m@->Obj_0, key@) == strs_of(ispec));
    }
    while i < n
        invariant
            i <= n,
            n == items@.len(),
            ispec == items.deep_view(),
            m@ is Obj,
            names_field(m@->Obj_0, key@) == strs_of(ispec),
            r.deep_view().len() == i,
            r@.len() == i,
            strs_of(ispec) == (match strs_of(ispec.skip(i as int)) {
                Some(t) => Some(r.deep_view() + t),
                None => None::<Seq<Seq<char>>>,
            }),
        decreases n - i,
    {
        let ghost prev = r.deep_view();
        let ghost r0 = r;
        proof {
            assert(ispec.skip(i as int)[0] == ispec[i as int]);
            assert(ispec.skip(i as int).drop_first() =~= ispec.skip(i + 1));
            assert(ispec[i as int] == json_view(items@[i as int]));
        }
        match items[i].as_str() {
            Some(s) => {
                r.push(s.clone());
                proof {
                    assert(r@.len() == i + 1);
                    assert(r.deep_view().len() == i + 1);
                    assert forall|k: int| 0 <= k < i + 1 implies r.deep_view()[k] == prev.push(
                        ispec[i as int]->Str_0,
                    )[k] by {
                        assert(r.deep_view()[k] == r@[k]@);
                        if k < i {
                            assert(r@[k] == r0@[k]);
                            assert(prev[k] == r0@[k]@);
                        }
                    }
                    assert(r.deep_view() =~= prev.push(ispec[i as int]->Str_0));
                    if strs_of(ispec.skip(i + 1)) is Some {
                        let t = strs_of(ispec.skip(i + 1))->Some_0;
                        assert(prev + (seq![ispec[i as int]->Str_0] + t) =~= r.deep_view() + t);
                    }
                }
            },
            None => {
                return Err(Error::InvalidMetadata);
            },
        }
        i = i + 1;
    }
    proof {
        assert(ispec.skip(n as int) =~= Seq::<JsonSpec>::empty());
        assert(r.deep_view() + Seq::<Seq<char>>::empty() =~= r.deep_view());
    }
    Ok(r)
}

/// The hupa a record stands for, or the invalid-metadata error.
fn member_to_hupa(m: &JsonVal) -> (r: Result<Hupa, Error>)
    ensures
        r matches Ok(h) ==> member_hupa(m@) == Some(h@),
        r matches Err(e) ==> member_hupa(m@) is None && e@ is InvalidMetadata,
{
    let name = match m.get("name") {
        Some(x) => match x.as_str() {
            Some(s) => s.clone(),
            None => {
                return Err(Error::InvalidMetadata);
            },
        },
        None => {
            return Err(Error::InvalidMetadata);
        },
    };
    let desc = match m.get("desc") {
        Some(x) => match x.as_str() {
            Some(s) => s.clone(),
            None => {
                return Err(Error::InvalidMetadata);
            },
        },
        None => {
            return Err(Error::InvalidMetadata);
        },
    };
    let backup_parent = match m.get("backup_parent") {
        Some(x) => match x.as_str() {
            Some(s) => s.clone(),
            None => {
                return Err(Error::InvalidMetadata);
            },
        },
        None => {
            return Err(Error::InvalidMetadata);
        },
    };
    let origin = match m.get("origin") {
        Some(x) => match x.as_str() {
            Some(s) => s.clone(),
            None => {
                return Err(Error::InvalidMetadata);
            },
        },
        None => {
            return Err(Error::InvalidMetadata);
        },
    };
    let autobackup = match m.get("autobackup") {
        Some(x) => match x.as_bool() {
            Some(b) => b,
            None => {
                return Err(Error::InvalidMetadata);
            },
        },
        None => {
            return Err(Error::InvalidMetadata);
        },
    };
    let categories = match names_list(m, "categories") {
        Ok(v) => v,
        Err(e) => {
            return Err(e);
        },
    };
    let needed_vars = match names_list(m, "needed_vars") {
        Ok(v) => v,
        Err(e) => {
            return Err(e);
        },
    };
    Ok(Hupa::new(name, desc, categories, backup_parent, origin, autobackup, needed_vars))
}

/// Convert a parsed metadata document to hupas: it must be an array of
/// well formed records.
pub fn json_to_hupas(json: &JsonVal) -> (r: Result<Vec<Hupa>, Error>)
    ensures
        r matches Ok(hs) ==> parse_hupas(json@) == Some(hs.deep_view()),
        r matches Err(e) ==> parse_hupas(json@) is None && e@ is InvalidMetadata,
{
    let items = match json.as_array() {
        Some(it) => it,
        None => {
            return Err(Error::InvalidMetadata);
        },
    };
    let ghost ispec = items.deep_view();
    let mut hupas: Vec<Hupa> = Vec::new();
    let n = items.len();
    let mut i: usize = 0;
    proof {
        assert(ispec.skip(0) =~= ispec);
    }
    while i < n
        invariant
            i <= n,
            n == items@.len(),
            ispec == items.deep_view(),
            json@ == JsonSpec::Arr(ispec),
            members_hupas(ispec) == (match members_hupas(ispec.skip(i as int)) {
                Some(t) => Some(hupas.deep_view() + t),
                None => None::<Seq<HupaSpec>>,
            }),
        decreases n - i,
    {
        let ghost prev = hupas.deep_view();
        let ghost h0 = hupas;
        proof {
            assert(ispec.skip(i as int)[0] == ispec[i as int]);
            assert(ispec.skip(i as int).drop_first() =~= ispec.skip(i + 1));
            assert(ispec[i as int] == json_view(items@[i as int]));
            assert(h0.deep_view().len() == h0@.len());
        }
        match member_to_hupa(&items[i]) {
            Ok(h) => {
                let ghost hs = h@;
                hupas.push(h);
                proof {
                    assert(hupas@.len() == h0@.len() + 1);
                    assert(hupas.deep_view().len() == hupas@.len());
                    assert forall|k: int|
                        0 <= k < hupas@.len() implies hupas.deep_view()[k] == prev.push(hs)[k] by {
                        assert(hupas.deep_view()[k] == hupas@[k]@);
                        if k < h0@.len() {
                            assert(hupas@[k] == h0@[k]);
                            assert(prev[k] == h0@[k]@);
                        }
                    }
                    assert(hupas.deep_view() =~= prev.push(hs));
                    if members_hupas(ispec.skip(i + 1)) is Some {
                        let t = members_hupas(ispec.skip(i + 1))->Some_0;
                        assert(prev + (seq![hs] + t) =~= hupas.deep_view() + t);
                    }
                }
            },
            Err(e) => {
                return Err(e);
            },
        }
        i = i + 1;
    }
    proof {
        assert(ispec.skip(n as int) =~= Seq::<JsonSpec>::empty());
        assert(hupas.deep_view() + Seq::<HupaSpec>::empty() =~= hupas.deep_view());
    }
    Ok(hupas)
}

proof fn lemma_strs_of_map(cs: Seq<Seq<char>>)
    ensures
        strs_of(cs.map_values(|c: Seq<char>| JsonSpec::Str(c))) == Some(cs),
    decreases cs.len(),
{
    let ms = cs.map_values(|c: Seq<char>| JsonSpec::Str(c));
    if cs.len() == 0 {
        assert(ms.len() == 0);
        assert(Some(Seq::<Seq<char>>::empty()) == Some(cs)) by {
            assert(cs =~= Seq::<Seq<char>>::empty());
        }
    } else {
        lemma_strs_of_map(cs.drop_first());
        assert(ms[0] == JsonSpec::Str(cs[0]));
        assert(ms.drop_first() =~= cs.drop_first().map_values(|c: Seq<char>| JsonSpec::Str(c)));
        assert(seq![cs[0]] + cs.drop_first() =~= cs);
    }
}

/// The record written for a hupa reads back as that hupa.
pub proof fn lemma_member_round_trip(h: HupaSpec)
    ensures
        member_hupa(hupa_json(h)) == Some(h),
{
    reveal_strlit("name");
    reveal_strlit("desc");
    reveal_strlit("categories");
    reveal_strlit("backup_parent");
    reveal_strlit("origin");
    reveal_strlit("autobackup");
    reveal_strlit("needed_vars");
    reveal_with_fuel(obj_get, 9);
    assert("name"@.len() == 4);
    assert("desc"@.len() == 4);
    assert("categories"@.len() == 10);
    assert("backup_parent"@.len() == 13);
    assert("origin"@.len() == 6);
    assert("autobackup"@.len() == 10);
    assert("needed_vars"@.len() == 11);
    assert("name"@[0] == 'n' && "desc"@[0] == 'd');
    assert("name"@ != "desc"@);
    assert("categories"@[0] == 'c' && "autobackup"@[0] == 'a');
    assert("categories"@ != "autobackup"@);
    let fields = hupa_json(h)->Obj_0;
    assert(obj_get(fields, "name"@) == Some(JsonSpec::Str(h.name)));
    assert(obj_get(fields, "desc"@) == Some(JsonSpec::Str(h.desc)));
    assert(obj_get(fields, "backup_parent"@) == Some(JsonSpec::Str(h.backup_parent)));
    assert(obj_get(fields, "origin"@) == Some(JsonSpec::Str(h.origin_path)));
    assert(obj_get(fields, "autobackup"@) == Some(JsonSpec::Bool(h.autobackup)));
    assert(obj_get(fields, "categories"@) == Some(
        JsonSpec::Arr(h.category.map_values(|c: Seq<char>| JsonSpec::Str(c))),
    ));
    assert(obj_get(fields, "needed_vars"@) == Some(
        JsonSpec::Arr(h.needed_vars.map_values(|c: Seq<char>| JsonSpec::Str(c))),
    ));
    lemma_strs_of_map(h.category);
    lemma_strs_of_map(h.needed_vars);
    assert(names_field(fields, "categories"@) == Some(h.category));
    assert(names_field(fields, "needed_vars"@) == Some(h.needed_vars));
}

/// The records written for a list of hupas read back as the same hupas:
/// the metadata text loses nothing.
pub proof fn lemma_metadata_round_trip(hs: Seq<HupaSpec>)
    ensures
        parse_hupas(hupas_json(hs)) == Some(hs),
    decreases hs.len(),
{
    let ms = hs.map_values(|h: HupaSpec| hupa_json(h));
    if hs.len() == 0 {
        assert(ms.len() == 0);
        assert(Some(Seq::<HupaSpec>::empty()) == Some(hs)) by {
            assert(hs =~= Seq::<HupaSpec>::empty());
        }
    } else {
        lemma_member_round_trip(hs[0]);
        lemma_metadata_round_trip(hs.drop_first());
        assert(ms[0] == hupa_json(hs[0]));
        assert(ms.drop_first() =~= hs.drop_first().map_values(|h: HupaSpec| hupa_json(h)));
        assert(members_hupas(ms.drop_first()) == Some(hs.drop_first()));
        assert(seq![hs[0]] + hs.drop_first() =~= hs);
    }
}

/// Read metadata from its text: parse, then convert.
pub fn read_metadata(buf: &str) -> (r: Result<Vec<Hupa>, Error>)
    ensures
        match parsed_json(buf@) {
            Some(v) => match parse_hupas(v) {
                Some(hs) => r matches Ok(res) && res.deep_view() == hs,
                None => r matches Err(e) && e@ is InvalidMetadata,
            },
            None => r matches Err(e) && e@ is InvalidMetadata,
        },
{
    match json_parse(buf) {
        Some(v) => json_to_hupas(&v),
        None => Err(Error::InvalidMetadata),
    }
}

/// Write metadata: the pretty text of the hupas' records.
pub fn write_metadata(hupas: &Vec<Hupa>) -> (r: String)
    ensures
        r@ == json_text_pretty(hupas_json(hupas.deep_view())),
{
    let v = hupas_to_json(hupas);
    json_dump_pretty(&v)
}

} // verus!
