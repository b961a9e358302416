use vstd::prelude::*;
use crate::text::{opt_text_view, string_views};
use crate::fields::FieldEntry;
use crate::json::{items_view, jget, jstr, lemma_array_view, Json, JsonV};
use crate::prompt::{OperatorCatalog, OperatorInfo};
use crate::text::{chars_of, string_of, trim, trim_chars};

verus! {

/// The item array of a page: the first of `key1`, `key2`, `key3` that is an
/// array, else the body itself when it is an array, else nothing.
pub open spec fn page_items_spec(v: JsonV, key1: Seq<char>, key2: Seq<char>, key3: Seq<char>) -> Seq<JsonV> {
    match jget(v, key1) {
        Some(JsonV::Array(a)) => a,
        _ => match jget(v, key2) {
            Some(JsonV::Array(a)) => a,
            _ => match jget(v, key3) {
                Some(JsonV::Array(a)) => a,
                _ => match v {
                    JsonV::Array(a) => a,
                    _ => Seq::empty(),
                },
            },
        },
    }
}

fn as_array(j: Option<&Json>) -> (r: Option<&Vec<Json>>)
    ensures
        match r {
            Some(a) => j matches Some(x) && x@ == JsonV::Array(items_view(a@)),
            None => !(j matches Some(x) && x@ is Array),
        },
{
    match j {
        Some(Json::Array(a)) => {
            proof {
                lemma_array_view(*a);
            }
            Some(a)
        },
        _ => None,
    }
}

/// The items of a paged response body.
pub fn page_items<'a>(v: &'a Json, key1: &str, key2: &str, key3: &str) -> (r: Option<&'a Vec<Json>>)
    ensures
        match r {
            Some(a) => items_view(a@) == page_items_spec(v@, key1@, key2@, key3@),
            None => page_items_spec(v@, key1@, key2@, key3@).len() == 0,
        },
{
    if let Some(a) = as_array(v.get(key1)) {
        return Some(a);
    }
    if let Some(a) = as_array(v.get(key2)) {
        return Some(a);
    }
    if let Some(a) = as_array(v.get(key3)) {
        return Some(a);
    }
    match v {
        Json::Array(a) => {
            proof {
                lemma_array_view(*a);
            }
            Some(a)
        },
        _ => None,
    }
}

pub open spec fn str_or_empty(o: Option<Seq<char>>) -> Seq<char> {
    match o {
        Some(s) => s,
        None => Seq::empty(),
    }
}

/// `(id, name)` of a nested `{id, name}` object `key`, or else of the flat
/// members `flat_id` and `flat_name`; missing texts are empty.
pub open spec fn pair_spec(item: JsonV, key: Seq<char>, flat_id: Seq<char>, flat_name: Seq<char>) -> (Seq<char>, Seq<char>) {
    match jget(item, key) {
        Some(d) => (str_or_empty(jstr(jget(d, "id"@))), str_or_empty(jstr(jget(d, "name"@)))),
        None => (str_or_empty(jstr(jget(item, flat_id))), str_or_empty(jstr(jget(item, flat_name)))),
    }
}

/// The id of a field item: `id` when it is a string, else `fieldId`.
pub open spec fn field_id_spec(item: JsonV) -> Seq<char> {
    match jstr(jget(item, "id"@)) {
        Some(s) => s,
        None => str_or_empty(jstr(jget(item, "fieldId"@))),
    }
}

/// The catalog entry that a field-search item describes in the given scope;
/// `None` when the item has no id.
pub open spec fn field_entry_ok(item: JsonV, region: Seq<char>, universe: Seq<char>, delay: i32, e: FieldEntry) -> bool {
    &&& e.field_id@ == field_id_spec(item)
    &&& e.description@ == str_or_empty(jstr(jget(item, "description"@)))
    &&& (e.dataset_id@, e.dataset_name@) == pair_spec(item, "dataset"@, "datasetId"@, "datasetName"@)
    &&& (e.category_id@, e.category_name@) == pair_spec(item, "category"@, "categoryId"@, "categoryName"@)
    &&& (e.subcategory_id@, e.subcategory_name@) == pair_spec(item, "subcategory"@, "subcategoryId"@, "subcategoryName"@)
    &&& e.region@ == region
    &&& e.universe@ == universe
    &&& e.delay == delay
    &&& e.field_type@ == str_or_empty(jstr(jget(item, "type"@)))
}

fn text_of(j: Option<&Json>) -> (r: String)
    ensures
        r@ == str_or_empty(
            jstr(
                match j {
                    Some(x) => Some(x@),
                    None => None,
                },
            ),
        ),
{
    match j {
        Some(Json::Str(s)) => s.clone(),
        _ => String::new(),
    }
}

fn pair_of(item: &Json, key: &str, flat_id: &str, flat_name: &str) -> (r: (String, String))
    ensures
        (r.0@, r.1@) == pair_spec(item@, key@, flat_id@, flat_name@),
{
    match item.get(key) {
        Some(d) => (text_of(d.get("id")), text_of(d.get("name"))),
        None => (text_of(item.get(flat_id)), text_of(item.get(flat_name))),
    }
}

/// Turns one field-search item into a catalog entry for the scope.
pub fn field_entry_from(item: &Json, region: &str, universe: &str, delay: i32) -> (r: Option<FieldEntry>)
    ensures
        match r {
            Some(e) => field_id_spec(item@).len() > 0 && field_entry_ok(item@, region@, universe@, delay, e),
            None => field_id_spec(item@).len() == 0,
        },
{
    let field_id = match item.get("id") {
        Some(Json::Str(s)) => s.clone(),
        _ => text_of(item.get("fieldId")),
    };
    if field_id.as_str().is_empty() {
        return None;
    }
    let (dataset_id, dataset_name) = pair_of(item, "dataset", "datasetId", "datasetName");
    let (category_id, category_name) = pair_of(item, "category", "categoryId", "categoryName");
    let (subcategory_id, subcategory_name) = pair_of(item, "subcategory", "subcategoryId", "subcategoryName");
    Some(FieldEntry {
        field_id,
        description: text_of(item.get("description")),
        dataset_id,
        dataset_name,
        category_id,
        category_name,
        subcategory_id,
        subcategory_name,
        region: region.to_string(),
        delay,
        universe: universe.to_string(),
        field_type: text_of(item.get("type")),
    })
}

/// The non-empty string values of `key` in an item and in its `settings`.
pub open spec fn values_of(item: JsonV, key: Seq<char>) -> Seq<Seq<char>> {
    let top = match jstr(jget(item, key)) {
        Some(s) => if s.len() > 0 { seq![s] } else { Seq::empty() },
        None => Seq::empty(),
    };
    let nested = match jget(item, "settings"@) {
        Some(st) => match jstr(jget(st, key)) {
            Some(s) => if s.len() > 0 { seq![s] } else { Seq::empty() },
            None => Seq::empty(),
        },
        None => Seq::empty(),
    };
    top + nested
}

fn push_unique(out: &mut Vec<String>, s: &String)
    ensures
        string_views(old(out)@).contains(s@) ==> final(out)@ == old(out)@,
        !string_views(old(out)@).contains(s@) ==> string_views(final(out)@) == string_views(old(out)@).push(s@),
{
    let mut i: usize = 0;
    while i < out.len()
        invariant
            i <= out@.len(),
            forall|m: int| 0 <= m < i ==> (#[trigger] out@[m])@ != s@,
        decreases out@.len() - i,
    {
        if out[i] == *s {
            assert(string_views(out@)[i as int] == s@);
            return;
        }
        i += 1;
    }
    assert(!string_views(out@).contains(s@)) by {
        if string_views(out@).contains(s@) {
            let w = choose|w: int| 0 <= w < string_views(out@).len() && string_views(out@)[w] == s@;
            assert(out@[w]@ == s@);
        }
    }
    let ghost before = out@;
    out.push(s.clone());
    assert(string_views(out@) =~= string_views(before).push(s@));
}

fn value_strings(item: &Json, key: &str) -> (r: Vec<String>)
    ensures
        string_views(r@) == values_of(item@, key@),
{
    let mut out: Vec<String> = Vec::new();
    match item.get(key) {
        Some(Json::Str(s)) => {
            if !s.as_str().is_empty() {
                out.push(s.clone());
            }
        },
        _ => {},
    }
    match item.get("settings") {
        Some(st) => match st.get(key) {
            Some(Json::Str(s)) => {
                if !s.as_str().is_empty() {
                    out.push(s.clone());
                }
            },
            _ => {},
        },
        None => {},
    }
    assert(string_views(out@) =~= values_of(item@, key@));
    out
}

/// Some item of the page names `x` under `key`.
pub open spec fn named_by(items: Seq<Json>, key: Seq<char>, x: Seq<char>) -> bool {
    exists|k: int, m: int| 0 <= k < items.len() && 0 <= m < values_of(items[k]@, key).len() && #[trigger] values_of(items[k]@, key)[m] == x
}

/// Adds to `regions` and `universes` the values that one page of the
/// dataset index names, each value once.
pub fn collect_scopes(items: &Vec<Json>, regions: &mut Vec<String>, universes: &mut Vec<String>)
    ensures
        forall|k: int, m: int|
            0 <= k < items@.len() && 0 <= m < values_of(items@[k]@, "region"@).len() ==> string_views(
                final(regions)@,
            ).contains(#[trigger] values_of(items@[k]@, "region"@)[m]),
        forall|k: int, m: int|
            0 <= k < items@.len() && 0 <= m < values_of(items@[k]@, "universe"@).len() ==> string_views(
                final(universes)@,
            ).contains(#[trigger] values_of(items@[k]@, "universe"@)[m]),
        forall|x: Seq<char>| string_views(old(regions)@).contains(x) ==> string_views(final(regions)@).contains(x),
        forall|x: Seq<char>| string_views(old(universes)@).contains(x) ==> string_views(final(universes)@).contains(x),
        forall|x: Seq<char>|
            string_views(final(regions)@).contains(x) ==> string_views(old(regions)@).contains(x) || named_by(
                items@,
                "region"@,
                x,
            ),
        forall|x: Seq<char>|
            string_views(final(universes)@).contains(x) ==> string_views(old(universes)@).contains(x) || named_by(
                items@,
                "universe"@,
                x,
            ),
{
    let mut i: usize = 0;
    while i < items.len()
        invariant
            i <= items@.len(),
            forall|k: int, m: int|
                0 <= k < i && 0 <= m < values_of(items@[k]@, "region"@).len() ==> string_views(regions@).contains(
                    #[trigger] values_of(items@[k]@, "region"@)[m],
                ),
            forall|k: int, m: int|
                0 <= k < i && 0 <= m < values_of(items@[k]@, "universe"@).len() ==> string_views(universes@).contains(
                    #[trigger] values_of(items@[k]@, "universe"@)[m],
                ),
            forall|x: Seq<char>| string_views(old(regions)@).contains(x) ==> string_views(regions@).contains(x),
            forall|x: Seq<char>| string_views(old(universes)@).contains(x) ==> string_views(universes@).contains(x),
            forall|x: Seq<char>|
                string_views(regions@).contains(x) ==> string_views(old(regions)@).contains(x) || named_by(items@, "region"@, x),
            forall|x: Seq<char>|
                string_views(universes@).contains(x) ==> string_views(old(universes)@).contains(x) || named_by(items@, "universe"@, x),
        decreases items@.len() - i,
    {
        let rs = value_strings(&items[i], "region");
        let us = value_strings(&items[i], "universe");
        let mut j: usize = 0;
        while j < rs.len()
            invariant
                j <= rs@.len(),
                string_views(rs@) == values_of(items@[i as int]@, "region"@),
                forall|m: int| 0 <= m < j ==> string_views(regions@).contains(#[trigger] string_views(rs@)[m]),
                forall|k: int, m: int|
                    0 <= k < i && 0 <= m < values_of(items@[k]@, "region"@).len() ==> string_views(regions@).contains(
                        #[trigger] values_of(items@[k]@, "region"@)[m],
                    ),
                forall|x: Seq<char>| string_views(old(regions)@).contains(x) ==> string_views(regions@).contains(x),
                i < items@.len(),
                forall|x: Seq<char>|
                    string_views(regions@).contains(x) ==> string_views(old(regions)@).contains(x) || named_by(items@, "region"@, x),
            decreases rs@.len() - j,
        {
            let ghost before = string_views(regions@);
            push_unique(regions, &rs[j]);
            proof {
                assert forall|x: Seq<char>| before.contains(x) implies string_views(regions@).contains(x) by {
                    if !before.contains(rs@[j as int]@) {
                        let w = choose|w: int| 0 <= w < before.len() && before[w] == x;
                        assert(string_views(regions@)[w] == x);
                    }
                }
                if before.contains(rs@[j as int]@) {
                } else {
                    assert(string_views(regions@)[before.len() as int] == rs@[j as int]@);
                }
                assert(string_views(rs@)[j as int] == rs@[j as int]@);
                assert(named_by(items@, "region"@, rs@[j as int]@)) by {
                    assert(values_of(items@[i as int]@, "region"@)[j as int] == rs@[j as int]@);
                }
                assert forall|x: Seq<char>| string_views(regions@).contains(x) implies string_views(old(regions)@).contains(x)
                    || named_by(items@, "region"@, x) by {
                    if x != rs@[j as int]@ {
                        let w = choose|w: int| 0 <= w < string_views(regions@).len() && string_views(regions@)[w] == x;
                        if !before.contains(rs@[j as int]@) {
                            assert(w < before.len());
                            assert(before[w] == x);
                        } else {
                            assert(before[w] == x);
                        }
                    }
                }
            }
            j += 1;
        }
        let mut j: usize = 0;
        while j < us.len()
            invariant
                j <= us@.len(),
                string_views(us@) == values_of(items@[i as int]@, "universe"@),
                forall|m: int| 0 <= m < j ==> string_views(universes@).contains(#[trigger] string_views(us@)[m]),
                forall|k: int, m: int|
                    0 <= k < i && 0 <= m < values_of(items@[k]@, "universe"@).len() ==> string_views(universes@).contains(
                        #[trigger] values_of(items@[k]@, "universe"@)[m],
                    ),
                forall|x: Seq<char>| string_views(old(universes)@).contains(x) ==> string_views(universes@).contains(x),
                i < items@.len(),
                forall|x: Seq<char>|
                    string_views(universes@).contains(x) ==> string_views(old(universes)@).contains(x) || named_by(items@, "universe"@, x),
            decreases us@.len() - j,
        {
            let ghost before = string_views(universes@);
            push_unique(universes, &us[j]);
            proof {
                assert forall|x: Seq<char>| before.contains(x) implies string_views(universes@).contains(x) by {
                    if !before.contains(us@[j as int]@) {
                        let w = choose|w: int| 0 <= w < before.len() && before[w] == x;
                        assert(string_views(universes@)[w] == x);
                    }
                }
                if before.contains(us@[j as int]@) {
                } else {
                    assert(string_views(universes@)[before.len() as int] == us@[j as int]@);
                }
                assert(string_views(us@)[j as int] == us@[j as int]@);
                assert(named_by(items@, "universe"@, us@[j as int]@)) by {
                    assert(values_of(items@[i as int]@, "universe"@)[j as int] == us@[j as int]@);
                }
                assert forall|x: Seq<char>| string_views(universes@).contains(x) implies string_views(old(universes)@).contains(x)
                    || named_by(items@, "universe"@, x) by {
                    if x != us@[j as int]@ {
                        let w = choose|w: int| 0 <= w < string_views(universes@).len() && string_views(universes@)[w] == x;
                        if !before.contains(us@[j as int]@) {
                            assert(w < before.len());
                            assert(before[w] == x);
                        } else {
                            assert(before[w] == x);
                        }
                    }
                }
            }
            j += 1;
        }
        i += 1;
    }
}

/// A trimmed string member of an item, if it is a string.
pub open spec fn trimmed_str(item: JsonV, key: Seq<char>) -> Option<Seq<char>> {
    match jstr(jget(item, key)) {
        Some(s) => Some(trim(s)),
        None => None,
    }
}

/// The trimmed strings of an array, other values skipped.
pub open spec fn trimmed_strings(items: Seq<JsonV>) -> Seq<Seq<char>>
    decreases items.len(),
{
    if items.len() == 0 {
        Seq::empty()
    } else {
        match items.last() {
            JsonV::Str(s) => trimmed_strings(items.drop_last()).push(trim(s)),
            _ => trimmed_strings(items.drop_last()),
        }
    }
}

/// The category an operator item is filed under.
pub open spec fn category_of(item: JsonV) -> Seq<char> {
    match jstr(jget(item, "category"@)) {
        Some(c) => c,
        None => "Unknown"@,
    }
}

/// The item names an operator: its trimmed `name` is a non-empty string.
pub open spec fn item_named(item: JsonV) -> bool {
    trimmed_str(item, "name"@) matches Some(n) && n.len() > 0
}

/// `op` is what the operator item `item` describes.
pub open spec fn info_from(item: JsonV, op: OperatorInfo) -> bool {
    &&& item_named(item)
    &&& Some(op.name@) == trimmed_str(item, "name"@)
    &&& op.category@ == category_of(item)
    &&& opt_text_view(op.op_type) == trimmed_str(item, "type"@)
    &&& opt_text_view(op.definition) == trimmed_str(item, "definition"@)
    &&& opt_text_view(op.description) == trimmed_str(item, "description"@)
    &&& opt_text_view(op.documentation) == trimmed_str(item, "documentation"@)
    &&& opt_text_view(op.level) == trimmed_str(item, "level"@)
    &&& match op.scope {
        Some(sc) => jget(item, "scope"@) matches Some(JsonV::Array(a)) && string_views(sc@) == trimmed_strings(a),
        None => !(jget(item, "scope"@) matches Some(JsonV::Array(_))),
    }
}

fn trimmed_member(item: &Json, key: &str) -> (r: Option<String>)
    ensures
        opt_text_view(r) == trimmed_str(item@, key@),
{
    match item.get(key) {
        Some(Json::Str(s)) => {
            let v = chars_of(s.as_str());
            let t = trim_chars(&v);
            Some(string_of(t.as_slice()))
        },
        _ => None,
    }
}

fn trimmed_list(a: &Vec<Json>) -> (r: Vec<String>)
    ensures
        string_views(r@) == trimmed_strings(items_view(a@)),
{
    let ghost iv = items_view(a@);
    let mut out: Vec<String> = Vec::new();
    let mut i: usize = 0;
    while i < a.len()
        invariant
            i <= a@.len(),
            iv == items_view(a@),
            string_views(out@) == trimmed_strings(iv.subrange(0, i as int)),
        decreases a@.len() - i,
    {
        assert(iv.subrange(0, i + 1).drop_last() =~= iv.subrange(0, i as int));
        assert(iv.subrange(0, i + 1).last() == a@[i as int]@);
        match &a[i] {
            Json::Str(s) => {
                let v = chars_of(s.as_str());
                let t = trim_chars(&v);
                let ghost before = out@;
                out.push(string_of(t.as_slice()));
                assert(string_views(out@) =~= string_views(before).push(t@));
            },
            _ => {},
        }
        i += 1;
    }
    assert(iv.subrange(0, a@.len() as int) =~= iv);
    out
}

/// The operator an item describes, when it has a non-empty name.
pub fn operator_from(item: &Json) -> (r: Option<OperatorInfo>)
    ensures
        match r {
            Some(op) => info_from(item@, op),
            None => !item_named(item@),
        },
{
    let name = match trimmed_member(item, "name") {
        Some(n) => n,
        None => {
            return None;
        },
    };
    if name.as_str().is_empty() {
        return None;
    }
    let category = match item.get("category") {
        Some(Json::Str(c)) => c.clone(),
        _ => "Unknown".to_string(),
    };
    let scope = match item.get("scope") {
        Some(Json::Array(a)) => {
            proof {
                lemma_array_view(*a);
            }
            Some(trimmed_list(a))
        },
        _ => None,
    };
    Some(OperatorInfo {
        name,
        category,
        op_type: trimmed_member(item, "type"),
        definition: trimmed_member(item, "definition"),
        description: trimmed_member(item, "description"),
        scope,
        documentation: trimmed_member(item, "documentation"),
        level: trimmed_member(item, "level"),
    })
}

/// `op` is what one of `items` describes.
pub open spec fn from_some_item(items: Seq<JsonV>, op: OperatorInfo) -> bool {
    exists|m: int| 0 <= m < items.len() && info_from(#[trigger] items[m], op)
}

/// The operator that `item` describes is in the catalog.
pub open spec fn filed(cats: Seq<(String, Vec<OperatorInfo>)>, item: JsonV) -> bool {
    exists|a: int, k: int| 0 <= a < cats.len() && 0 <= k < cats[a].1@.len() && info_from(item, #[trigger] cats[a].1@[k])
}

/// Category names of a catalog are distinct, and every operator is filed
/// under its own category.
pub open spec fn catalog_wf(cats: Seq<(String, Vec<OperatorInfo>)>) -> bool {
    &&& forall|a: int, b: int| 0 <= a < cats.len() && 0 <= b < cats.len() && a != b ==> (#[trigger] cats[a]).0@ != (#[trigger] cats[b]).0@
    &&& forall|a: int, k: int| 0 <= a < cats.len() && 0 <= k < cats[a].1@.len() ==> (#[trigger] cats[a].1@[k]).category@ == cats[a].0@
}

/// Groups the operators of a catalog response by category, in order of
/// first appearance; items without a name are skipped.
pub fn catalog_from_json(v: &Json) -> (r: OperatorCatalog)
    ensures
        catalog_wf(r.by_category@),
        forall|a: int, k: int|
            0 <= a < r.by_category@.len() && 0 <= k < r.by_category@[a].1@.len() ==> from_some_item(
                page_items_spec(v@, "operators"@, "data"@, "data"@),
                #[trigger] r.by_category@[a].1@[k],
            ),
        forall|m: int|
            0 <= m < page_items_spec(v@, "operators"@, "data"@, "data"@).len() && item_named(
                #[trigger] page_items_spec(v@, "operators"@, "data"@, "data"@)[m],
            ) ==> filed(r.by_category@, page_items_spec(v@, "operators"@, "data"@, "data"@)[m]),
{
    let mut cats: Vec<(String, Vec<OperatorInfo>)> = Vec::new();
    let items = match page_items(v, "operators", "data", "data") {
        Some(a) => a,
        None => {
            return OperatorCatalog { by_category: cats };
        },
    };
    let ghost pv = page_items_spec(v@, "operators"@, "data"@, "data"@);
    let mut i: usize = 0;
    while i < items.len()
        invariant
            i <= items@.len(),
            items_view(items@) == pv,
            catalog_wf(cats@),
            forall|a: int, k: int|
                0 <= a < cats@.len() && 0 <= k < cats@[a].1@.len() ==> from_some_item(pv, #[trigger] cats@[a].1@[k]),
            forall|m: int| 0 <= m < i && item_named(#[trigger] pv[m]) ==> filed(cats@, pv[m]),
        decreases items@.len() - i,
    {
        assert(pv[i as int] == items@[i as int]@);
        match operator_from(&items[i]) {
            None => {},
            Some(op) => {
                let mut j: usize = 0;
                while j < cats.len() && cats[j].0 != op.category
                    invariant
                        j <= cats@.len(),
                        forall|m: int| 0 <= m < j ==> (#[trigger] cats@[m]).0@ != op.category@,
                    decreases cats@.len() - j,
                {
                    j += 1;
                }
                let ghost before = cats@;
                let ghost opv = op;
                if j < cats.len() {
                    let mut entry: (String, Vec<OperatorInfo>) = (String::new(), Vec::new());
                    std::mem::swap(&mut cats[j], &mut entry);
                    let (name, mut list) = entry;
                    let ghost old_list = list@;
                    list.push(op);
                    cats.set(j, (name, list));
                    assert forall|a: int, k: int|
                        0 <= a < cats@.len() && 0 <= k < cats@[a].1@.len() implies from_some_item(pv, #[trigger] cats@[a].1@[k]) by {
                        if a == j as int && k == old_list.len() {
                            assert(info_from(pv[i as int], cats@[a].1@[k]));
                        } else if a == j as int {
                            assert(cats@[a].1@[k] == before[a].1@[k]);
                        } else {
                            assert(cats@[a] == before[a]);
                        }
                    }
                    assert forall|a: int, k: int| 0 <= a < cats@.len() && 0 <= k < cats@[a].1@.len() implies (#[trigger] cats@[a].1@[k]).category@ == cats@[a].0@ by {
                        if a == j as int && k < old_list.len() {
                            assert(cats@[a].1@[k] == before[a].1@[k]);
                        } else if a != j as int {
                            assert(cats@[a] == before[a]);
                        }
                    }
                    assert forall|a: int, b: int| 0 <= a < cats@.len() && 0 <= b < cats@.len() && a != b implies (#[trigger] cats@[a]).0@ != (#[trigger] cats@[b]).0@ by {
                        assert(cats@[a].0 == before[a].0);
                        assert(cats@[b].0 == before[b].0);
                    }
                    assert forall|m: int| 0 <= m < i + 1 && item_named(#[trigger] pv[m]) implies filed(cats@, pv[m]) by {
                        if m < i {
                            let (a, k) = choose|a: int, k: int|
                                0 <= a < before.len() && 0 <= k < before[a].1@.len() && info_from(pv[m], #[trigger] before[a].1@[k]);
                            if a == j as int {
                                assert(cats@[a].1@[k] == before[a].1@[k]);
                            } else {
                                assert(cats@[a] == before[a]);
                            }
                            assert(info_from(pv[m], cats@[a].1@[k]));
                        } else {
                            assert(info_from(pv[m], cats@[j as int].1@[old_list.len() as int]));
                        }
                    }
                } else {
                    let name = op.category.clone();
                    let list = vec![op];
                    cats.push((name, list));
                    assert forall|a: int, k: int|
                        0 <= a < cats@.len() && 0 <= k < cats@[a].1@.len() implies from_some_item(pv, #[trigger] cats@[a].1@[k]) by {
                        if a == before.len() {
                            assert(cats@[a].1@[k] == opv);
                            assert(cats@[a].1@ =~= seq![opv]);
                            assert(info_from(pv[i as int], cats@[a].1@[k]));
                        } else {
                            assert(cats@[a] == before[a]);
                        }
                    }
                    assert forall|a: int, k: int| 0 <= a < cats@.len() && 0 <= k < cats@[a].1@.len() implies (#[trigger] cats@[a].1@[k]).category@ == cats@[a].0@ by {
                        if a < before.len() {
                            assert(cats@[a] == before[a]);
                        } else {
                            assert(cats@[a].1@ =~= seq![opv]);
                        }
                    }
                    assert forall|a: int, b: int| 0 <= a < cats@.len() && 0 <= b < cats@.len() && a != b implies (#[trigger] cats@[a]).0@ != (#[trigger] cats@[b]).0@ by {
                        if a < before.len() && b < before.len() {
                            assert(cats@[a] == before[a]);
                            assert(cats@[b] == before[b]);
                        } else if a < before.len() {
                            assert(cats@[a] == before[a]);
                        } else {
                            assert(cats@[b] == before[b]);
                        }
                    }
                    assert forall|m: int| 0 <= m < i + 1 && item_named(#[trigger] pv[m]) implies filed(cats@, pv[m]) by {
                        if m < i {
                            let (a, k) = choose|a: int, k: int|
                                0 <= a < before.len() && 0 <= k < before[a].1@.len() && info_from(pv[m], #[trigger] before[a].1@[k]);
                            assert(cats@[a] == before[a]);
                            assert(info_from(pv[m], cats@[a].1@[k]));
                        } else {
                            assert(cats@[before.len() as int].1@ =~= seq![opv]);
                            assert(info_from(pv[m], cats@[before.len() as int].1@[0]));
                        }
                    }
                }
            },
        }
        i += 1;
    }
    OperatorCatalog { by_category: cats }
}

pub const OPERATOR_CACHE_SECS: i64 = 900;

/// A catalog fetched at `fetched_at` (unix seconds) is still served at `now`
/// when less than 15 minutes old.
pub fn catalog_fresh(fetched_at: Option<i64>, now: i64) -> (r: bool)
    ensures
        r == (fetched_at matches Some(t) && now - t < OPERATOR_CACHE_SECS),
{
    match fetched_at {
        Some(t) => (now as i128) - (t as i128) < OPERATOR_CACHE_SECS as i128,
        None => false,
    }
}

} // verus!
