use vstd::prelude::*;
use crate::fields::FieldEntry;
use crate::prompt::OperatorCatalog;
use crate::text::string_views;

verus! {

/// The fields of one scope, with indexes by category and dataset.
#[derive(Debug)]
pub struct FieldCatalog {
    pub entries: Vec<FieldEntry>,
    pub by_category: Vec<(String, Vec<String>)>,
    pub by_dataset: Vec<(String, Vec<String>)>,
    pub regions: Vec<String>,
    pub universes: Vec<String>,
    pub delays: Vec<i32>,
}

impl FieldCatalog {
    pub fn empty() -> (r: Self)
        ensures
            r.entries@.len() == 0 && r.by_category@.len() == 0 && r.by_dataset@.len() == 0
                && r.regions@.len() == 0 && r.universes@.len() == 0 && r.delays@.len() == 0,
    {
        FieldCatalog {
            entries: Vec::new(),
            by_category: Vec::new(),
            by_dataset: Vec::new(),
            regions: Vec::new(),
            universes: Vec::new(),
            delays: Vec::new(),
        }
    }
}

/// Where the generator gets its operator and field catalogs from.
pub trait GenerateContextProvider {
    fn get_operator_catalog(&self) -> Result<OperatorCatalog, String>;

    fn get_field_catalog(&self, region: &str, delay: i32, universe: &str) -> Result<FieldCatalog, String>;
}

/// A provider with nothing in it, for running without the upstream.
pub struct EmptyContextProvider;

impl EmptyContextProvider {
    pub fn new() -> (r: Self) {
        EmptyContextProvider
    }
}

impl GenerateContextProvider for EmptyContextProvider {
    fn get_operator_catalog(&self) -> Result<OperatorCatalog, String> {
        Ok(OperatorCatalog { by_category: Vec::new() })
    }

    fn get_field_catalog(&self, region: &str, delay: i32, universe: &str) -> Result<FieldCatalog, String> {
        Ok(FieldCatalog::empty())
    }
}

/// The grouping key of an entry: its dataset name, or its category name.
pub open spec fn group_key(e: FieldEntry, by_dataset: bool) -> Seq<char> {
    if by_dataset { e.dataset_name@ } else { e.category_name@ }
}

/// Index of the group named `k`, or `gs.len()`.
pub open spec fn group_index(gs: Seq<(Seq<char>, Seq<Seq<char>>)>, k: Seq<char>) -> int
    decreases gs.len(),
{
    if gs.len() == 0 {
        0
    } else if group_index(gs.drop_last(), k) < gs.len() - 1 {
        group_index(gs.drop_last(), k)
    } else if gs.last().0 == k {
        gs.len() - 1
    } else {
        gs.len() as int
    }
}

/// Field ids grouped by a non-empty key, groups in order of first
/// appearance, ids in entry order.
pub open spec fn groups_of(es: Seq<FieldEntry>, by_dataset: bool) -> Seq<(Seq<char>, Seq<Seq<char>>)>
    decreases es.len(),
{
    if es.len() == 0 {
        Seq::empty()
    } else {
        let g = groups_of(es.drop_last(), by_dataset);
        let e = es.last();
        let k = group_key(e, by_dataset);
        if k.len() == 0 {
            g
        } else if group_index(g, k) < g.len() {
            g.update(group_index(g, k), (k, g[group_index(g, k)].1.push(e.field_id@)))
        } else {
            g.push((k, seq![e.field_id@]))
        }
    }
}

pub open spec fn groups_view(v: Seq<(String, Vec<String>)>) -> Seq<(Seq<char>, Seq<Seq<char>>)> {
    v.map_values(|g: (String, Vec<String>)| (g.0@, string_views(g.1@)))
}

proof fn lemma_group_index(gs: Seq<(Seq<char>, Seq<Seq<char>>)>, k: Seq<char>)
    ensures
        0 <= group_index(gs, k) <= gs.len(),
        group_index(gs, k) < gs.len() ==> gs[group_index(gs, k)].0 == k,
        forall|j: int| 0 <= j < group_index(gs, k) ==> gs[j].0 != k,
    decreases gs.len(),
{
    if gs.len() > 0 {
        lemma_group_index(gs.drop_last(), k);
        assert forall|j: int| 0 <= j < group_index(gs, k) implies gs[j].0 != k by {
            if j < gs.len() - 1 {
                assert(gs[j] == gs.drop_last()[j]);
            }
        }
    }
}

fn group_entries(es: &Vec<FieldEntry>, by_dataset: bool) -> (r: Vec<(String, Vec<String>)>)
    ensures
        groups_view(r@) == groups_of(es@, by_dataset),
{
    let mut out: Vec<(String, Vec<String>)> = Vec::new();
    let mut i: usize = 0;
    while i < es.len()
        invariant
            i <= es@.len(),
            groups_view(out@) == groups_of(es@.subrange(0, i as int), by_dataset),
        decreases es@.len() - i,
    {
        let ghost pre = es@.subrange(0, i + 1);
        assert(pre.drop_last() =~= es@.subrange(0, i as int));
        let e = &es[i];
        let key = if by_dataset {
            &e.dataset_name
        } else {
            &e.category_name
        };
        let ghost g = groups_view(out@);
        if key.as_str().is_empty() {
        } else {
            proof {
                lemma_group_index(g, key@);
            }
            let mut j: usize = 0;
            while j < out.len() && out[j].0 != *key
                invariant
                    j <= out@.len(),
                    forall|m: int| 0 <= m < j ==> (#[trigger] out@[m]).0@ != key@,
                decreases out@.len() - j,
            {
                j += 1;
            }
            proof {
                if j < out@.len() {
                    assert(g[j as int].0 == key@);
                    if group_index(g, key@) < j {
                        assert(g[group_index(g, key@)].0 == out@[group_index(g, key@)].0@);
                    }
                    assert(group_index(g, key@) == j);
                } else {
                    if group_index(g, key@) < g.len() {
                        assert(g[group_index(g, key@)].0 == out@[group_index(g, key@)].0@);
                    }
                }
            }
            let ghost before = out@;
            if j < out.len() {
                let mut entry: (String, Vec<String>) = (String::new(), Vec::new());
                std::mem::swap(&mut out[j], &mut entry);
                let (name, mut ids) = entry;
                let ghost old_ids = ids@;
                ids.push(e.field_id.clone());
                assert(string_views(ids@) =~= string_views(old_ids).push(e.field_id@));
                out.set(j, (name, ids));
                assert(groups_view(out@) =~= g.update(j as int, (key@, g[j as int].1.push(e.field_id@))));
            } else {
                let ids = vec![e.field_id.clone()];
                assert(string_views(ids@) =~= seq![e.field_id@]);
                out.push((key.clone(), ids));
                assert(groups_view(out@) =~= g.push((key@, seq![e.field_id@])));
            }
        }
        i += 1;
    }
    assert(es@.subrange(0, es@.len() as int) =~= es@);
    out
}

impl FieldCatalog {
    /// The catalog of one scope from its fetched entries: the entries in
    /// order, ids grouped by category name and by dataset name (entries with
    /// an empty name are not grouped), and the scope itself.
    pub fn from_entries(entries: Vec<FieldEntry>, region: &str, universe: &str, delay: i32) -> (r: Self)
        ensures
            r.entries@ == entries@,
            groups_view(r.by_category@) == groups_of(entries@, false),
            groups_view(r.by_dataset@) == groups_of(entries@, true),
            string_views(r.regions@) == seq![region@],
            string_views(r.universes@) == seq![universe@],
            r.delays@ == seq![delay],
    {
        let by_category = group_entries(&entries, false);
        let by_dataset = group_entries(&entries, true);
        let regions = vec![region.to_string()];
        let universes = vec![universe.to_string()];
        assert(string_views(regions@) =~= seq![region@]);
        assert(string_views(universes@) =~= seq![universe@]);
        let delays = vec![delay];
        assert(delays@ =~= seq![delay]);
        FieldCatalog { entries, by_category, by_dataset, regions, universes, delays }
    }
}

} // verus!
