use vstd::prelude::*;
use crate::text::{contains_text, opt_text_view, string_views};
use crate::tokens::{extract_operators, extract_tokens, operator_tokens, tokens};

verus! {

/// One data field as the catalog describes it.
#[derive(Debug)]
pub struct FieldEntry {
    pub field_id: String,
    pub description: String,
    pub dataset_id: String,
    pub dataset_name: String,
    pub category_id: String,
    pub category_name: String,
    pub subcategory_id: String,
    pub subcategory_name: String,
    pub region: String,
    pub delay: i32,
    pub universe: String,
    pub field_type: String,
}

/// A field's availability in one (region, universe, delay) scope.
#[derive(Debug)]
pub struct FieldScope {
    pub field_id: String,
    pub region: String,
    pub universe: String,
    pub delay: i32,
    pub is_event: bool,
}

/// Distinct fields available in one scope.
#[derive(Debug)]
pub struct FieldStatsRow {
    pub region: String,
    pub universe: String,
    pub delay: i32,
    pub count: usize,
}

/// How many matching scopes a field has.
#[derive(Debug)]
pub struct FieldFreqRow {
    pub field_id: String,
    pub freq: usize,
}

/// Whether a field has an event-flagged matching scope.
#[derive(Debug)]
pub struct FieldEventFlag {
    pub field_id: String,
    pub is_event: bool,
}

/// Why an expression may not be enqueued in a scope.
#[derive(Debug, Clone, Copy, PartialEq, Eq, Structural)]
pub enum EventOpValidationErr {
    /// It reads an event field through an operator that cannot take one.
    Incompatible,
}

/// The field catalog: master rows by field id and the scopes each field is available in.
pub struct DataFieldRepository {
    fields: Vec<FieldEntry>,
    scopes: Vec<FieldScope>,
}

pub open spec fn same_scope(a: FieldScope, b: FieldScope) -> bool {
    a.field_id@ == b.field_id@ && a.region@ == b.region@ && a.universe@ == b.universe@ && a.delay == b.delay
}

pub open spec fn wf_catalog(fs: Seq<FieldEntry>, ss: Seq<FieldScope>) -> bool {
    &&& forall|i: int, k: int|
        0 <= i < fs.len() && 0 <= k < fs.len() && i != k ==> (#[trigger] fs[i]).field_id@ != (
        #[trigger] fs[k]).field_id@
    &&& forall|i: int, k: int|
        0 <= i < ss.len() && 0 <= k < ss.len() && i != k ==> !same_scope(#[trigger] ss[i], #[trigger] ss[k])
}

pub open spec fn opt_matches(o: Option<Seq<char>>, v: Seq<char>) -> bool {
    match o {
        None => true,
        Some(x) => x == v,
    }
}

/// A scope lies in the filter; a `None` part of the filter accepts anything.
pub open spec fn scope_matches(s: FieldScope, r: Option<Seq<char>>, u: Option<Seq<char>>, d: Option<i32>) -> bool {
    opt_matches(r, s.region@) && opt_matches(u, s.universe@) && match d {
        None => true,
        Some(x) => s.delay == x,
    }
}

pub open spec fn opt_str_view(o: Option<&str>) -> Option<Seq<char>> {
    match o {
        Some(s) => Some(s@),
        None => None,
    }
}

pub open spec fn has_field(fs: Seq<FieldEntry>, id: Seq<char>) -> bool {
    exists|i: int| 0 <= i < fs.len() && (#[trigger] fs[i]).field_id@ == id
}

/// `sc` is the scope tuple of entry `e`.
pub open spec fn entry_scope(sc: FieldScope, e: FieldEntry) -> bool {
    sc.field_id@ == e.field_id@ && sc.region@ == e.region@ && sc.universe@ == e.universe@ && sc.delay == e.delay
}

/// `sc` is the scope tuple of one of `es`.
pub open spec fn from_entries(sc: FieldScope, es: Seq<FieldEntry>) -> bool {
    exists|k: int| 0 <= k < es.len() && entry_scope(sc, #[trigger] es[k])
}

/// Upserting scopes again with entries whose tuples are all known adds
/// nothing: an added scope would repeat a known tuple.
pub proof fn lemma_upsert_scopes_repeat(
    fields: Seq<FieldEntry>,
    s0: Seq<FieldScope>,
    s1: Seq<FieldScope>,
    entries: Seq<FieldEntry>,
    r: nat,
)
    requires
        wf_catalog(fields, s1),
        s1.len() == s0.len() + r,
        s1.subrange(0, s0.len() as int) == s0,
        forall|j: int| s0.len() <= j < s1.len() ==> from_entries(#[trigger] s1[j], entries),
        forall|k: int| 0 <= k < entries.len() ==> has_scope_of(s0, #[trigger] entries[k]),
    ensures
        r == 0,
{
    if r > 0 {
        let j = s0.len() as int;
        assert(from_entries(s1[j], entries));
        let k = choose|k: int| 0 <= k < entries.len() && entry_scope(s1[j], #[trigger] entries[k]);
        assert(has_scope_of(s0, entries[k]));
        let i = choose|i: int|
            0 <= i < s0.len() && (#[trigger] s0[i]).field_id@ == entries[k].field_id@ && s0[i].region@ == entries[k].region@
                && s0[i].universe@ == entries[k].universe@ && s0[i].delay == entries[k].delay;
        assert(s1[i] == s0[i]);
        assert(same_scope(s1[i], s1[j]));
    }
}

/// No later entry of `es` below `bound` has the field id of entry `k`.
pub open spec fn last_for_id(es: Seq<FieldEntry>, k: int, bound: int) -> bool {
    forall|k2: int| k < k2 < bound ==> (#[trigger] es[k2]).field_id@ != es[k].field_id@
}

/// Some row of `fs` is `e` itself.
pub open spec fn holds_entry(fs: Seq<FieldEntry>, e: FieldEntry) -> bool {
    exists|i: int| 0 <= i < fs.len() && fs[i] == e
}

pub open spec fn has_scope_of(ss: Seq<FieldScope>, e: FieldEntry) -> bool {
    exists|i: int|
        0 <= i < ss.len() && (#[trigger] ss[i]).field_id@ == e.field_id@ && ss[i].region@ == e.region@
            && ss[i].universe@ == e.universe@ && ss[i].delay == e.delay
}

/// Some scope of field `id` in the filter is flagged as an event scope.
pub open spec fn is_event_spec(ss: Seq<FieldScope>, id: Seq<char>, r: Option<Seq<char>>, u: Option<Seq<char>>, d: Option<i32>) -> bool {
    exists|i: int|
        0 <= i < ss.len() && (#[trigger] ss[i]).field_id@ == id && ss[i].is_event && scope_matches(ss[i], r, u, d)
}

/// Number of scopes of field `id` in the filter.
pub open spec fn freq_of(ss: Seq<FieldScope>, id: Seq<char>, r: Option<Seq<char>>, u: Option<Seq<char>>, d: Option<i32>) -> nat
    decreases ss.len(),
{
    if ss.len() == 0 {
        0
    } else {
        freq_of(ss.drop_last(), id, r, u, d) + if ss.last().field_id@ == id && scope_matches(ss.last(), r, u, d) {
            1nat
        } else {
            0nat
        }
    }
}

/// Some scope of field `id` lies in the filter.
pub open spec fn in_filter(ss: Seq<FieldScope>, id: Seq<char>, r: Option<Seq<char>>, u: Option<Seq<char>>, d: Option<i32>) -> bool {
    exists|i: int| 0 <= i < ss.len() && (#[trigger] ss[i]).field_id@ == id && scope_matches(ss[i], r, u, d)
}

proof fn lemma_freq_positive(ss: Seq<FieldScope>, id: Seq<char>, r: Option<Seq<char>>, u: Option<Seq<char>>, d: Option<i32>)
    ensures
        freq_of(ss, id, r, u, d) > 0 <==> in_filter(ss, id, r, u, d),
    decreases ss.len(),
{
    if ss.len() > 0 {
        lemma_freq_positive(ss.drop_last(), id, r, u, d);
        if in_filter(ss.drop_last(), id, r, u, d) {
            let i = choose|i: int| 0 <= i < ss.drop_last().len() && (#[trigger] ss.drop_last()[i]).field_id@ == id
                && scope_matches(ss.drop_last()[i], r, u, d);
            assert(ss[i] == ss.drop_last()[i]);
        }
        if in_filter(ss, id, r, u, d) {
            let i = choose|i: int| 0 <= i < ss.len() && (#[trigger] ss[i]).field_id@ == id && scope_matches(ss[i], r, u, d);
            if i < ss.len() - 1 {
                assert(ss.drop_last()[i] == ss[i]);
            }
        }
    }
}

fn opt_string(o: Option<&str>) -> (r: Option<String>)
    ensures
        match r {
            Some(s) => o matches Some(x) && s@ == x@,
            None => o is None,
        },
{
    match o {
        Some(x) => Some(x.to_string()),
        None => None,
    }
}

fn opt_eq_exec(o: &Option<String>, v: &String) -> (r: bool)
    ensures
        r == opt_matches(
            match o {
                Some(s) => Some(s@),
                None => None,
            },
            v@,
        ),
{
    match o {
        None => true,
        Some(x) => *x == *v,
    }
}

fn scope_matches_exec(s: &FieldScope, r: &Option<String>, u: &Option<String>, d: Option<i32>) -> (b: bool)
    ensures
        b == scope_matches(
            *s,
            match r {
                Some(x) => Some(x@),
                None => None,
            },
            match u {
                Some(x) => Some(x@),
                None => None,
            },
            d,
        ),
{
    opt_eq_exec(r, &s.region) && opt_eq_exec(u, &s.universe) && match d {
        None => true,
        Some(x) => s.delay == x,
    }
}

impl DataFieldRepository {
    pub closed spec fn fields_view(&self) -> Seq<FieldEntry> {
        self.fields@
    }

    pub closed spec fn scopes_view(&self) -> Seq<FieldScope> {
        self.scopes@
    }

    pub open spec fn wf(&self) -> bool {
        wf_catalog(self.fields_view(), self.scopes_view())
    }

    pub fn new() -> (r: Self)
        ensures
            r.wf(),
            r.fields_view().len() == 0,
            r.scopes_view().len() == 0,
    {
        DataFieldRepository { fields: Vec::new(), scopes: Vec::new() }
    }

    /// The catalog holding `fields` and `scopes`, as reloaded from a
    /// snapshot; `None` when a field id or a scope occurs twice.
    pub fn from_parts(fields: Vec<FieldEntry>, scopes: Vec<FieldScope>) -> (r: Option<Self>)
        ensures
            match r {
                Some(x) => x.fields_view() == fields@ && x.scopes_view() == scopes@ && x.wf(),
                None => !wf_catalog(fields@, scopes@),
            },
    {
        let n = fields.len();
        let mut i: usize = 0;
        while i < n
            invariant
                n == fields@.len(),
                i <= n,
                forall|a: int, b: int|
                    0 <= a < i && 0 <= b < n && a != b ==> (#[trigger] fields@[a]).field_id@ != (#[trigger] fields@[b]).field_id@,
            decreases n - i,
        {
            let mut j: usize = 0;
            while j < n
                invariant
                    n == fields@.len(),
                    i < n,
                    j <= n,
                    forall|b: int| 0 <= b < j && b != i ==> fields@[i as int].field_id@ != (#[trigger] fields@[b]).field_id@,
                decreases n - j,
            {
                if j != i && fields[j].field_id == fields[i].field_id {
                    assert(!wf_catalog(fields@, scopes@)) by {
                        assert(fields@[i as int].field_id@ == fields@[j as int].field_id@);
                    }
                    return None;
                }
                j += 1;
            }
            i += 1;
        }
        let m = scopes.len();
        let mut i: usize = 0;
        while i < m
            invariant
                m == scopes@.len(),
                i <= m,
                forall|a: int, b: int| 0 <= a < i && 0 <= b < m && a != b ==> !same_scope(#[trigger] scopes@[a], #[trigger] scopes@[b]),
            decreases m - i,
        {
            let mut j: usize = 0;
            while j < m
                invariant
                    m == scopes@.len(),
                    i < m,
                    j <= m,
                    forall|b: int| 0 <= b < j && b != i ==> !same_scope(scopes@[i as int], #[trigger] scopes@[b]),
                decreases m - j,
            {
                let a = &scopes[i];
                let b = &scopes[j];
                if j != i && a.field_id == b.field_id && a.region == b.region && a.universe == b.universe && a.delay == b.delay {
                    assert(!wf_catalog(fields@, scopes@)) by {
                        assert(same_scope(scopes@[i as int], scopes@[j as int]));
                    }
                    return None;
                }
                j += 1;
            }
            i += 1;
        }
        Some(DataFieldRepository { fields, scopes })
    }

    pub fn scope_count(&self) -> (r: usize)
        ensures
            r == self.scopes_view().len(),
    {
        self.scopes.len()
    }

    pub fn scope(&self, i: usize) -> (r: &FieldScope)
        requires
            i < self.scopes_view().len(),
        ensures
            *r == self.scopes_view()[i as int],
    {
        &self.scopes[i]
    }

    pub fn field_count(&self) -> (r: usize)
        ensures
            r == self.fields_view().len(),
    {
        self.fields.len()
    }

    pub fn field(&self, i: usize) -> (r: &FieldEntry)
        requires
            i < self.fields_view().len(),
        ensures
            *r == self.fields_view()[i as int],
    {
        &self.fields[i]
    }

    fn find_field(&self, id: &String) -> (r: Option<usize>)
        ensures
            match r {
                Some(i) => i < self.fields_view().len() && self.fields_view()[i as int].field_id@ == id@,
                None => !has_field(self.fields_view(), id@),
            },
    {
        let mut i: usize = 0;
        while i < self.fields.len()
            invariant
                i <= self.fields@.len(),
                forall|m: int| 0 <= m < i ==> (#[trigger] self.fields@[m]).field_id@ != id@,
            decreases self.fields@.len() - i,
        {
            if self.fields[i].field_id == *id {
                return Some(i);
            }
            i += 1;
        }
        None
    }

    fn find_scope(&self, id: &String, region: &String, universe: &String, delay: i32) -> (r: bool)
        ensures
            r == exists|i: int|
                0 <= i < self.scopes_view().len() && (#[trigger] self.scopes_view()[i]).field_id@ == id@
                    && self.scopes_view()[i].region@ == region@ && self.scopes_view()[i].universe@
                    == universe@ && self.scopes_view()[i].delay == delay,
    {
        let mut i: usize = 0;
        while i < self.scopes.len()
            invariant
                i <= self.scopes@.len(),
                forall|m: int|
                    0 <= m < i ==> !((#[trigger] self.scopes@[m]).field_id@ == id@ && self.scopes@[m].region@
                        == region@ && self.scopes@[m].universe@ == universe@ && self.scopes@[m].delay == delay),
            decreases self.scopes@.len() - i,
        {
            let s = &self.scopes[i];
            if s.field_id == *id && s.region == *region && s.universe == *universe && s.delay == delay {
                assert(self.scopes_view()[i as int] == self.scopes@[i as int]);
                return true;
            }
            i += 1;
        }
        false
    }

    /// Inserts entries whose field id is new and replaces the master row of
    /// those already known. Returns (inserted, updated).
    pub fn upsert_batch(&mut self, entries: Vec<FieldEntry>) -> (r: (usize, usize))
        requires
            old(self).wf(),
        ensures
            final(self).wf(),
            r.0 + r.1 == entries@.len(),
            final(self).fields_view().len() == old(self).fields_view().len() + r.0,
            final(self).scopes_view() == old(self).scopes_view(),
            forall|k: int| 0 <= k < entries@.len() ==> has_field(final(self).fields_view(), (#[trigger] entries@[k]).field_id@),
            forall|i: int|
                0 <= i < old(self).fields_view().len() && !(exists|k: int|
                    0 <= k < entries@.len() && (#[trigger] entries@[k]).field_id@ == old(self).fields_view()[i].field_id@)
                    ==> (#[trigger] final(self).fields_view()[i]) == old(self).fields_view()[i],
            forall|k: int| 0 <= k < entries@.len() && last_for_id(entries@, k, entries@.len() as int) ==> holds_entry(
                final(self).fields_view(),
                #[trigger] entries@[k],
            ),
    {
        let ghost e0 = entries@;
        let mut entries = entries;
        let n = entries.len();
        let mut ins: usize = 0;
        let mut upd: usize = 0;
        let mut k: usize = 0;
        let ghost f0 = self.fields@;
        while k < n
            invariant
                n == entries@.len(),
                n == e0.len(),
                k <= n,
                ins + upd == k,
                self.fields@.len() == f0.len() + ins,
                self.scopes@ == old(self).scopes@,
                f0 == old(self).fields@,
                wf_catalog(self.fields@, self.scopes@),
                forall|m: int| k <= m < n ==> entries@[m] == e0[m],
                forall|m: int| 0 <= m < k ==> has_field(self.fields@, (#[trigger] e0[m]).field_id@),
                forall|i: int|
                    0 <= i < f0.len() && !(exists|m: int| 0 <= m < k && (#[trigger] e0[m]).field_id@ == f0[i].field_id@)
                        ==> (#[trigger] self.fields@[i]) == f0[i],
                forall|i: int| 0 <= i < f0.len() ==> (#[trigger] self.fields@[i]).field_id@ == f0[i].field_id@,
                forall|m: int| 0 <= m < k && last_for_id(e0, m, k as int) ==> holds_entry(self.fields@, #[trigger] e0[m]),
            decreases n - k,
        {
            let mut e = FieldEntry {
                field_id: String::new(),
                description: String::new(),
                dataset_id: String::new(),
                dataset_name: String::new(),
                category_id: String::new(),
                category_name: String::new(),
                subcategory_id: String::new(),
                subcategory_name: String::new(),
                region: String::new(),
                delay: 0,
                universe: String::new(),
                field_type: String::new(),
            };
            std::mem::swap(&mut entries[k], &mut e);
            assert(e == e0[k as int]);
            let ghost before = self.fields@;
            match self.find_field(&e.field_id) {
                Some(i) => {
                    self.fields.set(i, e);
                    upd += 1;
                    assert(self.fields@[i as int] == e0[k as int]);
                    assert forall|m: int| 0 <= m <= k implies has_field(self.fields@, (#[trigger] e0[m]).field_id@) by {
                        if m < k {
                            let w = choose|w: int| 0 <= w < before.len() && (#[trigger] before[w]).field_id@ == e0[m].field_id@;
                            assert(self.fields@[w].field_id@ == before[w].field_id@);
                        } else {
                            assert(self.fields@[i as int].field_id@ == e0[m].field_id@);
                        }
                    }
                },
                None => {
                    self.fields.push(e);
                    ins += 1;
                    assert forall|m: int| 0 <= m <= k implies has_field(self.fields@, (#[trigger] e0[m]).field_id@) by {
                        if m < k {
                            let w = choose|w: int| 0 <= w < before.len() && (#[trigger] before[w]).field_id@ == e0[m].field_id@;
                            assert(self.fields@[w] == before[w]);
                        } else {
                            assert(self.fields@[before.len() as int].field_id@ == e0[m].field_id@);
                        }
                    }
                },
            }
            assert forall|m: int| 0 <= m < k + 1 && last_for_id(e0, m, k + 1) implies holds_entry(self.fields@, #[trigger] e0[m]) by {
                if m == k {
                    if self.fields@.len() > before.len() {
                        assert(self.fields@[before.len() as int] == e0[m]);
                    } else {
                        let i = choose|i: int| 0 <= i < self.fields@.len() && self.fields@[i] == e0[k as int];
                        assert(self.fields@[i] == e0[m]);
                    }
                } else {
                    assert(e0[k as int].field_id@ != e0[m].field_id@);
                    assert(last_for_id(e0, m, k as int));
                    let w = choose|w: int| 0 <= w < before.len() && before[w] == e0[m];
                    assert(self.fields@[w] == before[w]);
                }
            }
            assert forall|i: int|
                0 <= i < f0.len() && !(exists|m: int| 0 <= m < k + 1 && (#[trigger] e0[m]).field_id@ == f0[i].field_id@)
                    implies (#[trigger] self.fields@[i]) == f0[i] by {
                assert(e0[k as int].field_id@ != f0[i].field_id@);
                assert(!(exists|m: int| 0 <= m < k && (#[trigger] e0[m]).field_id@ == f0[i].field_id@));
            }
            k += 1;
        }
        (ins, upd)
    }

    /// Adds a scope row for each entry whose (field, region, universe, delay)
    /// is not yet known, not flagged as event. Returns how many were added.
    pub fn upsert_scopes(&mut self, entries: &Vec<FieldEntry>) -> (r: usize)
        requires
            old(self).wf(),
        ensures
            final(self).wf(),
            final(self).fields_view() == old(self).fields_view(),
            final(self).scopes_view().len() == old(self).scopes_view().len() + r,
            final(self).scopes_view().subrange(0, old(self).scopes_view().len() as int) == old(self).scopes_view(),
            forall|j: int|
                old(self).scopes_view().len() <= j < final(self).scopes_view().len() ==> !(#[trigger] final(self).scopes_view()[j]).is_event,
            forall|k: int| 0 <= k < entries@.len() ==> has_scope_of(final(self).scopes_view(), #[trigger] entries@[k]),
            forall|j: int|
                old(self).scopes_view().len() <= j < final(self).scopes_view().len() ==> from_entries(
                    #[trigger] final(self).scopes_view()[j],
                    entries@,
                ),
    {
        let n = entries.len();
        let mut added: usize = 0;
        let mut k: usize = 0;
        let ghost s0 = self.scopes@;
        while k < n
            invariant
                n == entries@.len(),
                k <= n,
                s0 == old(self).scopes@,
                self.fields@ == old(self).fields@,
                self.scopes@.len() == s0.len() + added,
                added <= k,
                self.scopes@.subrange(0, s0.len() as int) == s0,
                wf_catalog(self.fields@, self.scopes@),
                forall|j: int| s0.len() <= j < self.scopes@.len() ==> !(#[trigger] self.scopes@[j]).is_event,
                forall|m: int| 0 <= m < k ==> has_scope_of(self.scopes@, #[trigger] entries@[m]),
                forall|j: int| s0.len() <= j < self.scopes@.len() ==> from_entries(#[trigger] self.scopes@[j], entries@),
            decreases n - k,
        {
            let e = &entries[k];
            let ghost before = self.scopes@;
            let ghost sv = self.scopes_view();
            assert(sv == before);
            if !self.find_scope(&e.field_id, &e.region, &e.universe, e.delay) {
                let sc = FieldScope {
                    field_id: e.field_id.clone(),
                    region: e.region.clone(),
                    universe: e.universe.clone(),
                    delay: e.delay,
                    is_event: false,
                };
                self.scopes.push(sc);
                added += 1;
                assert(wf_catalog(self.fields@, self.scopes@)) by {
                    assert forall|a: int, b: int|
                        0 <= a < self.scopes@.len() && 0 <= b < self.scopes@.len() && a != b implies !same_scope(
                            #[trigger] self.scopes@[a],
                            #[trigger] self.scopes@[b],
                        ) by {
                        if a < before.len() && b < before.len() {
                            assert(self.scopes@[a] == before[a]);
                            assert(self.scopes@[b] == before[b]);
                        } else if a < before.len() {
                            assert(self.scopes@[a] == before[a]);
                            assert(!(sv[a].field_id@ == e.field_id@ && sv[a].region@ == e.region@
                                && sv[a].universe@ == e.universe@ && sv[a].delay == e.delay));
                        } else {
                            assert(self.scopes@[b] == before[b]);
                            assert(!(sv[b].field_id@ == e.field_id@ && sv[b].region@ == e.region@
                                && sv[b].universe@ == e.universe@ && sv[b].delay == e.delay));
                        }
                    }
                }
                assert(self.scopes@.subrange(0, s0.len() as int) =~= before.subrange(0, s0.len() as int));
                assert forall|m: int| 0 <= m <= k implies has_scope_of(self.scopes@, #[trigger] entries@[m]) by {
                    if m < k {
                        let w = choose|w: int|
                            0 <= w < before.len() && (#[trigger] before[w]).field_id@ == entries@[m].field_id@
                                && before[w].region@ == entries@[m].region@ && before[w].universe@
                                == entries@[m].universe@ && before[w].delay == entries@[m].delay;
                        assert(self.scopes@[w] == before[w]);
                    } else {
                        assert(self.scopes@[before.len() as int] == sc);
                    }
                }
                assert forall|j: int| s0.len() <= j < self.scopes@.len() implies from_entries(#[trigger] self.scopes@[j], entries@) by {
                    if j < before.len() {
                        assert(self.scopes@[j] == before[j]);
                    } else {
                        assert(entry_scope(self.scopes@[j], entries@[k as int]));
                    }
                }
            }
            k += 1;
        }
        added
    }

    /// Flags as event scopes the scopes of `field_id` in `region` and
    /// `universe` (and `delay` when given). Returns how many matched.
    pub fn mark_field_event(&mut self, field_id: &str, region: &str, universe: &str, delay: Option<i32>) -> (r: usize)
        requires
            old(self).wf(),
        ensures
            final(self).wf(),
            final(self).fields_view() == old(self).fields_view(),
            final(self).scopes_view().len() == old(self).scopes_view().len(),
            forall|i: int|
                0 <= i < old(self).scopes_view().len() ==> (#[trigger] final(self).scopes_view()[i]) == if old(
                    self,
                ).scopes_view()[i].field_id@ == field_id@ && scope_matches(
                    old(self).scopes_view()[i],
                    Some(region@),
                    Some(universe@),
                    delay,
                ) {
                    FieldScope { is_event: true, ..old(self).scopes_view()[i] }
                } else {
                    old(self).scopes_view()[i]
                },
    {
        let id = field_id.to_string();
        let r = Some(region.to_string());
        let u = Some(universe.to_string());
        let n = self.scopes.len();
        let mut count: usize = 0;
        let mut i: usize = 0;
        while i < n
            invariant
                n == self.scopes@.len(),
                n == old(self).scopes@.len(),
                i <= n,
                count <= i,
                id@ == field_id@,
                opt_text_view(r) == Some(region@),
                opt_text_view(u) == Some(universe@),
                self.fields@ == old(self).fields@,
                forall|k: int|
                    0 <= k < i ==> (#[trigger] self.scopes@[k]) == if old(self).scopes@[k].field_id@ == field_id@
                        && scope_matches(old(self).scopes@[k], Some(region@), Some(universe@), delay) {
                        FieldScope { is_event: true, ..old(self).scopes@[k] }
                    } else {
                        old(self).scopes@[k]
                    },
                forall|k: int| i <= k < n ==> (#[trigger] self.scopes@[k]) == old(self).scopes@[k],
            decreases n - i,
        {
            if self.scopes[i].field_id == id && scope_matches_exec(&self.scopes[i], &r, &u, delay) {
                self.scopes[i].is_event = true;
                count += 1;
            }
            i += 1;
        }
        assert(wf_catalog(self.fields@, self.scopes@)) by {
            assert forall|a: int, b: int|
                0 <= a < self.scopes@.len() && 0 <= b < self.scopes@.len() && a != b implies !same_scope(
                    #[trigger] self.scopes@[a],
                    #[trigger] self.scopes@[b],
                ) by {
                assert(!same_scope(old(self).scopes@[a], old(self).scopes@[b]));
            }
        }
        count
    }

    /// Whether field `field_id` has an event-flagged scope in the filter.
    pub fn is_event_scope(&self, field_id: &str, region: Option<&str>, universe: Option<&str>, delay: Option<i32>) -> (r: bool)
        ensures
            r == is_event_spec(self.scopes_view(), field_id@, opt_str_view(region), opt_str_view(universe), delay),
    {
        let id = field_id.to_string();
        let r = opt_string(region);
        let u = opt_string(universe);
        let mut i: usize = 0;
        while i < self.scopes.len()
            invariant
                i <= self.scopes@.len(),
                id@ == field_id@,
                opt_text_view(r) == opt_str_view(region),
                opt_text_view(u) == opt_str_view(universe),
                forall|m: int|
                    0 <= m < i ==> !((#[trigger] self.scopes@[m]).field_id@ == field_id@ && self.scopes@[m].is_event
                        && scope_matches(self.scopes@[m], opt_str_view(region), opt_str_view(universe), delay)),
            decreases self.scopes@.len() - i,
        {
            let s = &self.scopes[i];
            if s.field_id == id && s.is_event && scope_matches_exec(s, &r, &u, delay) {
                assert(self.scopes_view()[i as int] == self.scopes@[i as int]);
                return true;
            }
            i += 1;
        }
        false
    }

    /// The fields that have a scope in the filter, each with how many, in
    /// the order of their first such scope.
    pub fn field_frequencies(&self, region: Option<&str>, universe: Option<&str>, delay: Option<i32>) -> (r: Vec<FieldFreqRow>)
        ensures
            forall|a: int, b: int|
                0 <= a < r@.len() && 0 <= b < r@.len() && a != b ==> (#[trigger] r@[a]).field_id@ != (#[trigger] r@[b]).field_id@,
            forall|a: int|
                0 <= a < r@.len() ==> (#[trigger] r@[a]).freq == freq_of(
                    self.scopes_view(),
                    r@[a].field_id@,
                    opt_str_view(region),
                    opt_str_view(universe),
                    delay,
                ) && r@[a].freq > 0,
            forall|i: int|
                0 <= i < self.scopes_view().len() && scope_matches(
                    self.scopes_view()[i],
                    opt_str_view(region),
                    opt_str_view(universe),
                    delay,
                ) ==> exists|a: int| 0 <= a < r@.len() && (#[trigger] r@[a]).field_id@ == (#[trigger] self.scopes_view()[i]).field_id@,
    {
        let ghost ro = opt_str_view(region);
        let ghost uo = opt_str_view(universe);
        let r = opt_string(region);
        let u = opt_string(universe);
        let n = self.scopes.len();
        let mut out: Vec<FieldFreqRow> = Vec::new();
        let mut i: usize = 0;
        while i < n
            invariant
                n == self.scopes@.len(),
                i <= n,
                opt_text_view(r) == ro,
                opt_text_view(u) == uo,
                forall|a: int, b: int|
                    0 <= a < out@.len() && 0 <= b < out@.len() && a != b ==> (#[trigger] out@[a]).field_id@
                        != (#[trigger] out@[b]).field_id@,
                forall|a: int|
                    0 <= a < out@.len() ==> (#[trigger] out@[a]).freq == freq_of(
                        self.scopes@.subrange(0, i as int),
                        out@[a].field_id@,
                        ro,
                        uo,
                        delay,
                    ) && out@[a].freq > 0 && out@[a].freq <= i,
                forall|id: Seq<char>|
                    freq_of(self.scopes@.subrange(0, i as int), id, ro, uo, delay) > 0 ==> exists|a: int|
                        0 <= a < out@.len() && (#[trigger] out@[a]).field_id@ == id,
            decreases n - i,
        {
            let ghost pre = self.scopes@.subrange(0, i + 1);
            assert(pre.drop_last() =~= self.scopes@.subrange(0, i as int));
            let s = &self.scopes[i];
            if scope_matches_exec(s, &r, &u, delay) {
                let mut j: usize = 0;
                while j < out.len() && out[j].field_id != s.field_id
                    invariant
                        j <= out@.len(),
                        forall|m: int| 0 <= m < j ==> (#[trigger] out@[m]).field_id@ != s.field_id@,
                    decreases out@.len() - j,
                {
                    j += 1;
                }
                let found = j < out.len();
                if found {
                    let f = out[j].freq;
                    let id = out[j].field_id.clone();
                    let ghost before = out@;
                    out.set(j, FieldFreqRow { field_id: id, freq: f + 1 });
                    assert forall|a: int| 0 <= a < out@.len() implies (#[trigger] out@[a]).freq == freq_of(pre, out@[a].field_id@, ro, uo, delay)
                        && out@[a].freq > 0 && out@[a].freq <= i + 1 by {
                        assert(out@[a].field_id@ == before[a].field_id@);
                    }
                    assert forall|id2: Seq<char>| freq_of(pre, id2, ro, uo, delay) > 0 implies exists|a: int|
                        0 <= a < out@.len() && (#[trigger] out@[a]).field_id@ == id2 by {
                        if freq_of(self.scopes@.subrange(0, i as int), id2, ro, uo, delay) > 0 {
                            let a = choose|a: int| 0 <= a < before.len() && (#[trigger] before[a]).field_id@ == id2;
                            assert(out@[a].field_id@ == id2);
                        } else {
                            assert(out@[j as int].field_id@ == id2);
                        }
                    }
                } else {
                    proof {
                        assert(freq_of(self.scopes@.subrange(0, i as int), s.field_id@, ro, uo, delay) == 0) by {
                            if freq_of(self.scopes@.subrange(0, i as int), s.field_id@, ro, uo, delay) > 0 {
                                let a = choose|a: int| 0 <= a < out@.len() && (#[trigger] out@[a]).field_id@ == s.field_id@;
                                assert(out@[a].field_id@ != s.field_id@);
                            }
                        }
                    }
                    let ghost before = out@;
                    out.push(FieldFreqRow { field_id: s.field_id.clone(), freq: 1 });
                    assert forall|a: int| 0 <= a < out@.len() implies (#[trigger] out@[a]).freq == freq_of(pre, out@[a].field_id@, ro, uo, delay)
                        && out@[a].freq > 0 && out@[a].freq <= i + 1 by {
                        if a < before.len() {
                            assert(out@[a] == before[a]);
                        }
                    }
                    assert forall|id2: Seq<char>| freq_of(pre, id2, ro, uo, delay) > 0 implies exists|a: int|
                        0 <= a < out@.len() && (#[trigger] out@[a]).field_id@ == id2 by {
                        if freq_of(self.scopes@.subrange(0, i as int), id2, ro, uo, delay) > 0 {
                            let a = choose|a: int| 0 <= a < before.len() && (#[trigger] before[a]).field_id@ == id2;
                            assert(out@[a] == before[a]);
                        } else {
                            assert(out@[before.len() as int].field_id@ == id2);
                        }
                    }
                }
            } else {
                assert forall|id2: Seq<char>| freq_of(pre, id2, ro, uo, delay) == freq_of(self.scopes@.subrange(0, i as int), id2, ro, uo, delay) by {}
            }
            i += 1;
        }
        assert(self.scopes@.subrange(0, n as int) =~= self.scopes@);
        assert forall|i: int|
            0 <= i < self.scopes_view().len() && scope_matches(self.scopes_view()[i], ro, uo, delay) implies exists|a: int|
                0 <= a < out@.len() && (#[trigger] out@[a]).field_id@ == (#[trigger] self.scopes_view()[i]).field_id@ by {
            lemma_freq_positive(self.scopes@, self.scopes@[i].field_id@, ro, uo, delay);
        }
        out
    }
}

/// Index `a` comes before index `b` when sampling: a larger key, or an equal
/// key and a smaller index.
pub open spec fn beats(keys: Seq<u64>, a: int, b: int) -> bool {
    keys[a] > keys[b] || (keys[a] == keys[b] && a < b)
}

pub open spec fn min_usize(a: usize, b: usize) -> usize {
    if a < b { a } else { b }
}

/// `idx` lists the positions of the `n` largest keys (all of them when
/// fewer), largest first, ties to the earlier position.
pub open spec fn top_selection(keys: Seq<u64>, idx: Seq<usize>, n: usize) -> bool {
    &&& idx.len() == min_usize(n, keys.len() as usize)
    &&& forall|t: int| 0 <= t < idx.len() ==> (#[trigger] idx[t]) < keys.len()
    &&& forall|t1: int, t2: int| 0 <= t1 < t2 < idx.len() ==> beats(keys, #[trigger] idx[t1] as int, #[trigger] idx[t2] as int)
    &&& forall|t: int, j: int|
        0 <= t < idx.len() && 0 <= j < keys.len() && !idx.contains(j as usize) ==> #[trigger] beats(keys, idx[t] as int, j)
}

/// The positions of the `n` largest keys (all of them when fewer), largest
/// first, ties to the earlier position.
pub fn top_indices(keys: &Vec<u64>, n: usize) -> (r: Vec<usize>)
    ensures
        r@.len() == min_usize(n, keys@.len() as usize),
        forall|t: int| 0 <= t < r@.len() ==> (#[trigger] r@[t]) < keys@.len(),
        forall|t1: int, t2: int| 0 <= t1 < t2 < r@.len() ==> beats(keys@, #[trigger] r@[t1] as int, #[trigger] r@[t2] as int),
        forall|t: int, j: int|
            0 <= t < r@.len() && 0 <= j < keys@.len() && !r@.contains(j as usize) ==> #[trigger] beats(keys@, r@[t] as int, j),
{
    let len = keys.len();
    let want = if n < len { n } else { len };
    let mut taken: Vec<bool> = Vec::new();
    let mut z: usize = 0;
    while z < len
        invariant
            z <= len == keys@.len(),
            taken@.len() == z,
            forall|m: int| 0 <= m < z ==> !(#[trigger] taken@[m]),
        decreases len - z,
    {
        taken.push(false);
        z += 1;
    }
    let mut out: Vec<usize> = Vec::new();
    while out.len() < want
        invariant
            len == keys@.len(),
            want <= len,
            taken@.len() == len,
            out@.len() <= want,
            forall|t: int| 0 <= t < out@.len() ==> (#[trigger] out@[t]) < len,
            forall|j: int| 0 <= j < len ==> (#[trigger] taken@[j] <==> out@.contains(j as usize)),
            forall|t1: int, t2: int| 0 <= t1 < t2 < out@.len() ==> beats(keys@, #[trigger] out@[t1] as int, #[trigger] out@[t2] as int),
            forall|t: int, j: int|
                0 <= t < out@.len() && 0 <= j < len && !out@.contains(j as usize) ==> #[trigger] beats(keys@, out@[t] as int, j),
        decreases want - out@.len(),
    {
        let mut best: usize = len;
        let mut j: usize = 0;
        while j < len
            invariant
                len == keys@.len(),
                taken@.len() == len,
                j <= len,
                best == len || (best < j && !taken@[best as int]),
                best == len ==> forall|m: int| 0 <= m < j ==> #[trigger] taken@[m],
                best < len ==> forall|m: int| 0 <= m < j && !(#[trigger] taken@[m]) && m != best ==> beats(keys@, best as int, m),
            decreases len - j,
        {
            if !taken[j] {
                if best == len || keys[j] > keys[best] {
                    best = j;
                }
            }
            j += 1;
        }
        proof {
            if best == len {
                assert(out@.len() < len);
                assert forall|m: usize| (m as int) < len implies #[trigger] out@.contains(m) by {
                    assert(taken@[m as int]);
                }
                lemma_cover_len(out@, len as int);
            }
        }
        let ghost before = out@;
        out.push(best);
        taken.set(best, true);
        assert forall|jj: int| 0 <= jj < len implies (#[trigger] taken@[jj] <==> out@.contains(jj as usize)) by {
            if jj == best {
                assert(out@[before.len() as int] == best);
            } else {
                if before.contains(jj as usize) {
                    let w = choose|w: int| 0 <= w < before.len() && before[w] == jj as usize;
                    assert(out@[w] == jj as usize);
                }
                if out@.contains(jj as usize) {
                    let w = choose|w: int| 0 <= w < out@.len() && out@[w] == jj as usize;
                    assert(w < before.len());
                    assert(before[w] == jj as usize);
                }
            }
        }
        assert forall|t: int, jj: int|
            0 <= t < out@.len() && 0 <= jj < len && !out@.contains(jj as usize) implies #[trigger] beats(keys@, out@[t] as int, jj) by {
            assert(!before.contains(jj as usize)) by {
                if before.contains(jj as usize) {
                    let w = choose|w: int| 0 <= w < before.len() && before[w] == jj as usize;
                    assert(out@[w] == jj as usize);
                }
            }
            if t < before.len() {
                assert(out@[t] == before[t]);
            } else {
                assert(!taken@[jj]);
            }
        }
        assert forall|t1: int, t2: int| 0 <= t1 < t2 < out@.len() implies beats(keys@, #[trigger] out@[t1] as int, #[trigger] out@[t2] as int) by {
            if t2 == before.len() {
                assert(!before.contains(best)) by {
                    if before.contains(best) {
                        let w = choose|w: int| 0 <= w < before.len() && before[w] == best;
                    }
                }
                assert(out@[t1] == before[t1]);
            } else {
                assert(out@[t1] == before[t1]);
                assert(out@[t2] == before[t2]);
            }
        }
    }
    out
}

/// A sequence that holds every index below `n` has at least `n` elements.
proof fn lemma_cover_len(s: Seq<usize>, n: int)
    requires
        forall|m: usize| (m as int) < n ==> #[trigger] s.contains(m),
        0 <= n <= usize::MAX + 1,
    ensures
        s.len() >= n,
{
    assert(s.to_set().len() <= s.len()) by {
        s.lemma_cardinality_of_set();
    }
    let full = Set::new(|x: usize| (x as int) < n);
    assert(full.subset_of(s.to_set())) by {
        assert forall|x: usize| full.contains(x) implies s.to_set().contains(x) by {
            assert(s.contains(x));
        }
    }
    assert(full =~= Set::new(|x: usize| 0 <= x < n));
    vstd::set_lib::lemma_int_range(0, n);
    lemma_usize_range_len(n);
    vstd::set_lib::lemma_len_subset(full, s.to_set());
}

proof fn lemma_usize_range_len(n: int)
    requires
        n >= 0,
        n <= usize::MAX + 1,
    ensures
        Set::new(|x: usize| (x as int) < n).finite(),
        Set::new(|x: usize| (x as int) < n).len() == n,
    decreases n,
{
    if n == 0 {
        assert(Set::new(|x: usize| (x as int) < n) =~= Set::<usize>::empty());
    } else {
        lemma_usize_range_len(n - 1);
        let a = Set::new(|x: usize| (x as int) < n - 1);
        assert(Set::new(|x: usize| (x as int) < n) =~= a.insert((n - 1) as usize));
    }
}

/// The ids of the rows at the `n` largest keys, largest first. `keys[i]` is
/// the sampling key drawn for `rows[i]`.
pub fn sample_by_keys(rows: &Vec<FieldFreqRow>, keys: &Vec<u64>, n: usize) -> (r: Vec<String>)
    requires
        rows@.len() == keys@.len(),
    ensures
        r@.len() == min_usize(n, keys@.len() as usize),
        exists|idx: Seq<usize>|
            #[trigger] top_selection(keys@, idx, n) && idx.len() == r@.len() && forall|t: int|
                0 <= t < idx.len() ==> (#[trigger] r@[t])@ == rows@[idx[t] as int].field_id@,
{
    let idx = top_indices(keys, n);
    let mut out: Vec<String> = Vec::new();
    let mut t: usize = 0;
    while t < idx.len()
        invariant
            t <= idx@.len(),
            rows@.len() == keys@.len(),
            forall|m: int| 0 <= m < idx@.len() ==> (#[trigger] idx@[m]) < keys@.len(),
            out@.len() == t,
            forall|m: int| 0 <= m < t ==> (#[trigger] out@[m])@ == rows@[idx@[m] as int].field_id@,
        decreases idx@.len() - t,
    {
        out.push(rows[idx[t]].field_id.clone());
        t += 1;
    }
    assert(top_selection(keys@, idx@, n));
    out
}

/// The ids of `ids` for which `flag` holds (or fails, when `want` is false), in order.
pub open spec fn part_ids(ids: Seq<Seq<char>>, ss: Seq<FieldScope>, r: Option<Seq<char>>, u: Option<Seq<char>>, d: Option<i32>, want: bool) -> Seq<Seq<char>>
    decreases ids.len(),
{
    if ids.len() == 0 {
        Seq::empty()
    } else {
        let p = part_ids(ids.drop_last(), ss, r, u, d, want);
        if is_event_spec(ss, ids.last(), r, u, d) == want {
            p.push(ids.last())
        } else {
            p
        }
    }
}

/// The known field ids among the tokens `ts`, each once, in order of first appearance.
pub open spec fn used_fields(ts: Seq<Seq<char>>, fs: Seq<FieldEntry>) -> Seq<Seq<char>>
    decreases ts.len(),
{
    if ts.len() == 0 {
        Seq::empty()
    } else {
        let p = used_fields(ts.drop_last(), fs);
        if has_field(fs, ts.last()) && !p.contains(ts.last()) {
            p.push(ts.last())
        } else {
            p
        }
    }
}

/// The expression reads an event field of the scope through an operator
/// that cannot take one.
pub open spec fn event_op_conflict(
    fs: Seq<FieldEntry>,
    ss: Seq<FieldScope>,
    expr: Seq<char>,
    r: Option<Seq<char>>,
    u: Option<Seq<char>>,
    d: Option<i32>,
    incompatible: Seq<Seq<char>>,
) -> bool {
    (exists|k: int| 0 <= k < used_fields(tokens(expr), fs).len() && is_event_spec(ss, #[trigger] used_fields(tokens(expr), fs)[k], r, u, d))
        && (exists|k: int| 0 <= k < operator_tokens(expr).len() && incompatible.contains(#[trigger] operator_tokens(expr)[k]))
}

impl DataFieldRepository {
    /// Splits sampled ids into those without and those with an event-flagged
    /// scope in the filter, keeping their order.
    pub fn split_by_event(&self, ids: &Vec<String>, region: Option<&str>, universe: Option<&str>, delay: Option<i32>) -> (r: (Vec<String>, Vec<String>))
        ensures
            string_views(r.0@) == part_ids(string_views(ids@), self.scopes_view(), opt_str_view(region), opt_str_view(universe), delay, false),
            string_views(r.1@) == part_ids(string_views(ids@), self.scopes_view(), opt_str_view(region), opt_str_view(universe), delay, true),
    {
        let ghost iv = string_views(ids@);
        let mut normal: Vec<String> = Vec::new();
        let mut event: Vec<String> = Vec::new();
        let mut i: usize = 0;
        while i < ids.len()
            invariant
                i <= ids@.len(),
                iv == string_views(ids@),
                string_views(normal@) == part_ids(iv.subrange(0, i as int), self.scopes_view(), opt_str_view(region), opt_str_view(universe), delay, false),
                string_views(event@) == part_ids(iv.subrange(0, i as int), self.scopes_view(), opt_str_view(region), opt_str_view(universe), delay, true),
            decreases ids@.len() - i,
        {
            assert(iv.subrange(0, i + 1).drop_last() =~= iv.subrange(0, i as int));
            assert(iv.subrange(0, i + 1).last() == ids@[i as int]@);
            let id = ids[i].clone();
            if self.is_event_scope(id.as_str(), region, universe, delay) {
                let ghost before = event@;
                event.push(id);
                assert(string_views(event@) =~= string_views(before).push(ids@[i as int]@));
            } else {
                let ghost before = normal@;
                normal.push(id);
                assert(string_views(normal@) =~= string_views(before).push(ids@[i as int]@));
            }
            i += 1;
        }
        assert(iv.subrange(0, ids@.len() as int) =~= iv);
        (normal, event)
    }

    /// The known field ids that `expression` mentions, each once, in order.
    pub fn extract_used_fields(&self, expression: &str) -> (r: Vec<String>)
        ensures
            string_views(r@) == used_fields(tokens(expression@), self.fields_view()),
    {
        let ts = extract_tokens(expression);
        let ghost tv = string_views(ts@);
        let mut out: Vec<String> = Vec::new();
        let mut i: usize = 0;
        while i < ts.len()
            invariant
                i <= ts@.len(),
                tv == string_views(ts@),
                tv == tokens(expression@),
                string_views(out@) == used_fields(tv.subrange(0, i as int), self.fields_view()),
            decreases ts@.len() - i,
        {
            assert(tv.subrange(0, i + 1).drop_last() =~= tv.subrange(0, i as int));
            assert(tv.subrange(0, i + 1).last() == ts@[i as int]@);
            let t = &ts[i];
            let known = match self.find_field(t) {
                Some(_) => true,
                None => false,
            };
            if known && !contains_text(&out, t) {
                let ghost before = out@;
                out.push(t.clone());
                assert(string_views(out@) =~= string_views(before).push(t@));
            }
            i += 1;
        }
        assert(tv.subrange(0, ts@.len() as int) =~= tv);
        out
    }

    /// Refuses an expression that reads an event field of the scope through
    /// one of the `incompatible` operators.
    pub fn validate_event_operator_compatibility(
        &self,
        expression: &str,
        region: Option<&str>,
        universe: Option<&str>,
        delay: Option<i32>,
        incompatible: &Vec<String>,
    ) -> (r: Result<(), EventOpValidationErr>)
        ensures
            r is Err <==> event_op_conflict(
                self.fields_view(),
                self.scopes_view(),
                expression@,
                opt_str_view(region),
                opt_str_view(universe),
                delay,
                string_views(incompatible@),
            ),
    {
        let fields = self.extract_used_fields(expression);
        let ghost fv = string_views(fields@);
        let mut has_event = false;
        let mut i: usize = 0;
        while i < fields.len() && !has_event
            invariant
                i <= fields@.len(),
                fv == string_views(fields@),
                fv == used_fields(tokens(expression@), self.fields_view()),
                has_event ==> i < fields@.len() && is_event_spec(self.scopes_view(), fv[i as int], opt_str_view(region), opt_str_view(universe), delay),
                !has_event ==> forall|k: int| 0 <= k < i ==> !is_event_spec(self.scopes_view(), #[trigger] fv[k], opt_str_view(region), opt_str_view(universe), delay),
            decreases fields@.len() - i + if has_event { 0int } else { 1int },
        {
            assert(fv[i as int] == fields@[i as int]@);
            if self.is_event_scope(fields[i].as_str(), region, universe, delay) {
                has_event = true;
            } else {
                i += 1;
            }
        }
        if !has_event {
            assert(!(exists|k: int| 0 <= k < fv.len() && is_event_spec(self.scopes_view(), #[trigger] fv[k], opt_str_view(region), opt_str_view(universe), delay)));
            return Ok(());
        }
        let ops = extract_operators(expression);
        let ghost ov = string_views(ops@);
        let mut j: usize = 0;
        while j < ops.len()
            invariant
                j <= ops@.len(),
                ov == string_views(ops@),
                ov == operator_tokens(expression@),
                fv == used_fields(tokens(expression@), self.fields_view()),
                0 <= i < fv.len() && is_event_spec(self.scopes_view(), fv[i as int], opt_str_view(region), opt_str_view(universe), delay),
                forall|k: int| 0 <= k < j ==> !string_views(incompatible@).contains(#[trigger] ov[k]),
            decreases ops@.len() - j,
        {
            assert(ov[j as int] == ops@[j as int]@);
            if contains_text(incompatible, &ops[j]) {
                assert(0 <= i < fv.len() && is_event_spec(self.scopes_view(), fv[i as int], opt_str_view(region), opt_str_view(universe), delay));
                assert(string_views(incompatible@).contains(ov[j as int]));
                return Err(EventOpValidationErr::Incompatible);
            }
            j += 1;
        }
        assert(!(exists|k: int| 0 <= k < ov.len() && string_views(incompatible@).contains(#[trigger] ov[k])));
        Ok(())
    }
}

pub open spec fn in_group(s: FieldScope, r: Seq<char>, u: Seq<char>, d: i32) -> bool {
    s.region@ == r && s.universe@ == u && s.delay == d
}

/// Number of scopes of `ss` in the (region, universe, delay) group; each is
/// a distinct field, since scopes are unique.
pub open spec fn group_count(ss: Seq<FieldScope>, r: Seq<char>, u: Seq<char>, d: i32) -> nat
    decreases ss.len(),
{
    if ss.len() == 0 {
        0
    } else {
        group_count(ss.drop_last(), r, u, d) + if in_group(ss.last(), r, u, d) {
            1nat
        } else {
            0nat
        }
    }
}

proof fn lemma_group_positive(ss: Seq<FieldScope>, i: int)
    requires
        0 <= i < ss.len(),
    ensures
        group_count(ss, ss[i].region@, ss[i].universe@, ss[i].delay) > 0,
    decreases ss.len(),
{
    if i < ss.len() - 1 {
        assert(ss.drop_last()[i] == ss[i]);
        lemma_group_positive(ss.drop_last(), i);
    }
}

impl DataFieldRepository {
    /// One row per (region, universe, delay) that has scopes, with how many
    /// fields it has, in order of first appearance.
    pub fn stats_by_region_universe_delay(&self) -> (r: Vec<FieldStatsRow>)
        ensures
            forall|a: int, b: int|
                0 <= a < r@.len() && 0 <= b < r@.len() && a != b ==> !((#[trigger] r@[a]).region@ == (#[trigger] r@[b]).region@
                    && r@[a].universe@ == r@[b].universe@ && r@[a].delay == r@[b].delay),
            forall|a: int|
                0 <= a < r@.len() ==> (#[trigger] r@[a]).count == group_count(self.scopes_view(), r@[a].region@, r@[a].universe@, r@[a].delay)
                    && r@[a].count > 0,
            forall|i: int|
                0 <= i < self.scopes_view().len() ==> exists|a: int|
                    0 <= a < r@.len() && in_group(#[trigger] self.scopes_view()[i], (#[trigger] r@[a]).region@, r@[a].universe@, r@[a].delay),
    {
        let n = self.scopes.len();
        let mut out: Vec<FieldStatsRow> = Vec::new();
        let mut i: usize = 0;
        while i < n
            invariant
                n == self.scopes@.len(),
                i <= n,
                forall|a: int, b: int|
                    0 <= a < out@.len() && 0 <= b < out@.len() && a != b ==> !((#[trigger] out@[a]).region@ == (#[trigger] out@[b]).region@
                        && out@[a].universe@ == out@[b].universe@ && out@[a].delay == out@[b].delay),
                forall|a: int|
                    0 <= a < out@.len() ==> (#[trigger] out@[a]).count == group_count(self.scopes@.subrange(0, i as int), out@[a].region@, out@[a].universe@, out@[a].delay)
                        && out@[a].count > 0 && out@[a].count <= i,
                forall|r: Seq<char>, u: Seq<char>, d: i32|
                    group_count(self.scopes@.subrange(0, i as int), r, u, d) > 0 ==> exists|a: int|
                        0 <= a < out@.len() && (#[trigger] out@[a]).region@ == r && out@[a].universe@ == u && out@[a].delay == d,
            decreases n - i,
        {
            let ghost pre = self.scopes@.subrange(0, i + 1);
            assert(pre.drop_last() =~= self.scopes@.subrange(0, i as int));
            let s = &self.scopes[i];
            let mut j: usize = 0;
            while j < out.len() && !(out[j].region == s.region && out[j].universe == s.universe && out[j].delay == s.delay)
                invariant
                    j <= out@.len(),
                    forall|m: int| 0 <= m < j ==> !in_group(*s, (#[trigger] out@[m]).region@, out@[m].universe@, out@[m].delay),
                decreases out@.len() - j,
            {
                j += 1;
            }
            if j < out.len() {
                let c = out[j].count;
                let row = FieldStatsRow {
                    region: out[j].region.clone(),
                    universe: out[j].universe.clone(),
                    delay: out[j].delay,
                    count: c + 1,
                };
                let ghost before = out@;
                out.set(j, row);
                assert forall|a: int| 0 <= a < out@.len() implies (#[trigger] out@[a]).count == group_count(pre, out@[a].region@, out@[a].universe@, out@[a].delay)
                    && out@[a].count > 0 && out@[a].count <= i + 1 by {
                    assert(out@[a].region@ == before[a].region@);
                }
                assert forall|r: Seq<char>, u: Seq<char>, d: i32| group_count(pre, r, u, d) > 0 implies exists|a: int|
                    0 <= a < out@.len() && (#[trigger] out@[a]).region@ == r && out@[a].universe@ == u && out@[a].delay == d by {
                    if group_count(self.scopes@.subrange(0, i as int), r, u, d) > 0 {
                        let a = choose|a: int| 0 <= a < before.len() && (#[trigger] before[a]).region@ == r && before[a].universe@ == u && before[a].delay == d;
                        assert(out@[a].region@ == r);
                    } else {
                        assert(out@[j as int].region@ == r);
                    }
                }
            } else {
                proof {
                    assert(group_count(self.scopes@.subrange(0, i as int), s.region@, s.universe@, s.delay) == 0) by {
                        if group_count(self.scopes@.subrange(0, i as int), s.region@, s.universe@, s.delay) > 0 {
                            let a = choose|a: int| 0 <= a < out@.len() && (#[trigger] out@[a]).region@ == s.region@ && out@[a].universe@ == s.universe@ && out@[a].delay == s.delay;
                            assert(!in_group(*s, out@[a].region@, out@[a].universe@, out@[a].delay));
                        }
                    }
                }
                let ghost before = out@;
                out.push(FieldStatsRow { region: s.region.clone(), universe: s.universe.clone(), delay: s.delay, count: 1 });
                assert forall|a: int| 0 <= a < out@.len() implies (#[trigger] out@[a]).count == group_count(pre, out@[a].region@, out@[a].universe@, out@[a].delay)
                    && out@[a].count > 0 && out@[a].count <= i + 1 by {
                    if a < before.len() {
                        assert(out@[a] == before[a]);
                    }
                }
                assert forall|r: Seq<char>, u: Seq<char>, d: i32| group_count(pre, r, u, d) > 0 implies exists|a: int|
                    0 <= a < out@.len() && (#[trigger] out@[a]).region@ == r && out@[a].universe@ == u && out@[a].delay == d by {
                    if group_count(self.scopes@.subrange(0, i as int), r, u, d) > 0 {
                        let a = choose|a: int| 0 <= a < before.len() && (#[trigger] before[a]).region@ == r && before[a].universe@ == u && before[a].delay == d;
                        assert(out@[a] == before[a]);
                    } else {
                        assert(out@[before.len() as int].region@ == r);
                    }
                }
            }
            i += 1;
        }
        assert(self.scopes@.subrange(0, n as int) =~= self.scopes@);
        assert forall|i: int| 0 <= i < self.scopes_view().len() implies exists|a: int|
            0 <= a < out@.len() && in_group(#[trigger] self.scopes_view()[i], (#[trigger] out@[a]).region@, out@[a].universe@, out@[a].delay) by {
            lemma_group_positive(self.scopes@, i);
        }
        out
    }
}

/// `name` is marked as unable to take event fields.
pub open spec fn marked_incompatible(es: Seq<(String, bool)>, name: Seq<char>) -> bool {
    exists|i: int| 0 <= i < es.len() && !es[i].1 && (#[trigger] es[i]).0@ == name
}

/// Whether each operator may take event fields.
pub struct OperatorCompatRepository {
    entries: Vec<(String, bool)>,
}

impl OperatorCompatRepository {
    pub closed spec fn view_entries(&self) -> Seq<(String, bool)> {
        self.entries@
    }

    pub fn new() -> (r: Self)
        ensures
            r.view_entries().len() == 0,
    {
        OperatorCompatRepository { entries: Vec::new() }
    }

    /// The operators marked as not taking event fields, in order of marking.
    pub fn list_incompatible_ops(&self) -> (r: Vec<String>)
        ensures
            forall|k: int| 0 <= k < r@.len() ==> marked_incompatible(self.view_entries(), (#[trigger] r@[k])@),
            forall|i: int| 0 <= i < self.view_entries().len() && !(#[trigger] self.view_entries()[i]).1 ==> string_views(r@).contains(self.view_entries()[i].0@),
    {
        let mut out: Vec<String> = Vec::new();
        let mut i: usize = 0;
        while i < self.entries.len()
            invariant
                i <= self.entries@.len(),
                forall|k: int| 0 <= k < out@.len() ==> marked_incompatible(self.entries@, (#[trigger] out@[k])@),
                forall|m: int| 0 <= m < i && !(#[trigger] self.entries@[m]).1 ==> string_views(out@).contains(self.entries@[m].0@),
            decreases self.entries@.len() - i,
        {
            if !self.entries[i].1 {
                let ghost before = out@;
                out.push(self.entries[i].0.clone());
                assert(string_views(out@) =~= string_views(before).push(self.entries@[i as int].0@));
                assert(self.entries@[i as int].0@ == out@[before.len() as int]@);
                assert(marked_incompatible(self.entries@, out@[before.len() as int]@));
                assert forall|k: int| 0 <= k < out@.len() implies marked_incompatible(self.entries@, (#[trigger] out@[k])@) by {
                    if k < before.len() {
                        assert(out@[k] == before[k]);
                    }
                }
                assert forall|m: int| 0 <= m <= i && !(#[trigger] self.entries@[m]).1 implies string_views(out@).contains(self.entries@[m].0@) by {
                    if m < i {
                        let w = choose|w: int| 0 <= w < string_views(before).len() && string_views(before)[w] == self.entries@[m].0@;
                        assert(string_views(out@)[w] == string_views(before)[w]);
                    } else {
                        assert(string_views(out@)[before.len() as int] == self.entries@[m].0@);
                    }
                }
            }
            i += 1;
        }
        out
    }

    fn set_flag(&mut self, op: &str, compatible: bool)
        ensures
            exists|i: int| 0 <= i < final(self).view_entries().len() && (#[trigger] final(self).view_entries()[i]).0@ == op@ && final(self).view_entries()[i].1 == compatible,
    {
        let name = op.to_string();
        let mut i: usize = 0;
        while i < self.entries.len()
            invariant
                i <= self.entries@.len(),
                name@ == op@,
            decreases self.entries@.len() - i,
        {
            if self.entries[i].0 == name {
                self.entries[i].1 = compatible;
                assert(self.view_entries()[i as int].0@ == op@);
                return;
            }
            i += 1;
        }
        self.entries.push((name, compatible));
        assert(self.view_entries()[self.entries@.len() - 1].0@ == op@);
    }

    /// Marks `op` as unable to take event fields.
    pub fn mark_incompatible(&mut self, op: &str)
        ensures
            exists|i: int| 0 <= i < final(self).view_entries().len() && (#[trigger] final(self).view_entries()[i]).0@ == op@ && !final(self).view_entries()[i].1,
    {
        self.set_flag(op, false);
    }

    /// Marks `op` as able to take event fields.
    pub fn mark_supported(&mut self, op: &str)
        ensures
            exists|i: int| 0 <= i < final(self).view_entries().len() && (#[trigger] final(self).view_entries()[i]).0@ == op@ && final(self).view_entries()[i].1,
    {
        self.set_flag(op, true);
    }
}

/// Weighted sampling returns `min(n, candidates)` ids, and distinct ones
/// when the candidate rows have distinct ids (as `field_frequencies` gives).
pub proof fn lemma_sample_distinct(rows: Seq<FieldFreqRow>, keys: Seq<u64>, idx: Seq<usize>, n: usize)
    requires
        rows.len() == keys.len(),
        top_selection(keys, idx, n),
        forall|a: int, b: int|
            0 <= a < rows.len() && 0 <= b < rows.len() && a != b ==> (#[trigger] rows[a]).field_id@ != (#[trigger] rows[b]).field_id@,
    ensures
        idx.len() == min_usize(n, rows.len() as usize),
        forall|t1: int, t2: int|
            0 <= t1 < idx.len() && 0 <= t2 < idx.len() && t1 != t2 ==> rows[#[trigger] idx[t1] as int].field_id@ != rows[#[trigger] idx[t2] as int].field_id@,
{
    assert forall|t1: int, t2: int| 0 <= t1 < idx.len() && 0 <= t2 < idx.len() && t1 != t2 implies rows[#[trigger] idx[t1] as int].field_id@
        != rows[#[trigger] idx[t2] as int].field_id@ by {
        if t1 < t2 {
            assert(beats(keys, idx[t1] as int, idx[t2] as int));
        } else {
            assert(beats(keys, idx[t2] as int, idx[t1] as int));
        }
    }
}

/// Whole weighted sample: with `rows` as `field_frequencies` gives them for
/// a filter and any keys, the ids picked by `top_selection` number
/// `min(n, m)` where `m` is the count of distinct fields in the filter, are
/// distinct, and each has a scope in the filter.
pub proof fn lemma_sample_whole(
    ss: Seq<FieldScope>,
    r: Option<Seq<char>>,
    u: Option<Seq<char>>,
    d: Option<i32>,
    rows: Seq<FieldFreqRow>,
    keys: Seq<u64>,
    idx: Seq<usize>,
    n: usize,
)
    requires
        rows.len() == keys.len(),
        top_selection(keys, idx, n),
        forall|a: int, b: int|
            0 <= a < rows.len() && 0 <= b < rows.len() && a != b ==> (#[trigger] rows[a]).field_id@ != (#[trigger] rows[b]).field_id@,
        forall|a: int| 0 <= a < rows.len() ==> (#[trigger] rows[a]).freq == freq_of(ss, rows[a].field_id@, r, u, d) && rows[a].freq > 0,
        forall|i: int|
            0 <= i < ss.len() && scope_matches(ss[i], r, u, d) ==> exists|a: int|
                0 <= a < rows.len() && (#[trigger] rows[a]).field_id@ == (#[trigger] ss[i]).field_id@,
    ensures
        idx.len() == min_usize(n, rows.len() as usize),
        forall|t1: int, t2: int|
            0 <= t1 < idx.len() && 0 <= t2 < idx.len() && t1 != t2 ==> rows[#[trigger] idx[t1] as int].field_id@ != rows[#[trigger] idx[t2] as int].field_id@,
        forall|t: int| 0 <= t < idx.len() ==> in_filter(ss, rows[#[trigger] idx[t] as int].field_id@, r, u, d),
        forall|i: int|
            0 <= i < ss.len() && scope_matches(ss[i], r, u, d) ==> exists|a: int|
                0 <= a < rows.len() && (#[trigger] rows[a]).field_id@ == (#[trigger] ss[i]).field_id@,
{
    lemma_sample_distinct(rows, keys, idx, n);
    assert forall|t: int| 0 <= t < idx.len() implies in_filter(ss, rows[#[trigger] idx[t] as int].field_id@, r, u, d) by {
        let a = idx[t] as int;
        assert(rows[a].freq > 0);
        lemma_freq_positive(ss, rows[a].field_id@, r, u, d);
    }
}

} // verus!
