use vstd::prelude::*;

verus! {

broadcast use vstd::std_specs::vec::group_vec_axioms;

/// A JSON document as the engine stores it. Numbers keep the decimal text
/// the upstream sent, so no precision is lost and no float is needed.
/// Object members keep their order and have distinct keys.
#[derive(Debug)]
pub enum Json {
    Null,
    Bool(bool),
    Number(String),
    Str(String),
    Array(Vec<Json>),
    Object(Vec<(String, Json)>),
}

/// The mathematical value of a JSON document.
pub enum JsonV {
    Null,
    Bool(bool),
    Number(Seq<char>),
    Str(Seq<char>),
    Array(Seq<JsonV>),
    Object(Seq<(Seq<char>, JsonV)>),
}

impl Json {
    pub open spec fn view(&self) -> JsonV
        decreases self,
    {
        match self {
            Json::Null => JsonV::Null,
            Json::Bool(b) => JsonV::Bool(*b),
            Json::Number(s) => JsonV::Number(s@),
            Json::Str(s) => JsonV::Str(s@),
            Json::Array(v) => JsonV::Array(
                Seq::new(
                    v.len() as nat,
                    |i: int|
                        if 0 <= i < v.len() {
                            v[i].view()
                        } else {
                            JsonV::Null
                        },
                ),
            ),
            Json::Object(v) => JsonV::Object(
                Seq::new(
                    v.len() as nat,
                    |i: int|
                        if 0 <= i < v.len() {
                            (v[i].0@, v[i].1.view())
                        } else {
                            (Seq::empty(), JsonV::Null)
                        },
                ),
            ),
        }
    }
}

/// Index of the first member of `es` with key `k`, or `es.len()`.
pub open spec fn key_index(es: Seq<(Seq<char>, JsonV)>, k: Seq<char>) -> int
    decreases es.len(),
{
    if es.len() == 0 {
        0
    } else if key_index(es.drop_last(), k) < es.len() - 1 {
        key_index(es.drop_last(), k)
    } else if es.last().0 == k {
        es.len() - 1
    } else {
        es.len() as int
    }
}

/// Deep merge of `b` into `a`: two objects merge member by member, a member
/// of `b` whose key `a` already has merging into that member; any other `b`
/// replaces `a`.
pub open spec fn merge(a: JsonV, b: JsonV) -> JsonV
    decreases b,
{
    match b {
        JsonV::Object(be) => match a {
            JsonV::Object(ae) => JsonV::Object(merge_members(ae, be)),
            _ => b,
        },
        _ => b,
    }
}

/// The members of `ae` after merging in the members of `be` one by one, in order.
pub open spec fn merge_members(ae: Seq<(Seq<char>, JsonV)>, be: Seq<(Seq<char>, JsonV)>) -> Seq<
    (Seq<char>, JsonV),
>
    decreases be,
{
    if be.len() == 0 {
        ae
    } else {
        let acc = merge_members(ae, be.drop_last());
        let k = be.last().0;
        let v = be.last().1;
        let idx = key_index(acc, k);
        if idx < acc.len() {
            acc.update(idx, (k, merge(acc[idx].1, v)))
        } else {
            acc.push((k, v))
        }
    }
}

/// Merging one member `(k, v)` into the members `acc`.
pub open spec fn step_member(acc: Seq<(Seq<char>, JsonV)>, e: (Seq<char>, JsonV)) -> Seq<(Seq<char>, JsonV)> {
    let idx = key_index(acc, e.0);
    if idx < acc.len() {
        acc.update(idx, (e.0, merge(acc[idx].1, e.1)))
    } else {
        acc.push(e)
    }
}

proof fn lemma_merge_members_last(ae: Seq<(Seq<char>, JsonV)>, be: Seq<(Seq<char>, JsonV)>)
    requires
        be.len() > 0,
    ensures
        merge_members(ae, be) == step_member(merge_members(ae, be.drop_last()), be.last()),
{
}

/// Merging members front to back: the first member, then the rest.
proof fn lemma_merge_members_front(ae: Seq<(Seq<char>, JsonV)>, be: Seq<(Seq<char>, JsonV)>)
    requires
        be.len() > 0,
    ensures
        merge_members(ae, be) == merge_members(step_member(ae, be[0]), be.drop_first()),
    decreases be.len(),
{
    if be.len() == 1 {
        lemma_merge_members_last(ae, be);
        assert(be.drop_last() =~= Seq::<(Seq<char>, JsonV)>::empty());
        assert(be.drop_first() =~= Seq::<(Seq<char>, JsonV)>::empty());
    } else {
        lemma_merge_members_last(ae, be);
        lemma_merge_members_front(ae, be.drop_last());
        assert(be.drop_last().drop_first() =~= be.drop_first().drop_last());
        assert(be.drop_last()[0] == be[0]);
        lemma_merge_members_last(step_member(ae, be[0]), be.drop_first());
        assert(be.drop_first().last() == be.last());
    }
}

/// Nodes of a document counted through nested objects.
pub open spec fn size(j: JsonV) -> nat
    decreases j,
{
    match j {
        JsonV::Object(ms) => 1 + members_size(ms),
        _ => 1,
    }
}

pub open spec fn members_size(ms: Seq<(Seq<char>, JsonV)>) -> nat
    decreases ms,
{
    if ms.len() == 0 {
        0
    } else {
        1 + size(ms[0].1) + members_size(ms.drop_first())
    }
}

/// One pending object merge: the members built so far, the members of `b`
/// still to merge in, and the slot of the parent's member it fills.
pub struct FrameV {
    pub acc: Seq<(Seq<char>, JsonV)>,
    pub rest: Seq<(Seq<char>, JsonV)>,
    pub slot: int,
}

pub open spec fn frame_result(f: FrameV) -> JsonV {
    JsonV::Object(merge_members(f.acc, f.rest))
}

/// The document that finishing every pending merge of the stack `fs` gives:
/// the top frame's result fills its slot in the frame below, and so on.
pub open spec fn complete(fs: Seq<FrameV>) -> JsonV
    decreases fs.len(),
{
    if fs.len() <= 1 {
        if fs.len() == 1 { frame_result(fs[0]) } else { JsonV::Null }
    } else {
        let top = fs.last();
        let n = fs.len() - 2;
        let p = fs[n];
        let filled = FrameV { acc: p.acc.update(top.slot, (p.acc[top.slot].0, frame_result(top))), ..p };
        complete(fs.drop_last().update(n, filled))
    }
}

pub open spec fn stack_measure(fs: Seq<FrameV>) -> nat
    decreases fs.len(),
{
    if fs.len() == 0 {
        0
    } else {
        stack_measure(fs.drop_last()) + 1 + 2 * members_size(fs.last().rest)
    }
}

/// Replacing the top frame by one with the same result and slot leaves the completion unchanged.
proof fn lemma_complete_top(fs: Seq<FrameV>, f2: FrameV)
    requires
        fs.len() >= 1,
        frame_result(f2) == frame_result(fs.last()),
        f2.slot == fs.last().slot,
    ensures
        complete(fs.update(fs.len() - 1, f2)) == complete(fs),
{
    let gs = fs.update(fs.len() - 1, f2);
    if fs.len() >= 2 {
        assert(gs.drop_last() =~= fs.drop_last());
        assert(gs[fs.len() - 2] == fs[fs.len() - 2]);
    }
}

/// Merging a sequence of payloads one after another, from the left.
pub open spec fn merge_all(a: JsonV, bs: Seq<JsonV>) -> JsonV
    decreases bs.len(),
{
    if bs.len() == 0 {
        a
    } else {
        merge(merge_all(a, bs.drop_last()), bs.last())
    }
}

pub open spec fn members_view(v: Seq<(String, Json)>) -> Seq<(Seq<char>, JsonV)> {
    Seq::new(v.len(), |i: int| (v[i].0@, v[i].1@))
}

pub open spec fn items_view(v: Seq<Json>) -> Seq<JsonV> {
    Seq::new(v.len(), |i: int| v[i]@)
}

pub proof fn lemma_object_view(v: Vec<(String, Json)>)
    ensures
        Json::Object(v)@ == JsonV::Object(members_view(v@)),
{
    let jv = Json::Object(v)@;
    let es = jv->Object_0;
    assert(es.len() == v@.len());
    assert forall|i: int| 0 <= i < es.len() implies es[i] == members_view(v@)[i] by {
        assert(es[i] == (v[i].0@, v[i].1.view()));
    }
    assert(es =~= members_view(v@));
}

pub proof fn lemma_array_view(v: Vec<Json>)
    ensures
        Json::Array(v)@ == JsonV::Array(items_view(v@)),
{
    let jv = Json::Array(v)@;
    let es = jv->Array_0;
    assert(es.len() == v@.len());
    assert forall|i: int| 0 <= i < es.len() implies es[i] == items_view(v@)[i] by {
        assert(es[i] == v[i].view());
    }
    assert(es =~= items_view(v@));
}

proof fn lemma_key_index(es: Seq<(Seq<char>, JsonV)>, k: Seq<char>)
    ensures
        0 <= key_index(es, k) <= es.len(),
        key_index(es, k) < es.len() ==> es[key_index(es, k)].0 == k,
        forall|j: int| 0 <= j < key_index(es, k) ==> es[j].0 != k,
    decreases es.len(),
{
    if es.len() > 0 {
        lemma_key_index(es.drop_last(), k);
        assert forall|j: int| 0 <= j < key_index(es, k) implies es[j].0 != k by {
            if j < es.len() - 1 {
                assert(es[j] == es.drop_last()[j]);
            }
        }
    }
}

impl Json {
    /// A copy of the whole document.
    pub fn deep_clone(&self) -> (r: Json)
        ensures
            r@ == self@,
        decreases self,
    {
        match self {
            Json::Null => Json::Null,
            Json::Bool(b) => Json::Bool(*b),
            Json::Number(s) => Json::Number(s.clone()),
            Json::Str(s) => Json::Str(s.clone()),
            Json::Array(v) => {
                proof {
                    assert(decreases_to!(*self => self->Array_0));
                }
                let mut out: Vec<Json> = Vec::new();
                let mut i: usize = 0;
                while i < v.len()
                    invariant
                        i <= v@.len(),
                        out@.len() == i,
                        *self is Array,
                        decreases_to!(*self => self->Array_0),
                        self->Array_0 == *v,
                        forall|k: int| 0 <= k < i ==> (#[trigger] out@[k])@ == v@[k]@,
                    decreases v@.len() - i,
                {
                    proof {
                        vstd::std_specs::vec::axiom_vec_index_decreases(*v, i as int);

                    }
                    let c = v[i].deep_clone();
                    out.push(c);
                    i += 1;
                }
                proof {
                    lemma_array_view(out);
                    lemma_array_view(*v);
                    assert(items_view(out@) =~= items_view(v@));
                }
                Json::Array(out)
            },
            Json::Object(v) => {
                proof {
                    assert(decreases_to!(*self => self->Object_0));
                }
                let mut out: Vec<(String, Json)> = Vec::new();
                let mut i: usize = 0;
                while i < v.len()
                    invariant
                        i <= v@.len(),
                        out@.len() == i,
                        *self is Object,
                        decreases_to!(*self => self->Object_0),
                        self->Object_0 == *v,
                        forall|k: int|
                            0 <= k < i ==> (#[trigger] out@[k]).0@ == v@[k].0@ && out@[k].1@ == v@[k].1@,
                    decreases v@.len() - i,
                {
                    proof {
                        vstd::std_specs::vec::axiom_vec_index_decreases(*v, i as int);

                    }
                    let c = v[i].1.deep_clone();
                    let key = v[i].0.clone();
                    out.push((key, c));
                    i += 1;
                }
                proof {
                    lemma_object_view(out);
                    lemma_object_view(*v);
                    assert(members_view(out@) =~= members_view(v@));
                }
                Json::Object(out)
            },
        }
    }
}

fn find_key(acc: &Vec<(String, Json)>, k: &String) -> (r: usize)
    ensures
        r == key_index(members_view(acc@), k@),
{
    proof {
        lemma_key_index(members_view(acc@), k@);
    }
    let mut j: usize = 0;
    while j < acc.len()
        invariant
            j <= acc@.len(),
            forall|m: int| 0 <= m < j ==> (#[trigger] acc@[m]).0@ != k@,
        decreases acc@.len() - j,
    {
        if acc[j].0 == *k {
            proof {
                lemma_key_index(members_view(acc@), k@);
                let ki = key_index(members_view(acc@), k@);
                assert(members_view(acc@)[j as int].0 == k@);
                if ki < j {
                    assert(members_view(acc@)[ki].0 == acc@[ki].0@);
                }
            }
            return j;
        }
        j += 1;
    }
    j
}

/// A pending object merge of `merge_json`: the members built so far, the
/// members of `b` from `pos` on still to merge in, and the slot of the
/// parent's member that the result fills.
struct MergeFrame {
    acc: Vec<(String, Json)>,
    rest: Vec<(String, Json)>,
    pos: usize,
    slot: usize,
}

spec fn frame_view(f: MergeFrame) -> FrameV {
    FrameV {
        acc: members_view(f.acc@),
        rest: members_view(f.rest@).subrange(f.pos as int, f.rest@.len() as int),
        slot: f.slot as int,
    }
}

spec fn frames_view(fs: Seq<MergeFrame>) -> Seq<FrameV> {
    Seq::new(fs.len(), |i: int| frame_view(fs[i]))
}

spec fn frames_wf(fs: Seq<MergeFrame>) -> bool {
    &&& forall|i: int| 0 <= i < fs.len() ==> (#[trigger] fs[i]).pos <= fs[i].rest@.len()
    &&& forall|i: int| 1 <= i < fs.len() ==> (#[trigger] fs[i]).slot < fs[i - 1].acc@.len()
}

proof fn lemma_measure_rests(fs: Seq<FrameV>, gs: Seq<FrameV>)
    requires
        fs.len() == gs.len(),
        forall|i: int| 0 <= i < fs.len() ==> (#[trigger] fs[i]).rest == gs[i].rest,
    ensures
        stack_measure(fs) == stack_measure(gs),
    decreases fs.len(),
{
    if fs.len() > 0 {
        lemma_measure_rests(fs.drop_last(), gs.drop_last());
    }
}

/// Deep merge of `b` into `a` (see `merge`). The merge runs on an explicit
/// stack of pending object merges, so its depth costs heap, not call stack.
pub fn merge_json(a: Json, b: Json) -> (r: Json)
    ensures
        r@ == merge(a@, b@),
{
    let ghost target = merge(a@, b@);
    let (ae, be) = match b {
        Json::Object(be) => match a {
            Json::Object(ae) => (ae, be),
            _ => {
                return Json::Object(be);
            },
        },
        other => {
            return other;
        },
    };
    proof {
        lemma_object_view(ae);
        lemma_object_view(be);
    }
    let mut frames: Vec<MergeFrame> = Vec::new();
    frames.push(MergeFrame { acc: ae, rest: be, pos: 0, slot: 0 });
    proof {
        assert(members_view(be@).subrange(0, be@.len() as int) =~= members_view(be@));
        assert(frames_view(frames@)[0] == frame_view(frames@[0]));
    }
    loop
        invariant
            frames@.len() >= 1,
            frames_wf(frames@),
            target == merge(a@, b@),
            complete(frames_view(frames@)) == target,
        decreases stack_measure(frames_view(frames@)),
    {
        let top = frames.len() - 1;
        if frames[top].pos >= frames[top].rest.len() {
            match finish_top(&mut frames) {
                Some(obj) => {
                    return obj;
                },
                None => {},
            }
        } else {
            step_top(&mut frames);
        }
    }
}

/// Closes the finished top frame: its object fills its slot in the frame
/// below, or is the result when it was the last frame.
#[verifier::rlimit(50)]
fn finish_top(frames: &mut Vec<MergeFrame>) -> (r: Option<Json>)
    requires
        old(frames)@.len() >= 1,
        frames_wf(old(frames)@),
        old(frames)@.last().pos >= old(frames)@.last().rest@.len(),
    ensures
        match r {
            Some(obj) => old(frames)@.len() == 1 && obj@ == complete(frames_view(old(frames)@)),
            None => final(frames)@.len() >= 1 && frames_wf(final(frames)@) && complete(frames_view(final(frames)@))
                == complete(frames_view(old(frames)@)) && stack_measure(frames_view(final(frames)@)) < stack_measure(
                frames_view(old(frames)@),
            ),
        },
{
    let ghost fs0 = frames_view(frames@);
    let ghost fr0 = frames@;
    let top = frames.len() - 1;
    assert(fs0.last() == frame_view(fr0[top as int]));
    let f = frames.pop().unwrap();
    proof {
        assert(f == fr0[top as int]);
        assert(frame_view(f).rest =~= Seq::<(Seq<char>, JsonV)>::empty());
        lemma_object_view(f.acc);
    }
    let ghost fa = f.acc@;
    let obj = Json::Object(f.acc);
    if frames.len() == 0 {
        proof {
            assert(fs0.len() == 1);
            assert(fs0[0] == frame_view(f));
            assert(merge_members(frame_view(f).acc, frame_view(f).rest) == frame_view(f).acc);
            assert(complete(fs0) == frame_result(fs0[0]));
            assert(obj@ == JsonV::Object(members_view(fa)));
            assert(obj@ == frame_result(fs0[0]));
        }
        return Some(obj);
    }
    let p = frames.len() - 1;
    let slot = f.slot;
    assert(slot < frames@[p as int].acc@.len());
    frames[p].acc[slot].1 = obj;
    proof {
        let n = fs0.len() - 2;
        let pv = fs0[n];
        let filled = FrameV {
            acc: pv.acc.update(slot as int, (pv.acc[slot as int].0, frame_result(fs0.last()))),
            ..pv
        };
        assert(frame_view(frames@[p as int]).acc =~= filled.acc);
        assert(frames_view(frames@) =~= fs0.drop_last().update(n, filled));
        lemma_measure_rests(frames_view(frames@), fs0.drop_last());
        assert(members_size(fs0.last().rest) == 0);
        assert(stack_measure(frames_view(frames@)) < stack_measure(fs0));
    }
    None
}

/// Merges the next pending member of the top frame, opening a frame for it
/// when both sides are objects.
#[verifier::rlimit(100)]
fn step_top(frames: &mut Vec<MergeFrame>)
    requires
        old(frames)@.len() >= 1,
        frames_wf(old(frames)@),
        old(frames)@.last().pos < old(frames)@.last().rest@.len(),
    ensures
        final(frames)@.len() >= 1,
        frames_wf(final(frames)@),
        complete(frames_view(final(frames)@)) == complete(frames_view(old(frames)@)),
        stack_measure(frames_view(final(frames)@)) < stack_measure(frames_view(old(frames)@)),
{
    let ghost fs0 = frames_view(frames@);
    let ghost fr0 = frames@;
    let top = frames.len() - 1;
    assert(fs0.last() == frame_view(fr0[top as int]));
    let pos = frames[top].pos;
    let rest_len = frames[top].rest.len();
    assert(pos < rest_len);
    let mut entry: (String, Json) = (String::new(), Json::Null);
    std::mem::swap(&mut frames[top].rest[pos], &mut entry);
    frames[top].pos = pos + 1;
    let ghost ev = (entry.0@, entry.1@);
    let ghost top0 = fs0.last();
    proof {
        assert(top0.rest[0] == ev);
        assert(frame_view(frames@[top as int]).rest =~= top0.rest.drop_first());
        lemma_merge_members_front(top0.acc, top0.rest);
    }
    let (k, v) = entry;
    let idx = find_key(&frames[top].acc, &k);
    proof {
        lemma_key_index(top0.acc, k@);
    }
    if idx < frames[top].acc.len() {
        let mut old = Json::Null;
        std::mem::swap(&mut frames[top].acc[idx].1, &mut old);
        let ghost oldv = old@;
        assert(oldv == top0.acc[idx as int].1);
        match v {
            Json::Object(vm) => {
                match old {
                    Json::Object(om) => {
                        proof {
                            lemma_object_view(om);
                            lemma_object_view(vm);
                        }
                        let ghost mid = frames_view(frames@);
                        frames.push(MergeFrame { acc: om, rest: vm, pos: 0, slot: idx });
                        proof {
                            let child = frames_view(frames@).last();
                            assert(child.rest =~= members_view(vm@));
                            assert(frame_result(child) == merge(oldv, ev.1));
                            let n = frames@.len() - 2;
                            let topm = mid.last();
                            let filled = FrameV {
                                acc: topm.acc.update(idx as int, (topm.acc[idx as int].0, frame_result(child))),
                                ..topm
                            };
                            assert(filled.acc =~= step_member(top0.acc, ev));
                            assert(frames_view(frames@).drop_last() =~= mid);
                            assert(frames_view(frames@).drop_last().update(n, filled) =~= fs0.update(fs0.len() - 1, filled));
                            lemma_complete_top(fs0, filled);
                            assert(mid =~= fs0.update(fs0.len() - 1, topm));
                            lemma_measure_rests(mid.drop_last(), fs0.drop_last());
                            assert(stack_measure(mid) == stack_measure(fs0.drop_last()) + 1 + 2 * members_size(topm.rest));
                            assert(frames_view(frames@).last() == child);
                            assert(stack_measure(frames_view(frames@)) == stack_measure(mid) + 1 + 2 * members_size(child.rest));
                            assert(size(ev.1) == 1 + members_size(child.rest));
                            assert(stack_measure(frames_view(frames@)) < stack_measure(fs0));
                        }
                    },
                    other_old => {
                        frames[top].acc.set(idx, (k, Json::Object(vm)));
                        proof {
                            assert(frame_view(frames@[top as int]).acc =~= step_member(top0.acc, ev));
                            assert(frames_view(frames@) =~= fs0.update(fs0.len() - 1, frame_view(frames@[top as int])));
                            lemma_complete_top(fs0, frame_view(frames@[top as int]));
                            lemma_measure_rests(frames_view(frames@).drop_last(), fs0.drop_last());
                            assert(stack_measure(frames_view(frames@)) < stack_measure(fs0));
                        }
                    },
                }
            },
            other_v => {
                frames[top].acc.set(idx, (k, other_v));
                proof {
                    assert(frame_view(frames@[top as int]).acc =~= step_member(top0.acc, ev));
                    assert(frames_view(frames@) =~= fs0.update(fs0.len() - 1, frame_view(frames@[top as int])));
                    lemma_complete_top(fs0, frame_view(frames@[top as int]));
                    lemma_measure_rests(frames_view(frames@).drop_last(), fs0.drop_last());
                    assert(stack_measure(frames_view(frames@)) < stack_measure(fs0));
                }
            },
        }
    } else {
        frames[top].acc.push((k, v));
        proof {
            assert(frame_view(frames@[top as int]).acc =~= step_member(top0.acc, ev));
            assert(frames_view(frames@) =~= fs0.update(fs0.len() - 1, frame_view(frames@[top as int])));
            lemma_complete_top(fs0, frame_view(frames@[top as int]));
            lemma_measure_rests(frames_view(frames@).drop_last(), fs0.drop_last());
            assert(stack_measure(frames_view(frames@)) < stack_measure(fs0));
        }
    }
}


/// The member `k` of an object, if it has one.
pub open spec fn jget(j: JsonV, k: Seq<char>) -> Option<JsonV> {
    match j {
        JsonV::Object(es) => if key_index(es, k) < es.len() {
            Some(es[key_index(es, k)].1)
        } else {
            None
        },
        _ => None,
    }
}

/// The text of a JSON string, if `j` is one.
pub open spec fn jstr(j: Option<JsonV>) -> Option<Seq<char>> {
    match j {
        Some(JsonV::Str(s)) => Some(s),
        _ => None,
    }
}

impl Json {
    /// The member `k` of an object, if it has one.
    pub fn get(&self, k: &str) -> (r: Option<&Json>)
        ensures
            match r {
                Some(x) => jget(self@, k@) == Some(x@),
                None => jget(self@, k@) is None,
            },
    {
        match self {
            Json::Object(es) => {
                proof {
                    lemma_object_view(*es);
                    lemma_key_index(members_view(es@), k@);
                }
                let key = k.to_string();
                let i = find_key(es, &key);
                if i < es.len() {
                    Some(&es[i].1)
                } else {
                    None
                }
            },
            _ => None,
        }
    }

    /// The text of a JSON string, if this is one.
    pub fn as_str(&self) -> (r: Option<&String>)
        ensures
            match r {
                Some(s) => self@ == JsonV::Str(s@),
                None => !(self@ is Str),
            },
    {
        match self {
            Json::Str(s) => Some(s),
            _ => None,
        }
    }
}

} // verus!
