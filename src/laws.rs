use vstd::prelude::*;

use crate::resolve::{
    assemble, drained, lemma_nulled_stays, recorded, reduced, step, FieldError, FieldsModel,
    TaskOutcome,
};
use crate::plan::{planned, DefaultScalarValue, Fragment, InputValue, MetaType, Selection, Task};
use crate::value::{
    is_first_key, key_index, keys_of, keys_unique, lemma_key_index, lemma_key_index_first,
    lemma_set_field_keys, merge_field, merge_fields, merge_prefix, Value, ValueModel,
};

verus! {

/// Whether an outcome writes the response name `k` into the object.
pub open spec fn touches<T, S>(o: TaskOutcome<T, S>, k: Seq<char>) -> bool {
    match o {
        TaskOutcome::Field { name, .. } => name@ == k,
        TaskOutcome::Nested(v) => object_has_key(v.model(), k),
        TaskOutcome::Narrowed { result, .. } => match result {
            Ok(v) => object_has_key(v.model(), k),
            Err(_) => false,
        },
    }
}

pub open spec fn object_has_key<T>(v: ValueModel<T>, k: Seq<char>) -> bool {
    match v {
        ValueModel::Object(b) => exists|j: int| 0 <= j < b.len() && b[j].0 == k,
        _ => false,
    }
}

/// The value held under `k`, if the name is present.
pub open spec fn slot<T>(fs: FieldsModel<T>, k: Seq<char>) -> Option<ValueModel<T>> {
    let i = key_index(fs, k);
    if i < 0 {
        None
    } else {
        Some(fs[i].1)
    }
}

proof fn lemma_merge_field_other<T>(fs: FieldsModel<T>, k: Seq<char>, v: ValueModel<T>, k2: Seq<char>)
    requires
        k != k2,
    ensures
        slot(merge_field(fs, k, v), k2) == slot(fs, k2),
{
    let g = merge_field(fs, k, v);
    lemma_key_index(fs, k);
    lemma_key_index(fs, k2);
    lemma_key_index(g, k2);
    let i2 = key_index(fs, k2);
    if i2 >= 0 {
        assert(is_first_key(g, k2, i2));
        lemma_key_index_first(g, k2, i2);
    } else {
        assert forall|j: int| 0 <= j < g.len() implies g[j].0 != k2 by {
            if j < fs.len() {
                assert(fs[j].0 != k2);
            }
        }
    }
}

proof fn lemma_merge_prefix_other<T>(fs: FieldsModel<T>, v: ValueModel<T>, n: nat, k2: Seq<char>)
    requires
        !object_has_key(v, k2),
    ensures
        slot(merge_prefix(fs, v, n), k2) == slot(fs, k2),
    decreases n,
{
    match v {
        ValueModel::Object(b) => {
            if n == 0 || n > b.len() {
            } else {
                lemma_merge_prefix_other(fs, v, (n - 1) as nat, k2);
                assert(b[n - 1].0 != k2);
                lemma_merge_field_other(merge_prefix(fs, v, (n - 1) as nat), b[n - 1].0, b[n - 1].1, k2);
            }
        },
        _ => {},
    }
}

proof fn lemma_merge_prefix_keys<T>(fs: FieldsModel<T>, v: ValueModel<T>, n: nat)
    requires
        keys_unique(fs),
    ensures
        keys_unique(merge_prefix(fs, v, n)),
    decreases n,
{
    match v {
        ValueModel::Object(b) => {
            if n == 0 || n > b.len() {
            } else {
                lemma_merge_prefix_keys(fs, v, (n - 1) as nat);
                lemma_set_field_keys(merge_prefix(fs, v, (n - 1) as nat), b[n - 1].0, b[n - 1].1);
            }
        },
        _ => {},
    }
}

/// An outcome that does not write `k` leaves the value under `k` alone.
proof fn lemma_step_other<T, S>(fs: FieldsModel<T>, o: TaskOutcome<T, S>, k: Seq<char>)
    requires
        !touches(o, k),
        step(Some(fs), o) is Some,
    ensures
        slot(step(Some(fs), o)->0, k) == slot(fs, k),
{
    match o {
        TaskOutcome::Field { name, non_null, result, .. } => {
            lemma_merge_field_other(fs, name@, reduced(non_null, result)->0, k);
        },
        TaskOutcome::Nested(v) => {
            let vm = v.model();
            if let ValueModel::Object(b) = vm {
                lemma_merge_prefix_other(fs, vm, b.len(), k);
            }
        },
        TaskOutcome::Narrowed { result, .. } => {
            if let Ok(v) = result {
                let vm = v.model();
                if let ValueModel::Object(b) = vm {
                    lemma_merge_prefix_other(fs, vm, b.len(), k);
                }
            }
        },
    }
}

/// Draining keeps response names unique.
pub proof fn lemma_drained_keys_unique<T, S>(os: Seq<TaskOutcome<T, S>>, n: nat)
    ensures
        drained(os, n) is Some ==> keys_unique(drained(os, n)->0),
    decreases n,
{
    if n == 0 || n > os.len() {
    } else {
        lemma_drained_keys_unique(os, (n - 1) as nat);
        if let Some(fs) = drained(os, (n - 1) as nat) {
            match os[n - 1] {
                TaskOutcome::Field { name, non_null, result, .. } => {
                    lemma_set_field_keys(fs, name@, reduced(non_null, result)->0);
                },
                TaskOutcome::Nested(v) => {
                    lemma_merge_prefix_keys(fs, v.model(), v.model()->Object_0.len());
                },
                TaskOutcome::Narrowed { result, .. } => {
                    if let Ok(v) = result {
                        lemma_merge_prefix_keys(fs, v.model(), v.model()->Object_0.len());
                    }
                },
            }
        }
    }
}

/// Outcomes from `lo` up to `hi` that do not write `k` leave its value alone.
proof fn lemma_untouched_range<T, S>(os: Seq<TaskOutcome<T, S>>, k: Seq<char>, lo: nat, hi: nat)
    requires
        lo <= hi <= os.len(),
        drained(os, hi) is Some,
        forall|j: int| lo <= j < hi ==> !touches(#[trigger] os[j], k),
    ensures
        drained(os, lo) is Some,
        slot(drained(os, hi)->0, k) == slot(drained(os, lo)->0, k),
    decreases hi - lo,
{
    if hi > lo {
        if drained(os, (hi - 1) as nat) is None {
            lemma_nulled_stays(os, (hi - 1) as nat, hi);
        }
        lemma_untouched_range(os, k, lo, (hi - 1) as nat);
        lemma_step_other(drained(os, (hi - 1) as nat)->0, os[hi - 1], k);
    }
}

/// Once a field under `k` has been merged and nothing later writes `k`,
/// the final object holds under `k` what that merge left there.
proof fn lemma_field_slot<T, S>(os: Seq<TaskOutcome<T, S>>, i: int, k: Seq<char>)
    requires
        0 <= i < os.len(),
        drained(os, os.len()) is Some,
        forall|j: int| i < j < os.len() ==> !touches(#[trigger] os[j], k),
    ensures
        drained(os, (i + 1) as nat) is Some,
        slot(drained(os, os.len())->0, k) == slot(drained(os, (i + 1) as nat)->0, k),
{
    lemma_untouched_range(os, k, (i + 1) as nat, os.len());
}

/// A response name that no outcome before `n` writes is absent.
proof fn lemma_absent_before<T, S>(os: Seq<TaskOutcome<T, S>>, k: Seq<char>, n: nat)
    requires
        n <= os.len(),
        drained(os, n) is Some,
        forall|j: int| 0 <= j < n ==> !touches(#[trigger] os[j], k),
    ensures
        slot(drained(os, n)->0, k) is None,
{
    lemma_untouched_range(os, k, 0, n);
    lemma_key_index(Seq::<(Seq<char>, ValueModel<T>)>::empty(), k);
}

/// A field declared non-null whose resolver returns a leaf value: unless
/// another unit nulls the object or writes the same response name, the
/// object holds exactly that value under the field's response name.
pub proof fn law_non_null_leaf_value_kept<T, S>(os: Seq<TaskOutcome<T, S>>, i: int)
    requires
        0 <= i < os.len(),
        os[i] is Field && os[i]->non_null && os[i]->Field_result is Ok && os[i]->Field_result->Ok_0.model() is Scalar,
        assemble(os) is Object,
        forall|j: int| 0 <= j < os.len() && j != i ==> !touches(#[trigger] os[j], os[i]->name@),
    ensures
        slot(assemble(os)->Object_0, os[i]->name@) == Some(os[i]->Field_result->Ok_0.model()),
{
    law_field_value_kept(os, i);
}

/// A field whose resolver returned a value: unless another unit nulls the
/// object or writes the same response name, the object holds exactly that
/// value under the field's response name.
pub proof fn law_field_value_kept<T, S>(os: Seq<TaskOutcome<T, S>>, i: int)
    requires
        0 <= i < os.len(),
        os[i] is Field && os[i]->Field_result is Ok,
        assemble(os) is Object,
        forall|j: int| 0 <= j < os.len() && j != i ==> !touches(#[trigger] os[j], os[i]->name@),
    ensures
        slot(assemble(os)->Object_0, os[i]->name@) == Some(os[i]->Field_result->Ok_0.model()),
{
    let k = os[i]->name@;
    lemma_field_slot(os, i, k);
    if drained(os, i as nat) is None {
        lemma_nulled_stays(os, i as nat, (i + 1) as nat);
    }
    lemma_absent_before(os, k, i as nat);
    let fs = drained(os, i as nat)->0;
    lemma_key_index(fs, k);
    let g = fs.push((k, os[i]->Field_result->Ok_0.model()));
    assert(is_first_key(g, k, fs.len() as int));
    lemma_key_index_first(g, k, fs.len() as int);
}

/// Two fields written under the same response name `A`: the object holds
/// one entry for `A`, with the later value, or, where both values are
/// objects, with the fields of both merged.
pub proof fn law_same_response_name<T, S>(os: Seq<TaskOutcome<T, S>>, i: int, j: int)
    requires
        0 <= i < j < os.len(),
        os[i] is Field && os[i]->Field_result is Ok,
        os[j] is Field && os[j]->Field_result is Ok,
        os[i]->name@ == os[j]->name@,
        assemble(os) is Object,
        forall|m: int|
            0 <= m < os.len() && m != i && m != j ==> !touches(#[trigger] os[m], os[i]->name@),
    ensures
        keys_unique(assemble(os)->Object_0),
        slot(assemble(os)->Object_0, os[i]->name@) == Some(
            match (os[i]->Field_result->Ok_0.model(), os[j]->Field_result->Ok_0.model()) {
                (ValueModel::Object(a), ValueModel::Object(b)) => ValueModel::Object(
                    merge_fields(a, b),
                ),
                (_, b) => b,
            },
        ),
{
    let k = os[i]->name@;
    lemma_drained_keys_unique(os, os.len());
    lemma_field_slot(os, j, k);
    if drained(os, j as nat) is None {
        lemma_nulled_stays(os, j as nat, (j + 1) as nat);
    }
    assert forall|m: int| i < m < j implies !touches(#[trigger] os[m], k) by {}
    lemma_untouched_range(os, k, (i + 1) as nat, j as nat);
    if drained(os, i as nat) is None {
        lemma_nulled_stays(os, i as nat, (i + 1) as nat);
    }
    lemma_absent_before(os, k, i as nat);
    let f0 = drained(os, i as nat)->0;
    lemma_key_index(f0, k);
    let va = reduced(os[i]->non_null, os[i]->Field_result)->0;
    let g = f0.push((k, va));
    assert(is_first_key(g, k, f0.len() as int));
    lemma_key_index_first(g, k, f0.len() as int);
    assert(va == os[i]->Field_result->Ok_0.model());
    let fj = drained(os, j as nat)->0;
    let vb = reduced(os[j]->non_null, os[j]->Field_result)->0;
    assert(vb == os[j]->Field_result->Ok_0.model());
    lemma_key_index(fj, k);
    let h = merge_field(fj, k, vb);
    let idx = key_index(fj, k);
    assert(is_first_key(h, k, idx));
    lemma_key_index_first(h, k, idx);
}

/// A field declared non-null that resolves to null, or fails, makes the
/// whole object null, whatever the other units produced.
pub proof fn law_non_null_violation_nulls_object<T, S>(os: Seq<TaskOutcome<T, S>>, i: int)
    requires
        0 <= i < os.len(),
        os[i] is Field && os[i]->non_null && (os[i]->Field_result is Err || os[i]->Field_result->Ok_0.model() is Null),
    ensures
        assemble(os) == ValueModel::<T>::Null,
{
    lemma_nulled_stays(os, (i + 1) as nat, os.len());
}

/// The null of an object that a non-null field nulled stops at the nearest
/// nullable field above it: a nullable parent field holding that object
/// holds null, while the parent object itself stays an object, and every
/// other field of the parent keeps its value, unless another unit nulls
/// the parent or writes the same name.
pub proof fn law_null_stops_at_nullable_parent<T, S>(
    child: Seq<TaskOutcome<T, S>>,
    c: int,
    parent: Seq<TaskOutcome<T, S>>,
    p: int,
)
    requires
        0 <= c < child.len(),
        child[c] is Field && child[c]->non_null && (child[c]->Field_result is Err || child[c]->Field_result->Ok_0.model() is Null),
        0 <= p < parent.len(),
        parent[p] is Field && !parent[p]->non_null && parent[p]->Field_result is Ok
            && parent[p]->Field_result->Ok_0.model() == assemble(child),
        forall|j: int|
            0 <= j < parent.len() && j != p ==> !touches(#[trigger] parent[j], parent[p]->name@),
        forall|j: int| 0 <= j < parent.len() && j != p ==> !nulls(#[trigger] parent[j]),
    ensures
        assemble(parent) is Object,
        slot(assemble(parent)->Object_0, parent[p]->name@) == Some(ValueModel::<T>::Null),
        forall|q: int|
            0 <= q < parent.len() && q != p && #[trigger] parent[q] is Field && parent[q]->Field_result is Ok
                && (forall|j: int| 0 <= j < parent.len() && j != q ==> !touches(#[trigger] parent[j], parent[q]->name@))
                ==> slot(assemble(parent)->Object_0, parent[q]->name@) == Some(parent[q]->Field_result->Ok_0.model()),
{
    law_non_null_violation_nulls_object(child, c);
    assert(!nulls(parent[p]));
    lemma_never_nulled(parent, parent.len());
    assert forall|q: int|
        0 <= q < parent.len() && q != p && #[trigger] parent[q] is Field && parent[q]->Field_result is Ok
            && (forall|j: int| 0 <= j < parent.len() && j != q ==> !touches(#[trigger] parent[j], parent[q]->name@))
        implies slot(assemble(parent)->Object_0, parent[q]->name@) == Some(parent[q]->Field_result->Ok_0.model()) by {
        law_field_value_kept(parent, q);
    }
    let k = parent[p]->name@;
    lemma_field_slot(parent, p, k);
    lemma_absent_before(parent, k, p as nat);
    let fs = drained(parent, p as nat)->0;
    lemma_key_index(fs, k);
    let g = fs.push((k, ValueModel::Null));
    assert(is_first_key(g, k, fs.len() as int));
    lemma_key_index_first(g, k, fs.len() as int);
}

/// Whether an outcome makes the object that it is drained into null.
pub open spec fn nulls<T, S>(o: TaskOutcome<T, S>) -> bool {
    step(Some(Seq::empty()), o) is None
}

/// Outcomes none of which nulls an object leave it an object.
proof fn lemma_never_nulled<T, S>(os: Seq<TaskOutcome<T, S>>, n: nat)
    requires
        n <= os.len(),
        forall|j: int| 0 <= j < os.len() ==> !nulls(#[trigger] os[j]),
    ensures
        drained(os, n) is Some,
    decreases n,
{
    if n > 0 {
        lemma_never_nulled(os, (n - 1) as nat);
        assert(!nulls(os[n - 1]));
    }
}

/// The response name of a field outcome.
pub open spec fn name_of<T, S>(o: TaskOutcome<T, S>) -> Seq<char> {
    o->name@
}

/// Fields with distinct response names, none of which nulls the object:
/// the object's names come in the order in which the fields were
/// scheduled, whatever order their resolvers finished in.
pub proof fn law_response_order<T, S>(os: Seq<TaskOutcome<T, S>>)
    requires
        forall|i: int| 0 <= i < os.len() ==> #[trigger] os[i] is Field,
        forall|i: int, j: int| 0 <= i < j < os.len() ==> name_of(os[i]) != name_of(os[j]),
        assemble(os) is Object,
    ensures
        keys_of(assemble(os)->Object_0) == os.map_values(|o: TaskOutcome<T, S>| name_of(o)),
{
    lemma_order_prefix(os, os.len());
    assert(os.map_values(|o: TaskOutcome<T, S>| name_of(o)).take(os.len() as int) =~= os.map_values(
        |o: TaskOutcome<T, S>| name_of(o),
    ));
}

proof fn lemma_order_prefix<T, S>(os: Seq<TaskOutcome<T, S>>, n: nat)
    requires
        n <= os.len(),
        forall|i: int| 0 <= i < os.len() ==> #[trigger] os[i] is Field,
        forall|i: int, j: int| 0 <= i < j < os.len() ==> name_of(os[i]) != name_of(os[j]),
        drained(os, os.len()) is Some,
    ensures
        drained(os, n) is Some,
        keys_of(drained(os, n)->0) == os.map_values(|o: TaskOutcome<T, S>| name_of(o)).take(n as int),
    decreases n,
{
    let names = os.map_values(|o: TaskOutcome<T, S>| name_of(o));
    if drained(os, n) is None {
        lemma_nulled_stays(os, n, os.len());
    }
    if n == 0 {
        assert(keys_of(drained(os, n)->0) =~= names.take(0));
    } else {
        lemma_order_prefix(os, (n - 1) as nat);
        let fs = drained(os, (n - 1) as nat)->0;
        let k = name_of(os[n - 1]);
        assert(keys_of(fs).len() == fs.len());
        assert(fs.len() == n - 1);
        assert forall|j: int| 0 <= j < fs.len() implies fs[j].0 != k by {
            assert(keys_of(fs)[j] == fs[j].0);
            assert(names.take((n - 1) as int)[j] == names[j]);
            assert(names[j] == name_of(os[j]));
        }
        lemma_key_index(fs, k);
        let v = reduced(os[n - 1]->non_null, os[n - 1]->Field_result)->0;
        assert(drained(os, n)->0 == fs.push((k, v)));
        assert(names[n - 1] == k);
        assert(keys_of(fs.push((k, v))) =~= names.take(n as int));
    }
}

/// The position in the selection set that a unit was scheduled for.
pub open spec fn task_index(t: Task) -> int {
    match t {
        Task::Typename { index, .. } => index as int,
        Task::Field { index, .. } => index as int,
        Task::Spread { index, .. } => index as int,
        Task::Inline { index } => index as int,
    }
}

/// Planning keeps selection order: the units of a selection set come in
/// the order in which their selections are written, each pointing at its
/// own selection.
pub proof fn law_plan_follows_selection_order(
    meta: MetaType,
    frags: Seq<Fragment<DefaultScalarValue>>,
    vars: Seq<(String, InputValue<DefaultScalarValue>)>,
    sels: Seq<Selection<DefaultScalarValue>>,
)
    requires
        sels.len() <= usize::MAX,
        planned(meta, frags, vars, sels, sels.len()) is Ok,
    ensures
        ({
            let ts = planned(meta, frags, vars, sels, sels.len())->Ok_0;
            &&& forall|i: int, j: int| 0 <= i < j < ts.len() ==> task_index(ts[i]) < task_index(ts[j])
            &&& forall|i: int| 0 <= i < ts.len() ==> 0 <= #[trigger] task_index(ts[i]) < sels.len()
        }),
{
    lemma_plan_order(meta, frags, vars, sels, sels.len());
}

proof fn lemma_plan_order(
    meta: MetaType,
    frags: Seq<Fragment<DefaultScalarValue>>,
    vars: Seq<(String, InputValue<DefaultScalarValue>)>,
    sels: Seq<Selection<DefaultScalarValue>>,
    n: nat,
)
    requires
        n <= sels.len() <= usize::MAX,
        planned(meta, frags, vars, sels, n) is Ok,
    ensures
        ({
            let ts = planned(meta, frags, vars, sels, n)->Ok_0;
            &&& forall|i: int, j: int| 0 <= i < j < ts.len() ==> task_index(ts[i]) < task_index(ts[j])
            &&& forall|i: int| 0 <= i < ts.len() ==> 0 <= #[trigger] task_index(ts[i]) < n
        }),
    decreases n,
{
    if n > 0 {
        lemma_plan_order(meta, frags, vars, sels, (n - 1) as nat);
        let ts = planned(meta, frags, vars, sels, (n - 1) as nat)->Ok_0;
        match crate::plan::task_for(meta, frags, vars, sels[n - 1], (n - 1) as usize) {
            Some(Ok(t)) => {
                assert(task_index(t) == n - 1);
                let ts2 = ts.push(t);
                assert(forall|i: int| 0 <= i < ts.len() ==> ts2[i] == ts[i]);
            },
            _ => {},
        }
    }
}

/// Merging the fields of an object `b` into `a`: where `b` holds a value
/// that is no object under a name, the merged fields hold that value
/// under it, whatever `a` held there.
pub proof fn law_later_value_wins_in_merge<T>(a: FieldsModel<T>, b: FieldsModel<T>, j: int)
    requires
        keys_unique(b),
        0 <= j < b.len(),
        !(b[j].1 is Object),
    ensures
        slot(merge_fields(a, b), b[j].0) == Some(b[j].1),
{
    lemma_merge_prefix_last(a, ValueModel::Object(b), b.len(), j);
}

proof fn lemma_merge_prefix_last<T>(a: FieldsModel<T>, v: ValueModel<T>, n: nat, j: int)
    requires
        v is Object,
        keys_unique(v->Object_0),
        0 <= j < n <= v->Object_0.len(),
        !(v->Object_0[j].1 is Object),
    ensures
        slot(merge_prefix(a, v, n), v->Object_0[j].0) == Some(v->Object_0[j].1),
    decreases n,
{
    let b = v->Object_0;
    let k = b[j].0;
    let prev = merge_prefix(a, v, (n - 1) as nat);
    if n - 1 == j {
        let w = b[j].1;
        let g = merge_field(prev, k, w);
        lemma_key_index(prev, k);
        if key_index(prev, k) < 0 {
            assert(g == prev.push((k, w)));
            assert(is_first_key(g, k, prev.len() as int));
            lemma_key_index_first(g, k, prev.len() as int);
        } else {
            let idx = key_index(prev, k);
            assert(g == prev.update(idx, (k, w)));
            assert(is_first_key(g, k, idx));
            lemma_key_index_first(g, k, idx);
        }
    } else {
        lemma_merge_prefix_last(a, v, (n - 1) as nat, j);
        assert(b[n - 1].0 != k);
        lemma_merge_field_other(prev, b[n - 1].0, b[n - 1].1, k);
    }
}

/// Two results that a resolver could have returned on two runs with no
/// side effects: equal values, up to the identity of their strings, or
/// two failures.
pub open spec fn same_result<T, S>(a: Result<Value<T>, FieldError<S>>, b: Result<Value<T>, FieldError<S>>) -> bool {
    match (a, b) {
        (Ok(x), Ok(y)) => x.model() == y.model(),
        (Err(_), Err(_)) => true,
        _ => false,
    }
}

/// Two outcomes of the same unit on two runs.
pub open spec fn same_outcome<T, S>(a: TaskOutcome<T, S>, b: TaskOutcome<T, S>) -> bool {
    match (a, b) {
        (
            TaskOutcome::Field { name: n1, non_null: nn1, result: r1, .. },
            TaskOutcome::Field { name: n2, non_null: nn2, result: r2, .. },
        ) => n1@ == n2@ && nn1 == nn2 && same_result(r1, r2),
        (TaskOutcome::Nested(v1), TaskOutcome::Nested(v2)) => v1.model() == v2.model(),
        (TaskOutcome::Narrowed { result: r1, .. }, TaskOutcome::Narrowed { result: r2, .. }) => same_result(
            r1,
            r2,
        ),
        _ => false,
    }
}

/// Resolving a selection set twice, where the units produce the same
/// results on both runs, gives the same response tree, and records the
/// same number of errors.
pub proof fn law_resolution_deterministic<T, S>(os1: Seq<TaskOutcome<T, S>>, os2: Seq<TaskOutcome<T, S>>)
    requires
        os1.len() == os2.len(),
        forall|i: int| 0 <= i < os1.len() ==> same_outcome(#[trigger] os1[i], os2[i]),
    ensures
        assemble(os1) == assemble(os2),
        recorded(os1, os1.len()).len() == recorded(os2, os2.len()).len(),
{
    lemma_same_drain(os1, os2, os1.len());
}

proof fn lemma_same_drain<T, S>(os1: Seq<TaskOutcome<T, S>>, os2: Seq<TaskOutcome<T, S>>, n: nat)
    requires
        n <= os1.len() == os2.len(),
        forall|i: int| 0 <= i < os1.len() ==> same_outcome(#[trigger] os1[i], os2[i]),
    ensures
        drained(os1, n) == drained(os2, n),
        recorded(os1, n).len() == recorded(os2, n).len(),
    decreases n,
{
    if n > 0 {
        lemma_same_drain(os1, os2, (n - 1) as nat);
        assert(same_outcome(os1[n - 1], os2[n - 1]));
    }
}

} // verus!
