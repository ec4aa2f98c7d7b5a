use vstd::prelude::*;

verus! {

/// A node of the response tree. `T` is what a leaf holds: a scalar in
/// query mode, a handle on a stream of values in subscription mode.
pub enum Value<T> {
    Null,
    Scalar(T),
    List(Vec<Value<T>>),
    Object(Object<T>),
}

/// An ordered mapping from response field names to values.
/// Insertion order is kept; `wf` says that no name occurs twice.
pub struct Object<T> {
    pub key_value_list: Vec<(String, Value<T>)>,
}

/// The mathematical form of a `Value`: names are character sequences,
/// lists and objects are sequences.
pub enum ValueModel<T> {
    Null,
    Scalar(T),
    List(Seq<ValueModel<T>>),
    Object(Seq<(Seq<char>, ValueModel<T>)>),
}

impl<T> Value<T> {
    pub open spec fn model(&self) -> ValueModel<T>
        decreases self,
    {
        match self {
            Value::Null => ValueModel::Null,
            Value::Scalar(s) => ValueModel::Scalar(*s),
            Value::List(items) => ValueModel::List(
                Seq::new(
                    items@.len(),
                    |i: int|
                        if 0 <= i < items@.len() {
                            items@[i].model()
                        } else {
                            ValueModel::Null
                        },
                ),
            ),
            Value::Object(o) => ValueModel::Object(o.model()),
        }
    }

    /// The null value.
    pub fn null() -> (r: Value<T>)
        ensures
            r.model() == ValueModel::<T>::Null,
    {
        Value::Null
    }

    /// A leaf value.
    pub fn scalar(s: T) -> (r: Value<T>)
        ensures
            r.model() == ValueModel::Scalar(s),
    {
        Value::Scalar(s)
    }

    pub fn is_null(&self) -> (r: bool)
        ensures
            r == (self.model() is Null),
    {
        match self {
            Value::Null => true,
            _ => false,
        }
    }

    pub fn is_object(&self) -> (r: bool)
        ensures
            r == (self.model() is Object),
    {
        match self {
            Value::Object(_) => true,
            _ => false,
        }
    }
}

impl<T> Object<T> {
    pub open spec fn model(&self) -> Seq<(Seq<char>, ValueModel<T>)>
        decreases self,
    {
        Seq::new(
            self.key_value_list@.len(),
            |i: int|
                if 0 <= i < self.key_value_list@.len() {
                    (self.key_value_list@[i].0@, self.key_value_list@[i].1.model())
                } else {
                    (Seq::empty(), ValueModel::Null)
                },
        )
    }

    pub open spec fn wf(&self) -> bool {
        keys_unique(self.model())
    }

    /// An empty object.
    pub fn with_capacity(n: usize) -> (r: Object<T>)
        ensures
            r.model() == Seq::<(Seq<char>, ValueModel<T>)>::empty(),
            r.wf(),
    {
        Object { key_value_list: Vec::with_capacity(n) }
    }

    /// The number of fields.
    pub fn field_count(&self) -> (r: usize)
        ensures
            r == self.model().len(),
    {
        self.key_value_list.len()
    }

    /// The position of the first field named `k`, if there is one.
    pub fn find_key(&self, k: &String) -> (r: Option<usize>)
        ensures
            r is None ==> key_index(self.model(), k@) == -1,
            r is Some ==> key_index(self.model(), k@) == r->0 as int,
    {
        let ghost m = self.model();
        let n = self.key_value_list.len();
        let mut i: usize = 0;
        while i < n
            invariant
                n == self.key_value_list@.len(),
                m == self.model(),
                i <= n,
                forall|j: int| 0 <= j < i ==> m[j].0 != k@,
            decreases n - i,
        {
            if self.key_value_list[i].0 == *k {
                proof {
                    lemma_key_index_first(m, k@, i as int);
                }
                return Some(i);
            }
            i = i + 1;
        }
        proof {
            lemma_key_index_absent(m, k@);
        }
        None
    }

    /// The value of the field named `k`, if there is one.
    pub fn get_field_value(&self, k: &String) -> (r: Option<&Value<T>>)
        ensures
            key_index(self.model(), k@) == -1 ==> r is None,
            key_index(self.model(), k@) >= 0 ==> r is Some && r->0.model() == self.model()[key_index(
                self.model(),
                k@,
            )].1,
    {
        match self.find_key(k) {
            None => None,
            Some(i) => Some(&self.key_value_list[i].1),
        }
    }

    /// Sets the field named `k` to `v`, in place if the name is present,
    /// at the end otherwise.
    pub fn add_field(&mut self, k: String, v: Value<T>)
        ensures
            final(self).model() == set_field(old(self).model(), k@, v.model()),
            old(self).wf() ==> final(self).wf(),
    {
        let ghost m = self.model();
        let ghost km = k@;
        let ghost vm = v.model();
        match self.find_key(&k) {
            None => {
                self.key_value_list.push((k, v));
                assert(self.model() =~= m.push((km, vm)));
            },
            Some(i) => {
                self.key_value_list[i] = (k, v);
                assert(self.model() =~= m.update(i as int, (km, vm)));
            },
        }
        proof {
            lemma_set_field_keys(m, km, vm);
        }
    }
}

/// No name occurs twice among the fields.
pub open spec fn keys_unique<T>(fs: Seq<(Seq<char>, ValueModel<T>)>) -> bool {
    forall|i: int, j: int| 0 <= i < j < fs.len() ==> fs[i].0 != fs[j].0
}

/// The names of the fields, in order.
pub open spec fn keys_of<T>(fs: Seq<(Seq<char>, ValueModel<T>)>) -> Seq<Seq<char>> {
    fs.map_values(|p: (Seq<char>, ValueModel<T>)| p.0)
}

/// The position of the first field named `k`, or -1.
pub open spec fn key_index<T>(fs: Seq<(Seq<char>, ValueModel<T>)>, k: Seq<char>) -> int {
    if exists|i: int| is_first_key(fs, k, i) {
        choose|i: int| is_first_key(fs, k, i)
    } else {
        -1
    }
}

pub open spec fn is_first_key<T>(fs: Seq<(Seq<char>, ValueModel<T>)>, k: Seq<char>, i: int) -> bool {
    &&& 0 <= i < fs.len()
    &&& fs[i].0 == k
    &&& forall|j: int| 0 <= j < i ==> fs[j].0 != k
}

/// The field named `k` set to `v`: replaced where it stands, or appended.
pub open spec fn set_field<T>(fs: Seq<(Seq<char>, ValueModel<T>)>, k: Seq<char>, v: ValueModel<T>) -> Seq<
    (Seq<char>, ValueModel<T>),
> {
    let idx = key_index(fs, k);
    if idx < 0 {
        fs.push((k, v))
    } else {
        fs.update(idx, (k, v))
    }
}

/// Merges `v` under the name `k`: where both the present value and `v` are
/// objects their fields are merged one by one, otherwise the later value
/// wins.
pub open spec fn merge_field<T>(fs: Seq<(Seq<char>, ValueModel<T>)>, k: Seq<char>, v: ValueModel<T>) -> Seq<
    (Seq<char>, ValueModel<T>),
>
    decreases v, 1nat, 0nat,
{
    let idx = key_index(fs, k);
    if idx < 0 {
        fs.push((k, v))
    } else {
        match (fs[idx].1, v) {
            (ValueModel::Object(a), ValueModel::Object(b)) => fs.update(
                idx,
                (k, ValueModel::Object(merge_prefix(a, v, b.len()))),
            ),
            _ => fs.update(idx, (k, v)),
        }
    }
}

/// Merges the first `n` fields of the object `v` into `a`, in order.
pub open spec fn merge_prefix<T>(a: Seq<(Seq<char>, ValueModel<T>)>, v: ValueModel<T>, n: nat) -> Seq<
    (Seq<char>, ValueModel<T>),
>
    decreases v, 0nat, n,
{
    match v {
        ValueModel::Object(b) => {
            if n == 0 || n > b.len() {
                a
            } else {
                merge_field(merge_prefix(a, v, (n - 1) as nat), b[n - 1].0, b[n - 1].1)
            }
        },
        _ => a,
    }
}

/// Merges every field of `b` into `a`, in order.
pub open spec fn merge_fields<T>(
    a: Seq<(Seq<char>, ValueModel<T>)>,
    b: Seq<(Seq<char>, ValueModel<T>)>,
) -> Seq<(Seq<char>, ValueModel<T>)> {
    merge_prefix(a, ValueModel::Object(b), b.len())
}

pub proof fn lemma_key_index_first<T>(fs: Seq<(Seq<char>, ValueModel<T>)>, k: Seq<char>, i: int)
    requires
        is_first_key(fs, k, i),
    ensures
        key_index(fs, k) == i,
{
    let c = choose|c: int| is_first_key(fs, k, c);
    assert(is_first_key(fs, k, c));
    if c < i {
        assert(fs[c].0 != k);
    } else if c > i {
        assert(fs[i].0 != k);
    }
}

pub proof fn lemma_key_index_absent<T>(fs: Seq<(Seq<char>, ValueModel<T>)>, k: Seq<char>)
    requires
        forall|j: int| 0 <= j < fs.len() ==> fs[j].0 != k,
    ensures
        key_index(fs, k) == -1,
{
}

/// `key_index` is -1 exactly when no field has the name, and otherwise
/// points at a field with it.
pub proof fn lemma_key_index<T>(fs: Seq<(Seq<char>, ValueModel<T>)>, k: Seq<char>)
    ensures
        key_index(fs, k) == -1 <==> (forall|j: int| 0 <= j < fs.len() ==> fs[j].0 != k),
        key_index(fs, k) != -1 ==> is_first_key(fs, k, key_index(fs, k)),
{
    if exists|j: int| 0 <= j < fs.len() && fs[j].0 == k {
        let j = choose|j: int| 0 <= j < fs.len() && fs[j].0 == k;
        lemma_first_exists(fs, k, j);
    }
}

proof fn lemma_first_exists<T>(fs: Seq<(Seq<char>, ValueModel<T>)>, k: Seq<char>, j: int)
    requires
        0 <= j < fs.len(),
        fs[j].0 == k,
    ensures
        exists|i: int| is_first_key(fs, k, i),
    decreases j,
{
    if forall|m: int| 0 <= m < j ==> fs[m].0 != k {
        assert(is_first_key(fs, k, j));
    } else {
        let m = choose|m: int| 0 <= m < j && fs[m].0 == k;
        lemma_first_exists(fs, k, m);
    }
}

/// Setting or merging a field keeps the names unique and puts `k` among them.
pub proof fn lemma_set_field_keys<T>(fs: Seq<(Seq<char>, ValueModel<T>)>, k: Seq<char>, v: ValueModel<T>)
    ensures
        keys_unique(fs) ==> keys_unique(set_field(fs, k, v)),
        keys_unique(fs) ==> keys_unique(merge_field(fs, k, v)),
        key_index(fs, k) >= 0 ==> set_field(fs, k, v).len() == fs.len(),
        key_index(fs, k) >= 0 ==> merge_field(fs, k, v).len() == fs.len(),
        key_index(fs, k) < 0 ==> set_field(fs, k, v).len() == fs.len() + 1,
        key_index(fs, k) < 0 ==> merge_field(fs, k, v).len() == fs.len() + 1,
        keys_of(set_field(fs, k, v)) == keys_of(merge_field(fs, k, v)),
{
    lemma_key_index(fs, k);
    let s = set_field(fs, k, v);
    let g = merge_field(fs, k, v);
    assert(keys_of(s) =~= keys_of(g));
}

/// Merges `v` into `obj` under the name `k` (see `merge_field`).
pub fn merge_key_into<T>(obj: &mut Object<T>, k: String, v: Value<T>)
    ensures
        final(obj).model() == merge_field(old(obj).model(), k@, v.model()),
        old(obj).wf() ==> final(obj).wf(),
    decreases v,
{
    let ghost m = obj.model();
    let ghost km = k@;
    let ghost vm = v.model();
    proof {
        lemma_set_field_keys(m, km, vm);
    }
    match obj.find_key(&k) {
        None => {
            obj.key_value_list.push((k, v));
            assert(obj.model() =~= m.push((km, vm)));
        },
        Some(i) => {
            let both_objects = obj.key_value_list[i].1.is_object() && v.is_object();
            if both_objects {
                let mut slot: (String, Value<T>) = (String::new(), Value::Null);
                std::mem::swap(&mut obj.key_value_list[i], &mut slot);
                let ghost am = slot.1.model();
                match (slot.1, v) {
                    (Value::Object(mut a), Value::Object(b)) => {
                        merge_all_into(&mut a, b);
                        obj.key_value_list[i] = (k, Value::Object(a));
                        assert(obj.model() =~= m.update(i as int, (km, ValueModel::Object(merge_prefix(am->Object_0, vm, vm->Object_0.len())))));
                    },
                    _ => {
                        assert(false);
                    },
                }
            } else {
                obj.key_value_list[i] = (k, v);
                assert(obj.model() =~= m.update(i as int, (km, vm)));
            }
        },
    }
}

/// Merges every field of `b` into `a`, in order.
pub fn merge_all_into<T>(a: &mut Object<T>, b: Object<T>)
    ensures
        final(a).model() == merge_fields(old(a).model(), b.model()),
        old(a).wf() ==> final(a).wf(),
    decreases b,
{
    let ghost a0 = a.model();
    let ghost bm = b.model();
    let ghost vm = ValueModel::Object(bm);
    let ghost bo = b;
    let mut list = b.key_value_list;
    let n = list.len();
    let mut j: usize = 0;
    while j < n
        invariant
            n == list@.len(),
            n == bm.len(),
            j <= n,
            bo.key_value_list@.len() == n,
            bm == bo.model(),
            vm == ValueModel::Object(bm),
            bo == b,
            forall|x: int| j <= x < n ==> list@[x] == bo.key_value_list@[x],
            a.model() == merge_prefix(a0, vm, j as nat),
            keys_unique(a0) ==> keys_unique(a.model()),
        decreases n - j,
    {
        let mut entry: (String, Value<T>) = (String::new(), Value::Null);
        std::mem::swap(&mut list[j], &mut entry);
        proof {
            assert(entry == bo.key_value_list@[j as int]);
            assert(decreases_to!(bo => bo.key_value_list));
            assert(decreases_to!(bo.key_value_list => bo.key_value_list@[j as int]));
            assert(decreases_to!(bo => entry.1));
            lemma_set_field_keys(a.model(), entry.0@, entry.1.model());
            assert(bm[j as int] == (entry.0@, entry.1.model()));
            assert(vm->Object_0 == bm);
        }
        merge_key_into(a, entry.0, entry.1);
        j = j + 1;
    }
}

} // verus!
