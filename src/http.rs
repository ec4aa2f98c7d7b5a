use vstd::prelude::*;

use crate::plan::{first_where, lemma_first_where, DefaultScalarValue, Fragment, InputValue, Selection, Variables};
use crate::resolve::{ExecutionError, FieldError, SourcePosition};
use crate::value::{Object, Value, ValueModel};

verus! {

/// Whether `b` is a copy of `a`: the same shape, the same names and the
/// same leaves.
pub open spec fn same_input(a: InputValue<DefaultScalarValue>, b: InputValue<DefaultScalarValue>) -> bool
    decreases a,
{
    match (a, b) {
        (InputValue::Null, InputValue::Null) => true,
        (InputValue::Scalar(x), InputValue::Scalar(y)) => same_scalar(x, y),
        (InputValue::Enum(x), InputValue::Enum(y)) => x@ == y@,
        (InputValue::Variable(x), InputValue::Variable(y)) => x@ == y@,
        (InputValue::List(xs), InputValue::List(ys)) => {
            &&& xs@.len() == ys@.len()
            &&& forall|i: int| 0 <= i < xs@.len() ==> same_input(xs@[i], ys@[i])
        },
        (InputValue::Object(xs), InputValue::Object(ys)) => {
            &&& xs@.len() == ys@.len()
            &&& forall|i: int|
                0 <= i < xs@.len() ==> xs@[i].0@ == ys@[i].0@ && same_input(xs@[i].1, ys@[i].1)
        },
        _ => false,
    }
}

pub open spec fn same_scalar(a: DefaultScalarValue, b: DefaultScalarValue) -> bool {
    match (a, b) {
        (DefaultScalarValue::Int(x), DefaultScalarValue::Int(y)) => x == y,
        (DefaultScalarValue::String(x), DefaultScalarValue::String(y)) => x@ == y@,
        (DefaultScalarValue::Boolean(x), DefaultScalarValue::Boolean(y)) => x == y,
        _ => false,
    }
}

impl DefaultScalarValue {
    pub fn copy(&self) -> (r: DefaultScalarValue)
        ensures
            same_scalar(*self, r),
    {
        match self {
            DefaultScalarValue::Int(x) => DefaultScalarValue::Int(*x),
            DefaultScalarValue::String(s) => DefaultScalarValue::String(s.clone()),
            DefaultScalarValue::Boolean(b) => DefaultScalarValue::Boolean(*b),
        }
    }
}

impl InputValue<DefaultScalarValue> {
    /// A deep copy.
    pub fn copy(&self) -> (r: InputValue<DefaultScalarValue>)
        ensures
            same_input(*self, r),
        decreases self,
    {
        match self {
            InputValue::Null => InputValue::Null,
            InputValue::Scalar(s) => InputValue::Scalar(s.copy()),
            InputValue::Enum(s) => InputValue::Enum(s.clone()),
            InputValue::Variable(s) => InputValue::Variable(s.clone()),
            InputValue::List(xs) => {
                let n = xs.len();
                assert(decreases_to!(*self => *xs));
                let mut out: Vec<InputValue<DefaultScalarValue>> = Vec::with_capacity(n);
                let mut i: usize = 0;
                while i < n
                    invariant
                        n == xs@.len(),
                        i <= n,
                        out@.len() == i,
                        *self == InputValue::<DefaultScalarValue>::List(*xs),
                        decreases_to!(*self => *xs),
                        forall|j: int| 0 <= j < i ==> same_input(xs@[j], out@[j]),
                    decreases n - i,
                {
                    proof {
                        assert(decreases_to!(*xs => xs@[i as int]));
                        assert(decreases_to!(*self => *xs));
                        assert(decreases_to!(*self => xs@[i as int]));
                    }
                    let c = xs[i].copy();
                    out.push(c);
                    i = i + 1;
                }
                InputValue::List(out)
            },
            InputValue::Object(xs) => {
                let n = xs.len();
                assert(decreases_to!(*self => *xs));
                let mut out: Vec<(String, InputValue<DefaultScalarValue>)> = Vec::with_capacity(n);
                let mut i: usize = 0;
                while i < n
                    invariant
                        n == xs@.len(),
                        i <= n,
                        out@.len() == i,
                        *self == InputValue::<DefaultScalarValue>::Object(*xs),
                        decreases_to!(*self => *xs),
                        forall|j: int|
                            0 <= j < i ==> xs@[j].0@ == out@[j].0@ && same_input(xs@[j].1, out@[j].1),
                    decreases n - i,
                {
                    proof {
                        assert(decreases_to!(*xs => xs@[i as int]));
                        assert(decreases_to!(*self => *xs));
                        assert(decreases_to!(*xs => xs@[i as int].1));
                        assert(decreases_to!(*self => xs@[i as int].1));
                    }
                    let c = xs[i].1.copy();
                    out.push((xs[i].0.clone(), c));
                    i = i + 1;
                }
                InputValue::Object(out)
            },
        }
    }
}

/// The entries of `vars` are those of `fs` by name, each holding a copy
/// of the last value given for its name in `fs`.
pub open spec fn variables_from(
    fs: Seq<(String, InputValue<DefaultScalarValue>)>,
    vars: Seq<(String, InputValue<DefaultScalarValue>)>,
) -> bool {
    &&& forall|a: int, b: int| 0 <= a < b < vars.len() ==> vars[a].0@ != vars[b].0@
    &&& forall|m: int| 0 <= m < fs.len() ==> has_name(vars, #[trigger] fs[m].0@)
    &&& forall|j: int| 0 <= j < vars.len() ==> has_source(fs, #[trigger] vars[j])
}

/// Some entry of `vars` is named `k`.
pub open spec fn has_name(vars: Seq<(String, InputValue<DefaultScalarValue>)>, k: Seq<char>) -> bool {
    exists|j: int| 0 <= j < vars.len() && vars[j].0@ == k
}

/// `e` is named and valued after the last entry of `fs` under its name.
pub open spec fn has_source(fs: Seq<(String, InputValue<DefaultScalarValue>)>, e: (String, InputValue<DefaultScalarValue>)) -> bool {
    exists|m: int| 0 <= m < fs.len() && is_last_for(fs, e, m)
}

/// `fs[m]` is the last entry of `fs` under `e`'s name, and `e` holds a copy
/// of its value.
pub open spec fn is_last_for(
    fs: Seq<(String, InputValue<DefaultScalarValue>)>,
    e: (String, InputValue<DefaultScalarValue>),
    m: int,
) -> bool {
    &&& fs[m].0@ == e.0@
    &&& same_input(fs[m].1, e.1)
    &&& forall|x: int| m < x < fs.len() ==> fs[x].0@ != e.0@
}

/// The kind of failure that keeps a request from running at all.
pub enum GraphQLError {
    ParseError(String),
    ValidationError(Vec<String>),
    NoOperationProvided,
    MultipleOperationsProvided,
    UnknownOperationName,
    IsSubscription,
}

/// A request: the document, the operation to run, and its variables.
pub struct GraphQLRequest<S> {
    pub query: String,
    pub operation_name: Option<String>,
    pub variables: Option<InputValue<S>>,
}

impl<S> GraphQLRequest<S> {
    /// A request from its parts.
    pub fn new(query: String, operation_name: Option<String>, variables: Option<InputValue<S>>) -> (r: Self)
        ensures
            r.query == query,
            r.operation_name == operation_name,
            r.variables == variables,
    {
        GraphQLRequest { query, operation_name, variables }
    }

    /// The name of the operation to run, if the request gives one.
    pub fn operation_name(&self) -> (r: Option<&str>)
        ensures
            r is Some <==> self.operation_name is Some,
            r is Some ==> r->0@ == self.operation_name->0@,
    {
        match &self.operation_name {
            Some(name) => Some(name.as_str()),
            None => None,
        }
    }
}

impl GraphQLRequest<DefaultScalarValue> {
    /// The variables by name: the fields of the `variables` object, the
    /// last one winning where a name repeats; none where `variables` is
    /// absent or no object.
    pub fn variables(&self) -> (r: Variables<DefaultScalarValue>)
        ensures
            variables_of(self.variables, r.entries@),
            r.wf(),
    {
        match &self.variables {
            Some(InputValue::Object(fs)) => {
                let n = fs.len();
                let mut entries: Vec<(String, InputValue<DefaultScalarValue>)> = Vec::new();
                let mut i: usize = 0;
                while i < n
                    invariant
                        n == fs@.len(),
                        i <= n,
                        variables_from(fs@.take(i as int), entries@),
                    decreases n - i,
                {
                    let ghost before = entries@;
                    let k = &fs[i].0;
                    let v = fs[i].1.copy();
                    let entry = (k.clone(), v);
                    let ghost e = entry;
                    match crate::plan::find_named(&entries, k) {
                        Some(p) => {
                            entries[p] = entry;
                            proof {
                                lemma_variables_replace(fs@, i as int, before, e, p as int);
                                assert(entries@ == before.update(p as int, e));
                            }
                        },
                        None => {
                            entries.push(entry);
                            proof {
                                assert forall|j: int| 0 <= j < before.len() implies before[j].0@ != k@ by {
                                    if before[j].0@ == k@ {
                                        lemma_named_exists(before, k@, j);
                                    }
                                }
                                lemma_variables_push(fs@, i as int, before, e);
                            }
                        },
                    }
                    i = i + 1;
                }
                assert(fs@.take(n as int) =~= fs@);
                Variables { entries }
            },
            _ => Variables::new(),
        }
    }

    /// Runs the request: hands its query, its operation name and its
    /// variables to `run`, which parses, validates and executes the
    /// document, and wraps what `run` returned.
    pub fn execute<F>(&self, run: F) -> (r: GraphQLResponse<DefaultScalarValue>)
        where
            F: Fn(&str, Option<&str>, &Variables<DefaultScalarValue>) -> Result<
                (Value<DefaultScalarValue>, Vec<ExecutionError<DefaultScalarValue>>),
                GraphQLError,
            >,
        requires
            (forall|q: &str, o: Option<&str>, v: &Variables<DefaultScalarValue>| run.requires((q, o, v))),
        ensures
            (exists|q: &str, o: Option<&str>, v: &Variables<DefaultScalarValue>|
                {
                    &&& q@ == self.query@
                    &&& opt_view(o) == string_opt_view(self.operation_name)
                    &&& variables_of(self.variables, v.entries@)
                    &&& run.ensures((q, o, v), r.0)
                }),
    {
        let vars = self.variables();
        let q = self.query.as_str();
        let o = self.operation_name();
        let result = run(q, o, &vars);
        assert(opt_view(o) == string_opt_view(self.operation_name));
        GraphQLResponse(result)
    }
}

/// The variables that a request's `variables` value gives.
pub open spec fn variables_of(
    given: Option<InputValue<DefaultScalarValue>>,
    vars: Seq<(String, InputValue<DefaultScalarValue>)>,
) -> bool {
    match given {
        Some(InputValue::Object(fs)) => variables_from(fs@, vars),
        _ => vars.len() == 0,
    }
}

pub open spec fn string_opt_view(name: Option<String>) -> Option<Seq<char>> {
    match name {
        Some(k) => Some(k@),
        None => None,
    }
}

proof fn lemma_variables_replace(
    fs: Seq<(String, InputValue<DefaultScalarValue>)>,
    i: int,
    before: Seq<(String, InputValue<DefaultScalarValue>)>,
    e: (String, InputValue<DefaultScalarValue>),
    p: int,
)
    requires
        0 <= i < fs.len(),
        variables_from(fs.take(i), before),
        0 <= p < before.len(),
        before[p].0@ == fs[i].0@,
        e.0@ == fs[i].0@,
        same_input(fs[i].1, e.1),
    ensures
        variables_from(fs.take(i + 1), before.update(p, e)),
{
    let pre = fs.take(i);
    let post = fs.take(i + 1);
    let after = before.update(p, e);
    assert(post[i] == fs[i]);
    assert forall|j: int| 0 <= j < after.len() implies has_source(post, #[trigger] after[j]) by {
        if j != p {
            assert(after[j] == before[j]);
            assert(has_source(pre, before[j]));
            let m = choose|m: int| 0 <= m < pre.len() && is_last_for(pre, before[j], m);
            assert(post[m] == pre[m]);
            assert(is_last_for(post, after[j], m));
        } else {
            assert(is_last_for(post, after[j], i));
        }
    }
    assert forall|m: int| 0 <= m < post.len() implies has_name(after, #[trigger] post[m].0@) by {
        if m < i {
            assert(post[m] == pre[m]);
            assert(has_name(before, pre[m].0@));
            let j = choose|j: int| 0 <= j < before.len() && before[j].0@ == pre[m].0@;
            if j == p {
                assert(after[j].0@ == post[m].0@);
            } else {
                assert(after[j] == before[j]);
            }
        } else {
            assert(after[p].0@ == post[m].0@);
        }
    }
    assert forall|a: int, b: int| 0 <= a < b < after.len() implies after[a].0@ != after[b].0@ by {
        if a != p {
            assert(after[a] == before[a]);
        }
        if b != p {
            assert(after[b] == before[b]);
        }
    }
}

proof fn lemma_variables_push(
    fs: Seq<(String, InputValue<DefaultScalarValue>)>,
    i: int,
    before: Seq<(String, InputValue<DefaultScalarValue>)>,
    e: (String, InputValue<DefaultScalarValue>),
)
    requires
        0 <= i < fs.len(),
        variables_from(fs.take(i), before),
        forall|j: int| 0 <= j < before.len() ==> before[j].0@ != fs[i].0@,
        e.0@ == fs[i].0@,
        same_input(fs[i].1, e.1),
    ensures
        variables_from(fs.take(i + 1), before.push(e)),
{
    let pre = fs.take(i);
    let post = fs.take(i + 1);
    let after = before.push(e);
    assert(post[i] == fs[i]);
    assert forall|j: int| 0 <= j < after.len() implies has_source(post, #[trigger] after[j]) by {
        if j < before.len() {
            assert(after[j] == before[j]);
            assert(has_source(pre, before[j]));
            let m = choose|m: int| 0 <= m < pre.len() && is_last_for(pre, before[j], m);
            assert(post[m] == pre[m]);
            assert(is_last_for(post, after[j], m));
        } else {
            assert(is_last_for(post, after[j], i));
        }
    }
    assert forall|m: int| 0 <= m < post.len() implies has_name(after, #[trigger] post[m].0@) by {
        if m < i {
            assert(post[m] == pre[m]);
            assert(has_name(before, pre[m].0@));
            let j = choose|j: int| 0 <= j < before.len() && before[j].0@ == pre[m].0@;
            assert(after[j] == before[j]);
        } else {
            assert(after[before.len() as int].0@ == post[m].0@);
        }
    }
    assert forall|a: int, b: int| 0 <= a < b < after.len() implies after[a].0@ != after[b].0@ by {
        assert(after[a] == before[a]);
        if b < before.len() {
            assert(after[b] == before[b]);
        }
    }
}

proof fn lemma_named_exists<V>(s: Seq<(String, V)>, k: Seq<char>, j: int)
    requires
        0 <= j < s.len(),
        s[j].0@ == k,
    ensures
        crate::plan::first_named(s, k) != -1,
    decreases j,
{
    if exists|m: int| 0 <= m < j && s[m].0@ == k {
        let m = choose|m: int| 0 <= m < j && s[m].0@ == k;
        lemma_named_exists(s, k, m);
    } else {
        assert(0 <= j < s.len() && s[j].0@ == k && (forall|x: int| 0 <= x < j ==> s[x].0@ != k));
    }
}

/// The outcome of running a query or mutation: its data and the errors
/// recorded on the way, or the failure that kept it from running.
pub struct GraphQLResponse<S>(pub Result<(Value<S>, Vec<ExecutionError<S>>), GraphQLError>);

/// An entry of the response envelope, in the order in which it is written.
#[derive(PartialEq, Eq, Debug, Clone, Copy)]
pub enum EnvelopeKey {
    Data,
    Errors,
}

/// The entries of the envelope of `r`: `data` on success, with `errors`
/// after it where errors were recorded; `errors` alone on failure.
pub open spec fn envelope_of<S>(r: Result<(Value<S>, Vec<ExecutionError<S>>), GraphQLError>) -> Seq<EnvelopeKey> {
    match r {
        Ok((_, errs)) => if errs@.len() == 0 {
            seq![EnvelopeKey::Data]
        } else {
            seq![EnvelopeKey::Data, EnvelopeKey::Errors]
        },
        Err(_) => seq![EnvelopeKey::Errors],
    }
}

impl<S> GraphQLResponse<S> {
    /// A response that wraps `r`.
    pub fn from_result(r: Result<(Value<S>, Vec<ExecutionError<S>>), GraphQLError>) -> (res: Self)
        ensures
            res.0 == r,
    {
        GraphQLResponse(r)
    }

    /// A response with null data and the one error `error`, at the start of
    /// the document.
    pub fn error(error: FieldError<S>) -> (res: Self)
        ensures
            res.0 is Ok,
            res.0->Ok_0.0.model() is Null,
            res.0->Ok_0.1@.len() == 1,
            res.0->Ok_0.1@[0].error == error,
            res.0->Ok_0.1@[0].location == (SourcePosition { line: 0, column: 0 }),
            res.0->Ok_0.1@[0].path@.len() == 0,
    {
        let mut errors: Vec<ExecutionError<S>> = Vec::new();
        errors.push(ExecutionError::at_origin(error));
        GraphQLResponse(Ok((Value::Null, errors)))
    }

    /// Whether the request ran; errors may still have been recorded.
    pub fn is_ok(&self) -> (r: bool)
        ensures
            r == (self.0 is Ok),
    {
        self.0.is_ok()
    }

    /// The entries that the envelope of this response holds, in order.
    pub fn envelope_keys(&self) -> (r: Vec<EnvelopeKey>)
        ensures
            r@ == envelope_of(self.0),
    {
        let mut keys: Vec<EnvelopeKey> = Vec::new();
        match &self.0 {
            Ok((_, errs)) => {
                keys.push(EnvelopeKey::Data);
                if errs.len() > 0 {
                    keys.push(EnvelopeKey::Errors);
                }
            },
            Err(_) => {
                keys.push(EnvelopeKey::Errors);
            },
        }
        assert(keys@ =~= envelope_of(self.0));
        keys
    }

    /// The response to one event of a subscription whose one top-level
    /// field is `field_name`: `{field_name: event}` with no errors.
    pub fn from_event(field_name: String, event: Value<S>) -> (res: Self)
        ensures
            res.0 is Ok,
            res.0->Ok_0.1@.len() == 0,
            res.0->Ok_0.0.model() == ValueModel::Object(seq![(field_name@, event.model())]),
    {
        let ghost k = field_name@;
        let ghost em = event.model();
        let mut object: Object<S> = Object::with_capacity(1);
        object.add_field(field_name, event);
        proof {
            crate::value::lemma_key_index(Seq::<(Seq<char>, ValueModel<S>)>::empty(), k);
        }
        assert(object.model() =~= seq![(k, em)]);
        GraphQLResponse(Ok((Value::Object(object), Vec::new())))
    }
}

/// The response to one item of a subscription's stream: the item's data,
/// wrapped in an object of the one top-level field where `field` names
/// it; or, for a failed item, null data with its error.
pub fn response_for_event<S>(field: Option<String>, item: Result<Value<S>, FieldError<S>>) -> (res: GraphQLResponse<S>)
    ensures
        res.0 is Ok,
        item is Err ==> res.0->Ok_0.0.model() is Null && res.0->Ok_0.1@.len() == 1 && res.0->Ok_0.1@[0].error
            == item->Err_0,
        item is Err ==> res.0->Ok_0.1@[0].location == (SourcePosition { line: 0, column: 0 })
            && res.0->Ok_0.1@[0].path@.len() == 0,
        item is Ok ==> res.0->Ok_0.1@.len() == 0,
        item is Ok && field is None ==> res.0->Ok_0.0 == item->Ok_0,
        item is Ok && field is Some ==> res.0->Ok_0.0.model() == ValueModel::Object(
            seq![(field->0@, item->Ok_0.model())],
        ),
{
    match item {
        Err(e) => GraphQLResponse::error(e),
        Ok(v) => match field {
            None => GraphQLResponse(Ok((v, Vec::new()))),
            Some(name) => GraphQLResponse::from_event(name, v),
        },
    }
}

/// What an operation does.
#[derive(PartialEq, Eq, Structural, Clone, Copy, Debug)]
pub enum OperationType {
    Query,
    Mutation,
    Subscription,
}

/// One operation of a document.
pub struct Operation<S> {
    pub name: Option<String>,
    pub operation_type: OperationType,
    pub selection_set: Vec<Selection<S>>,
}

/// A parsed document: its operations and its named fragments.
pub struct Document<S> {
    pub operations: Vec<Operation<S>>,
    pub fragments: Vec<Fragment<S>>,
}

pub open spec fn operation_named<S>(k: Seq<char>) -> spec_fn(Operation<S>) -> bool {
    |o: Operation<S>| o.name is Some && o.name->0@ == k
}

/// The operation that a request runs: the one named, or the only one.
pub open spec fn operation_choice<S>(ops: Seq<Operation<S>>, name: Option<Seq<char>>) -> Result<int, GraphQLError> {
    match name {
        None => if ops.len() == 0 {
            Err(GraphQLError::NoOperationProvided)
        } else if ops.len() == 1 {
            Ok(0)
        } else {
            Err(GraphQLError::MultipleOperationsProvided)
        },
        Some(k) => {
            let i = first_where(ops, operation_named(k));
            if i < 0 {
                Err(GraphQLError::UnknownOperationName)
            } else {
                Ok(i)
            }
        },
    }
}

/// The operation to run for a request that expects `expected`: the chosen
/// one, unless a subscription is run where a query or mutation is
/// expected.
pub open spec fn operation_for_spec<S>(ops: Seq<Operation<S>>, name: Option<Seq<char>>, expected: OperationType) -> Result<int, GraphQLError> {
    match operation_choice(ops, name) {
        Err(e) => Err(e),
        Ok(i) => if ops[i].operation_type == OperationType::Subscription && expected != OperationType::Subscription {
            Err(GraphQLError::IsSubscription)
        } else {
            Ok(i)
        },
    }
}

/// Picks the operation to run, as `select_operation` does, and refuses a
/// subscription where a query or mutation is expected.
pub fn operation_for<S>(document: &Document<S>, name: Option<&str>, expected: OperationType) -> (r: Result<usize, GraphQLError>)
    ensures
        r is Ok <==> operation_for_spec(document.operations@, opt_view(name), expected) is Ok,
        r is Ok ==> operation_for_spec(document.operations@, opt_view(name), expected) == Ok::<int, GraphQLError>(
            r->Ok_0 as int,
        ),
        r is Err ==> operation_for_spec(document.operations@, opt_view(name), expected) == Err::<int, GraphQLError>(
            r->Err_0,
        ),
{
    let i = select_operation(document, name)?;
    if document.operations[i].operation_type == OperationType::Subscription && expected != OperationType::Subscription {
        Err(GraphQLError::IsSubscription)
    } else {
        Ok(i)
    }
}

/// Picks the operation to run: the one named `name`, or, without a name,
/// the only one of the document.
pub fn select_operation<S>(document: &Document<S>, name: Option<&str>) -> (r: Result<usize, GraphQLError>)
    ensures
        r is Ok <==> operation_choice(document.operations@, opt_view(name)) is Ok,
        r is Ok ==> operation_choice(document.operations@, opt_view(name)) == Ok::<int, GraphQLError>(
            r->Ok_0 as int,
        ),
        r is Err ==> operation_choice(document.operations@, opt_view(name)) == Err::<int, GraphQLError>(
            r->Err_0,
        ),
{
    let ops = &document.operations;
    match name {
        None => {
            if ops.len() == 0 {
                Err(GraphQLError::NoOperationProvided)
            } else if ops.len() == 1 {
                Ok(0)
            } else {
                Err(GraphQLError::MultipleOperationsProvided)
            }
        },
        Some(k) => {
            let ghost p = operation_named::<S>(k@);
            let key = k.to_owned();
            let n = ops.len();
            let mut i: usize = 0;
            while i < n
                invariant
                    n == ops@.len(),
                    i <= n,
                    key@ == k@,
                    opt_view(name) == Some(k@),
                    ops@ == document.operations@,
                    p == operation_named::<S>(k@),
                    forall|j: int| 0 <= j < i ==> !p(ops@[j]),
                decreases n - i,
            {
                let hit = match &ops[i].name {
                    Some(op_name) => *op_name == key,
                    None => false,
                };
                if hit {
                    proof {
                        assert(p(ops@[i as int]));
                        lemma_first_where(ops@, p, i as int);
                    }
                    return Ok(i);
                }
                assert(!p(ops@[i as int]));
                i = i + 1;
            }
            proof {
                lemma_first_where(ops@, p, n as int);
            }
            Err(GraphQLError::UnknownOperationName)
        },
    }
}

pub open spec fn opt_view(name: Option<&str>) -> Option<Seq<char>> {
    match name {
        Some(k) => Some(k@),
        None => None,
    }
}

/// Where the responses of a resolved subscription come from.
pub enum EventSource<T> {
    /// The value was null: there is nothing to stream.
    Nothing,
    /// A bare stream, each of whose values is a whole response's data.
    Whole(T),
    /// The stream of the one top-level field, named here.
    Field(String, T),
    /// Anything else, which has no default way to be streamed.
    Unsupported,
}

/// Where the responses of a subscription that resolved to `v` come from.
pub open spec fn event_source_of<T>(v: Value<T>) -> EventSource<T> {
    match v {
        Value::Null => EventSource::Nothing,
        Value::Scalar(s) => EventSource::Whole(s),
        Value::Object(o) => if o.key_value_list@.len() == 1 {
            match o.key_value_list@[0].1 {
                Value::Scalar(s) => EventSource::Field(o.key_value_list@[0].0, s),
                _ => EventSource::Unsupported,
            }
        } else {
            EventSource::Unsupported
        },
        Value::List(_) => EventSource::Unsupported,
    }
}

/// Picks what a resolved subscription streams from: a bare stream, or the
/// stream of its one top-level field, which each event re-wraps in an
/// object of that one field.
pub fn event_source<T>(v: Value<T>) -> (r: EventSource<T>)
    ensures
        r == event_source_of(v),
{
    match v {
        Value::Null => EventSource::Nothing,
        Value::Scalar(s) => EventSource::Whole(s),
        Value::Object(o) => {
            let ghost kvl = o.key_value_list@;
            let mut list = o.key_value_list;
            if list.len() == 1 {
                let (name, field) = list.pop().unwrap();
                assert((name, field) == kvl[0]);
                match field {
                    Value::Scalar(s) => EventSource::Field(name, s),
                    _ => EventSource::Unsupported,
                }
            } else {
                EventSource::Unsupported
            }
        },
        Value::List(_) => EventSource::Unsupported,
    }
}

/// The result of a subscription resolved into iterators.
pub struct IteratorGraphQLResponse<T>(pub Result<Value<T>, GraphQLError>);

impl<T> IteratorGraphQLResponse<T> {
    /// The resolved value, or the failure.
    pub fn into_inner(self) -> (r: Result<Value<T>, GraphQLError>)
        ensures
            r == self.0,
    {
        self.0
    }

    /// The failure, if the subscription could not be resolved.
    pub fn errors(&self) -> (r: Option<&GraphQLError>)
        ensures
            r is Some <==> self.0 is Err,
            r is Some ==> *r->0 == self.0->Err_0,
    {
        match &self.0 {
            Ok(_) => None,
            Err(e) => Some(e),
        }
    }
}

/// The result of a subscription resolved into streams.
pub struct StreamGraphQLResponse<T>(pub Result<Value<T>, GraphQLError>);

impl<T> StreamGraphQLResponse<T> {
    /// The resolved value, or the failure.
    pub fn into_inner(self) -> (r: Result<Value<T>, GraphQLError>)
        ensures
            r == self.0,
    {
        self.0
    }

    /// The failure, if the subscription could not be resolved.
    pub fn errors(&self) -> (r: Option<&GraphQLError>)
        ensures
            r is Some <==> self.0 is Err,
            r is Some ==> *r->0 == self.0->Err_0,
    {
        match &self.0 {
            Ok(_) => None,
            Err(e) => Some(e),
        }
    }
}

} // verus!
