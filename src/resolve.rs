use vstd::prelude::*;

use crate::value::{
    keys_unique, merge_all_into, merge_field, merge_fields, merge_key_into, Object, Value,
    ValueModel,
};
use crate::value::lemma_set_field_keys;

verus! {

/// A place in the query document.
#[derive(Clone, Copy, Debug, PartialEq, Eq)]
pub struct SourcePosition {
    pub line: usize,
    pub column: usize,
}

impl SourcePosition {
    /// The start of the document.
    pub fn origin() -> (r: SourcePosition)
        ensures
            r.line == 0 && r.column == 0,
    {
        SourcePosition { line: 0, column: 0 }
    }
}

/// One step of a path from the response root to a field.
#[derive(Clone, Debug)]
pub enum PathSegment {
    Field(String),
    Index(usize),
}

/// A problem that a resolver reported for one field.
pub struct FieldError<S> {
    pub message: String,
    pub extensions: Value<S>,
}

/// A recorded, positioned field error.
pub struct ExecutionError<S> {
    pub location: SourcePosition,
    pub path: Vec<PathSegment>,
    pub error: FieldError<S>,
}

impl<S> ExecutionError<S> {
    /// An error at the start of the document, with an empty path.
    pub fn at_origin(error: FieldError<S>) -> (r: ExecutionError<S>)
        ensures
            r.location.line == 0 && r.location.column == 0,
            r.path@.len() == 0,
            r.error == error,
    {
        ExecutionError { location: SourcePosition::origin(), path: Vec::new(), error }
    }
}

/// What one scheduled unit of a selection set produced, handed over in the
/// order in which the units were scheduled.
pub enum TaskOutcome<T, S> {
    /// A field: what its resolver returned, and whether it is declared non-null.
    Field {
        name: String,
        non_null: bool,
        result: Result<Value<T>, FieldError<S>>,
        location: SourcePosition,
        path: Vec<PathSegment>,
    },
    /// A fragment spread or an inline fragment resolved as a nested selection set.
    Nested(Value<T>),
    /// An inline fragment resolved by narrowing the instance to a type.
    Narrowed {
        result: Result<Value<T>, FieldError<S>>,
        location: SourcePosition,
        path: Vec<PathSegment>,
    },
}

impl<T, S> TaskOutcome<T, S> {
    /// The outcome of `__typename`: a field that cannot be null, holding
    /// the instance's type name.
    pub fn typename(response_name: String, concrete_name: Value<T>, location: SourcePosition, path: Vec<PathSegment>) -> (r: Self)
        ensures
            r == (TaskOutcome::<T, S>::Field {
                name: response_name,
                non_null: true,
                result: Ok(concrete_name),
                location,
                path,
            }),
    {
        TaskOutcome::Field { name: response_name, non_null: true, result: Ok(concrete_name), location, path }
    }
}

pub type FieldsModel<T> = Seq<(Seq<char>, ValueModel<T>)>;

/// What a field contributes, given its declared nullability and its
/// resolver's result: `None` when a non-null field got no value, which
/// makes the whole enclosing object null.
pub open spec fn reduced<T, S>(non_null: bool, result: Result<Value<T>, FieldError<S>>) -> Option<
    ValueModel<T>,
> {
    match result {
        Ok(v) => if non_null && v.model() is Null {
            None
        } else {
            Some(v.model())
        },
        Err(_) => if non_null {
            None
        } else {
            Some(ValueModel::Null)
        },
    }
}

/// The object after one more outcome; `None` once it has become null.
pub open spec fn step<T, S>(acc: Option<FieldsModel<T>>, o: TaskOutcome<T, S>) -> Option<FieldsModel<T>> {
    match acc {
        None => None,
        Some(fs) => match o {
            TaskOutcome::Field { name, non_null, result, .. } => match reduced(non_null, result) {
                None => None,
                Some(v) => Some(merge_field(fs, name@, v)),
            },
            TaskOutcome::Nested(v) => match v.model() {
                ValueModel::Null => None,
                ValueModel::Object(b) => Some(merge_fields(fs, b)),
                _ => Some(fs),
            },
            TaskOutcome::Narrowed { result, .. } => match result {
                Ok(v) => match v.model() {
                    ValueModel::Object(b) => Some(merge_fields(fs, b)),
                    _ => Some(fs),
                },
                Err(_) => Some(fs),
            },
        },
    }
}

/// The object after the first `n` outcomes.
pub open spec fn drained<T, S>(os: Seq<TaskOutcome<T, S>>, n: nat) -> Option<FieldsModel<T>>
    decreases n,
{
    if n == 0 || n > os.len() {
        Some(Seq::empty())
    } else {
        step(drained(os, (n - 1) as nat), os[n - 1])
    }
}

/// The value of a selection set whose units produced `os`, in order.
pub open spec fn assemble<T, S>(os: Seq<TaskOutcome<T, S>>) -> ValueModel<T> {
    match drained(os, os.len()) {
        None => ValueModel::Null,
        Some(fs) => ValueModel::Object(fs),
    }
}

/// The error that a failed result records at `location` and `path`.
pub open spec fn error_record<T, S>(
    result: Result<Value<T>, FieldError<S>>,
    location: SourcePosition,
    path: Vec<PathSegment>,
) -> Seq<ExecutionError<S>> {
    match result {
        Err(e) => seq![ExecutionError { location, path, error: e }],
        Ok(_) => Seq::empty(),
    }
}

/// The error that an outcome records, if any.
pub open spec fn error_of<T, S>(o: TaskOutcome<T, S>) -> Seq<ExecutionError<S>> {
    match o {
        TaskOutcome::Field { result, location, path, .. } => error_record(result, location, path),
        TaskOutcome::Narrowed { result, location, path } => error_record(result, location, path),
        TaskOutcome::Nested(_) => Seq::empty(),
    }
}

/// The errors recorded while draining the first `n` outcomes: each
/// outcome records its own, also after the object has become null.
pub open spec fn recorded<T, S>(os: Seq<TaskOutcome<T, S>>, n: nat) -> Seq<ExecutionError<S>>
    decreases n,
{
    if n == 0 || n > os.len() {
        Seq::empty()
    } else {
        recorded(os, (n - 1) as nat) + error_of(os[n - 1])
    }
}

/// Reduces a field's result to what it contributes, recording its error.
pub fn reduce_field_result<T, S>(
    non_null: bool,
    result: Result<Value<T>, FieldError<S>>,
    location: SourcePosition,
    path: Vec<PathSegment>,
    errors: &mut Vec<ExecutionError<S>>,
) -> (r: Option<Value<T>>)
    ensures
        r is None <==> reduced(non_null, result) is None,
        r is Some ==> reduced(non_null, result) == Some(r->0.model()),
        final(errors)@ == old(errors)@ + error_record(result, location, path),
{
    match result {
        Ok(v) => {
            assert(old(errors)@ =~= old(errors)@ + error_record::<T, S>(Ok(v), location, path));
            if non_null && v.is_null() {
                None
            } else {
                Some(v)
            }
        },
        Err(e) => {
            errors.push(ExecutionError { location, path, error: e });
            assert(errors@ =~= old(errors)@ + error_record::<T, S>(Err(e), location, path));
            if non_null {
                None
            } else {
                Some(Value::Null)
            }
        },
    }
}

/// Builds the object of one selection set from its units' outcomes, taken
/// in the order in which the units were scheduled.
pub struct SelectionSetBuilder<T> {
    object: Object<T>,
    nulled: bool,
}

impl<T> SelectionSetBuilder<T> {
    /// The object so far, or `None` once it has become null.
    pub closed spec fn state(&self) -> Option<FieldsModel<T>> {
        if self.nulled {
            None
        } else {
            Some(self.object.model())
        }
    }

    pub closed spec fn wf(&self) -> bool {
        keys_unique(self.object.model())
    }

    /// A builder with an empty object.
    pub fn new(capacity: usize) -> (r: SelectionSetBuilder<T>)
        ensures
            r.state() == Some(Seq::<(Seq<char>, ValueModel<T>)>::empty()),
            r.wf(),
    {
        SelectionSetBuilder { object: Object::with_capacity(capacity), nulled: false }
    }

    /// Whether the object has become null, so that the units still pending
    /// can be dropped.
    pub fn is_nulled(&self) -> (r: bool)
        ensures
            r == (self.state() is None),
    {
        self.nulled
    }

    /// Takes the next outcome: records its error, and merges what it
    /// contributes or makes the object null. Once null, the object stays
    /// null, and later outcomes only record their errors.
    pub fn accept<S>(&mut self, o: TaskOutcome<T, S>, errors: &mut Vec<ExecutionError<S>>) -> (r: bool)
        ensures
            old(self).wf() ==> final(self).wf(),
            final(self).state() == step(old(self).state(), o),
            final(errors)@ == old(errors)@ + error_of(o),
            r == (final(self).state() is Some),
    {
        let ghost om = o;
        if self.nulled {
            match o {
                TaskOutcome::Field { result: Err(e), location, path, .. } => {
                    errors.push(ExecutionError { location, path, error: e });
                },
                TaskOutcome::Narrowed { result: Err(e), location, path } => {
                    errors.push(ExecutionError { location, path, error: e });
                },
                _ => {},
            }
            assert(errors@ =~= old(errors)@ + error_of(om));
            return false;
        }
        let ghost fs = self.object.model();
        match o {
            TaskOutcome::Field { name, non_null, result, location, path } => {
                match reduce_field_result(non_null, result, location, path, errors) {
                    None => {
                        self.nulled = true;
                    },
                    Some(v) => {
                        merge_key_into(&mut self.object, name, v);
                    },
                }
            },
            TaskOutcome::Nested(v) => {
                assert(errors@ =~= old(errors)@ + error_of(om));
                match v {
                    Value::Null => {
                        self.nulled = true;
                    },
                    Value::Object(b) => {
                        merge_all_into(&mut self.object, b);
                    },
                    _ => {},
                }
            },
            TaskOutcome::Narrowed { result, location, path } => {
                match result {
                    Ok(v) => {
                        assert(errors@ =~= old(errors)@ + error_of(om));
                        match v {
                            Value::Object(b) => {
                                merge_all_into(&mut self.object, b);
                            },
                            _ => {},
                        }
                    },
                    Err(e) => {
                        errors.push(ExecutionError { location, path, error: e });
                        assert(errors@ =~= old(errors)@ + error_of(om));
                    },
                }
            },
        }
        !self.nulled
    }

    /// The finished value: the object, or null if it became null.
    pub fn finish(self) -> (r: Value<T>)
        ensures
            r.model() == (match self.state() {
                None => ValueModel::Null,
                Some(fs) => ValueModel::Object(fs),
            }),
    {
        if self.nulled {
            Value::Null
        } else {
            Value::Object(self.object)
        }
    }
}

/// Drains the outcomes of one selection set's units, in order, into its
/// value, recording the error of every unit that failed.
pub fn complete_selection_set<T, S>(
    outcomes: Vec<TaskOutcome<T, S>>,
    errors: &mut Vec<ExecutionError<S>>,
) -> (r: Value<T>)
    ensures
        r.model() == assemble(outcomes@),
        final(errors)@ == old(errors)@ + recorded(outcomes@, outcomes@.len()),
{
    let ghost os = outcomes@;
    let n = outcomes.len();
    let mut builder: SelectionSetBuilder<T> = SelectionSetBuilder::new(n);
    let mut rest = outcomes;
    let mut i: usize = 0;
    while i < n
        invariant
            n == os.len(),
            os == outcomes@,
            i <= n,
            rest@.len() == n,
            forall|j: int| i <= j < n ==> rest@[j] == os[j],
            builder.wf(),
            builder.state() == drained(os, i as nat),
            errors@ == old(errors)@ + recorded(os, i as nat),
        decreases n - i,
    {
        let mut o: TaskOutcome<T, S> = TaskOutcome::Nested(Value::Null);
        std::mem::swap(&mut rest[i], &mut o);
        builder.accept(o, errors);
        i = i + 1;
        assert(o == os[i - 1]);
        assert(errors@ =~= old(errors)@ + recorded(os, i as nat));
    }
    builder.finish()
}

/// Once the object has become null it stays null.
pub proof fn lemma_nulled_stays<T, S>(os: Seq<TaskOutcome<T, S>>, i: nat, n: nat)
    requires
        i <= n <= os.len(),
        drained(os, i) is None,
    ensures
        drained(os, n) is None,
    decreases n - i,
{
    if n > i {
        lemma_nulled_stays(os, i, (n - 1) as nat);
    }
}

} // verus!
