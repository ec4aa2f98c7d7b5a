use vstd::prelude::*;

use crate::resolve::SourcePosition;

verus! {

/// A leaf value of a query document or of the variables.
pub enum DefaultScalarValue {
    Int(i32),
    String(String),
    Boolean(bool),
}

/// A value written in a query document or passed as a variable.
pub enum InputValue<S> {
    Null,
    Scalar(S),
    Enum(String),
    Variable(String),
    List(Vec<InputValue<S>>),
    Object(Vec<(String, InputValue<S>)>),
}

/// The variables of a request, by name.
pub struct Variables<S> {
    pub entries: Vec<(String, InputValue<S>)>,
}

/// A directive such as `@skip(if: $flag)`.
pub struct Directive<S> {
    pub name: String,
    pub arguments: Vec<(String, InputValue<S>)>,
}

/// A field of a selection set.
pub struct Field<S> {
    pub alias: Option<String>,
    pub name: String,
    pub arguments: Vec<(String, InputValue<S>)>,
    pub directives: Vec<Directive<S>>,
    pub selection_set: Option<Vec<Selection<S>>>,
    pub position: SourcePosition,
}

/// A reference to a named fragment: `...name`.
pub struct FragmentSpread<S> {
    pub name: String,
    pub directives: Vec<Directive<S>>,
    pub position: SourcePosition,
}

/// An inline fragment: `... on Type { ... }` or `... { ... }`.
pub struct InlineFragment<S> {
    pub type_condition: Option<String>,
    pub directives: Vec<Directive<S>>,
    pub selection_set: Vec<Selection<S>>,
    pub position: SourcePosition,
}

/// One item of a selection set.
pub enum Selection<S> {
    Field(Field<S>),
    FragmentSpread(FragmentSpread<S>),
    InlineFragment(InlineFragment<S>),
}

/// A named fragment of the document.
pub struct Fragment<S> {
    pub name: String,
    pub type_condition: String,
    pub selection_set: Vec<Selection<S>>,
}

/// What the schema says of one field of a type.
pub struct MetaField {
    pub name: String,
    pub non_null: bool,
}

/// What the schema says of a concrete object type.
pub struct MetaType {
    pub name: String,
    pub fields: Vec<MetaField>,
}

/// One unit of work scheduled for a selection set, in selection order.
/// `index` is the position of its selection in the selection set.
pub enum Task {
    /// `__typename`: answered at once with the instance's type name.
    Typename { index: usize, response_name: String },
    /// A field to resolve through the instance's field resolver.
    Field { index: usize, response_name: String, non_null: bool },
    /// A fragment spread, with the position of its fragment in the document.
    Spread { index: usize, fragment: usize },
    /// An inline fragment, narrowed to a type where it names one.
    Inline { index: usize },
}

/// A mismatch between the schema and the document, which validation
/// should have ruled out.
pub enum PlanError {
    FieldNotFound { field: String, on_type: String },
    FragmentNotFound { name: String },
}

pub open spec fn skip_name() -> Seq<char> {
    "skip"@
}

/// The name of the directive that keeps a selection only where its
/// condition holds.
pub open spec fn include_name() -> Seq<char> {
    seq!['i', 'n', 'c', 'l', 'u', 'd', 'e']
}

/// Whether `s` spells the characters of `chars`, in order.
fn spells(s: &String, chars: &[char]) -> (r: bool)
    ensures
        r == (s@ == chars@),
{
    let t = s.as_str();
    let n = t.unicode_len();
    if n != chars.len() {
        return false;
    }
    let mut i: usize = 0;
    while i < n
        invariant
            n == t@.len(),
            n == chars@.len(),
            t@ == s@,
            i <= n,
            forall|j: int| 0 <= j < i ==> t@[j] == chars@[j],
        decreases n - i,
    {
        if t.get_char(i) != chars[i] {
            return false;
        }
        i = i + 1;
    }
    assert(t@ =~= chars@);
    true
}

pub open spec fn if_name() -> Seq<char> {
    "if"@
}

pub open spec fn typename_name() -> Seq<char> {
    "__typename"@
}

/// Whether `s` spells the literal `lit`.
fn is_named(s: &String, lit: &str) -> (r: bool)
    ensures
        r == (s@ == lit@),
{
    let owned = lit.to_owned();
    *s == owned
}

/// The position of the first entry named `k`, or -1.
pub open spec fn first_named<V>(entries: Seq<(String, V)>, k: Seq<char>) -> int {
    if exists|i: int| 0 <= i < entries.len() && entries[i].0@ == k && (forall|j: int| 0 <= j < i ==> entries[j].0@ != k) {
        choose|i: int| 0 <= i < entries.len() && entries[i].0@ == k && (forall|j: int| 0 <= j < i ==> entries[j].0@ != k)
    } else {
        -1
    }
}

/// The position of the first entry named `k`, if there is one.
pub fn find_named<V>(entries: &Vec<(String, V)>, k: &String) -> (r: Option<usize>)
    ensures
        r is None ==> first_named(entries@, k@) == -1,
        r is Some ==> first_named(entries@, k@) == r->0 as int && r->0 < entries@.len(),
{
    let n = entries.len();
    let mut i: usize = 0;
    while i < n
        invariant
            n == entries@.len(),
            i <= n,
            forall|j: int| 0 <= j < i ==> entries@[j].0@ != k@,
        decreases n - i,
    {
        if entries[i].0 == *k {
            let ghost c = choose|c: int| 0 <= c < entries@.len() && entries@[c].0@ == k@ && (forall|j: int| 0 <= j < c ==> entries@[j].0@ != k@);
            assert(0 <= i < entries@.len() && entries@[i as int].0@ == k@ && (forall|j: int| 0 <= j < i ==> entries@[j].0@ != k@));
            proof {
                if c < i {
                    assert(entries@[c].0@ != k@);
                } else if c > i {
                    assert(entries@[i as int].0@ != k@);
                }
            }
            return Some(i);
        }
        i = i + 1;
    }
    None
}

impl<S> Variables<S> {
    /// No name occurs twice.
    pub open spec fn wf(&self) -> bool {
        forall|a: int, b: int| 0 <= a < b < self.entries@.len() ==> self.entries@[a].0@ != self.entries@[b].0@
    }
}

impl Variables<DefaultScalarValue> {
    /// No variables.
    pub fn new() -> (r: Self)
        ensures
            r.entries@.len() == 0,
            r.wf(),
    {
        Variables { entries: Vec::new() }
    }
}

/// The truth value of an argument, read through the variables where it
/// names one; `None` where it is no boolean.
pub open spec fn truth_of(v: InputValue<DefaultScalarValue>, vars: Seq<(String, InputValue<DefaultScalarValue>)>) -> Option<bool> {
    match v {
        InputValue::Scalar(DefaultScalarValue::Boolean(b)) => Some(b),
        InputValue::Variable(name) => {
            let i = first_named(vars, name@);
            if i < 0 {
                None
            } else {
                match vars[i].1 {
                    InputValue::Scalar(DefaultScalarValue::Boolean(b)) => Some(b),
                    _ => None,
                }
            }
        },
        _ => None,
    }
}

/// The condition of a directive: the truth value of its `if` argument.
pub open spec fn condition_of(d: Directive<DefaultScalarValue>, vars: Seq<(String, InputValue<DefaultScalarValue>)>) -> Option<bool> {
    let i = first_named(d.arguments@, if_name());
    if i < 0 {
        None
    } else {
        truth_of(d.arguments@[i].1, vars)
    }
}

/// `@skip` whose condition holds, or `@include` whose condition fails.
pub open spec fn excludes(d: Directive<DefaultScalarValue>, vars: Seq<(String, InputValue<DefaultScalarValue>)>) -> bool {
    ||| d.name@ == skip_name() && condition_of(d, vars) == Some(true)
    ||| d.name@ == include_name() && condition_of(d, vars) == Some(false)
}

pub open spec fn excluded(ds: Seq<Directive<DefaultScalarValue>>, vars: Seq<(String, InputValue<DefaultScalarValue>)>) -> bool {
    exists|i: int| 0 <= i < ds.len() && excludes(#[trigger] ds[i], vars)
}

fn truth_value(v: &InputValue<DefaultScalarValue>, vars: &Variables<DefaultScalarValue>) -> (r: Option<bool>)
    ensures
        r == truth_of(*v, vars.entries@),
{
    match v {
        InputValue::Scalar(DefaultScalarValue::Boolean(b)) => Some(*b),
        InputValue::Variable(name) => match find_named(&vars.entries, name) {
            None => None,
            Some(i) => match &vars.entries[i].1 {
                InputValue::Scalar(DefaultScalarValue::Boolean(b)) => Some(*b),
                _ => None,
            },
        },
        _ => None,
    }
}

fn directive_condition(d: &Directive<DefaultScalarValue>, vars: &Variables<DefaultScalarValue>) -> (r: Option<bool>)
    ensures
        r == condition_of(*d, vars.entries@),
{
    let if_key = "if".to_owned();
    match find_named(&d.arguments, &if_key) {
        None => None,
        Some(i) => truth_value(&d.arguments[i].1, vars),
    }
}

/// Whether the directives leave their selection out of the response.
pub fn is_excluded(directives: &Vec<Directive<DefaultScalarValue>>, vars: &Variables<DefaultScalarValue>) -> (r: bool)
    ensures
        r == excluded(directives@, vars.entries@),
{
    let n = directives.len();
    let mut i: usize = 0;
    while i < n
        invariant
            n == directives@.len(),
            i <= n,
            forall|j: int| 0 <= j < i ==> !excludes(#[trigger] directives@[j], vars.entries@),
        decreases n - i,
    {
        let d = &directives[i];
        let c = directive_condition(d, vars);
        let skip = is_named(&d.name, "skip");
        let keep_only_if = spells(&d.name, &['i', 'n', 'c', 'l', 'u', 'd', 'e']);
        proof {
            reveal_strlit("skip");
        }
        let hit = match c {
            Some(b) => (skip && b) || (keep_only_if && !b),
            None => false,
        };
        if hit {
            assert(excludes(directives@[i as int], vars.entries@));
            return true;
        }
        i = i + 1;
    }
    false
}

/// The position of the first element that satisfies `p`, or -1.
pub open spec fn first_where<E>(s: Seq<E>, p: spec_fn(E) -> bool) -> int {
    if exists|i: int| 0 <= i < s.len() && p(s[i]) && (forall|j: int| 0 <= j < i ==> !p(s[j])) {
        choose|i: int| 0 <= i < s.len() && p(s[i]) && (forall|j: int| 0 <= j < i ==> !p(s[j]))
    } else {
        -1
    }
}

pub proof fn lemma_first_where<E>(s: Seq<E>, p: spec_fn(E) -> bool, i: int)
    requires
        0 <= i <= s.len(),
        forall|j: int| 0 <= j < i ==> !p(s[j]),
    ensures
        i < s.len() && p(s[i]) ==> first_where(s, p) == i,
        i == s.len() ==> first_where(s, p) == -1,
{
    if i < s.len() && p(s[i]) {
        let c = choose|c: int| 0 <= c < s.len() && p(s[c]) && (forall|j: int| 0 <= j < c ==> !p(s[j]));
        assert(0 <= i < s.len() && p(s[i]) && (forall|j: int| 0 <= j < i ==> !p(s[j])));
        if c < i {
            assert(!p(s[c]));
        } else if c > i {
            assert(!p(s[i]));
        }
    }
}

/// The position of the schema field named `k` on `meta`, or -1.
pub open spec fn meta_field_index(meta: MetaType, k: Seq<char>) -> int {
    first_where(meta.fields@, field_named(k))
}

pub open spec fn field_named(k: Seq<char>) -> spec_fn(MetaField) -> bool {
    |f: MetaField| f.name@ == k
}

pub open spec fn fragment_named<S>(k: Seq<char>) -> spec_fn(Fragment<S>) -> bool {
    |f: Fragment<S>| f.name@ == k
}

/// The position of the fragment named `k` in the document, or -1.
pub open spec fn fragment_index<S>(frags: Seq<Fragment<S>>, k: Seq<char>) -> int {
    first_where(frags, fragment_named(k))
}

impl MetaType {
    /// The schema field named `k`, by position.
    pub fn field_by_name(&self, k: &String) -> (r: Option<usize>)
        ensures
            r is None ==> meta_field_index(*self, k@) == -1,
            r is Some ==> meta_field_index(*self, k@) == r->0 as int && r->0 < self.fields@.len(),
    {
        let ghost p = field_named(k@);
        let n = self.fields.len();
        let mut i: usize = 0;
        while i < n
            invariant
                n == self.fields@.len(),
                i <= n,
                p == field_named(k@),
                forall|j: int| 0 <= j < i ==> !p(self.fields@[j]),
            decreases n - i,
        {
            if self.fields[i].name == *k {
                proof {
                    lemma_first_where(self.fields@, p, i as int);
                }
                return Some(i);
            }
            i = i + 1;
        }
        proof {
            lemma_first_where(self.fields@, p, n as int);
        }
        None
    }
}

/// The named fragment, by position in the document.
pub fn fragment_by_name<S>(frags: &Vec<Fragment<S>>, k: &String) -> (r: Option<usize>)
    ensures
        r is None ==> fragment_index(frags@, k@) == -1,
        r is Some ==> fragment_index(frags@, k@) == r->0 as int && r->0 < frags@.len(),
{
    let ghost p = fragment_named::<S>(k@);
    let n = frags.len();
    let mut i: usize = 0;
    while i < n
        invariant
            n == frags@.len(),
            i <= n,
            p == fragment_named::<S>(k@),
            forall|j: int| 0 <= j < i ==> !p(frags@[j]),
        decreases n - i,
    {
        if frags[i].name == *k {
            proof {
                lemma_first_where(frags@, p, i as int);
            }
            return Some(i);
        }
        i = i + 1;
    }
    proof {
        lemma_first_where(frags@, p, n as int);
    }
    None
}

/// The name under which a field appears in the response: its alias, or
/// its name.
pub open spec fn response_name_of<S>(f: Field<S>) -> String {
    match f.alias {
        Some(a) => a,
        None => f.name,
    }
}

/// The unit scheduled for the selection at `index`: `None` where its
/// directives leave it out.
pub open spec fn task_for(
    meta: MetaType,
    frags: Seq<Fragment<DefaultScalarValue>>,
    vars: Seq<(String, InputValue<DefaultScalarValue>)>,
    sel: Selection<DefaultScalarValue>,
    index: usize,
) -> Option<Result<Task, PlanError>> {
    match sel {
        Selection::Field(f) => if excluded(f.directives@, vars) {
            None
        } else if f.name@ == typename_name() {
            Some(Ok(Task::Typename { index, response_name: response_name_of(f) }))
        } else {
            let i = meta_field_index(meta, f.name@);
            if i < 0 {
                Some(Err(PlanError::FieldNotFound { field: f.name, on_type: meta.name }))
            } else {
                Some(
                    Ok(
                        Task::Field {
                            index,
                            response_name: response_name_of(f),
                            non_null: meta.fields@[i].non_null,
                        },
                    ),
                )
            }
        },
        Selection::FragmentSpread(sp) => if excluded(sp.directives@, vars) {
            None
        } else {
            let i = fragment_index(frags, sp.name@);
            if i < 0 {
                Some(Err(PlanError::FragmentNotFound { name: sp.name }))
            } else {
                Some(Ok(Task::Spread { index, fragment: i as usize }))
            }
        },
        Selection::InlineFragment(fr) => if excluded(fr.directives@, vars) {
            None
        } else {
            Some(Ok(Task::Inline { index }))
        },
    }
}

/// The units scheduled for the first `n` selections, in selection order,
/// or the first mismatch with the schema.
pub open spec fn planned(
    meta: MetaType,
    frags: Seq<Fragment<DefaultScalarValue>>,
    vars: Seq<(String, InputValue<DefaultScalarValue>)>,
    sels: Seq<Selection<DefaultScalarValue>>,
    n: nat,
) -> Result<Seq<Task>, PlanError>
    decreases n,
{
    if n == 0 || n > sels.len() {
        Ok(Seq::empty())
    } else {
        match planned(meta, frags, vars, sels, (n - 1) as nat) {
            Err(e) => Err(e),
            Ok(ts) => match task_for(meta, frags, vars, sels[n - 1], (n - 1) as usize) {
                None => Ok(ts),
                Some(Ok(t)) => Ok(ts.push(t)),
                Some(Err(e)) => Err(e),
            },
        }
    }
}

fn plan_one(
    meta: &MetaType,
    frags: &Vec<Fragment<DefaultScalarValue>>,
    vars: &Variables<DefaultScalarValue>,
    sel: &Selection<DefaultScalarValue>,
    index: usize,
) -> (r: Option<Result<Task, PlanError>>)
    ensures
        r == task_for(*meta, frags@, vars.entries@, *sel, index),
{
    proof {
        reveal_strlit("__typename");
    }
    match sel {
        Selection::Field(f) => {
            if is_excluded(&f.directives, vars) {
                return None;
            }
            let response_name = match &f.alias {
                Some(a) => a.clone(),
                None => f.name.clone(),
            };
            if is_named(&f.name, "__typename") {
                return Some(Ok(Task::Typename { index, response_name }));
            }
            match meta.field_by_name(&f.name) {
                None => Some(
                    Err(PlanError::FieldNotFound { field: f.name.clone(), on_type: meta.name.clone() }),
                ),
                Some(i) => Some(Ok(Task::Field { index, response_name, non_null: meta.fields[i].non_null })),
            }
        },
        Selection::FragmentSpread(sp) => {
            if is_excluded(&sp.directives, vars) {
                return None;
            }
            match fragment_by_name(frags, &sp.name) {
                None => Some(Err(PlanError::FragmentNotFound { name: sp.name.clone() })),
                Some(i) => Some(Ok(Task::Spread { index, fragment: i })),
            }
        },
        Selection::InlineFragment(fr) => {
            if is_excluded(&fr.directives, vars) {
                return None;
            }
            Some(Ok(Task::Inline { index }))
        },
    }
}

/// Walks one selection set against the concrete type `meta`: one unit per
/// selection that its directives keep, in selection order. A field that
/// `meta` lacks, or a spread of a fragment that the document lacks, is a
/// mismatch with the schema and ends the walk.
pub fn plan_selection_set(
    meta: &MetaType,
    selection_set: &Vec<Selection<DefaultScalarValue>>,
    fragments: &Vec<Fragment<DefaultScalarValue>>,
    vars: &Variables<DefaultScalarValue>,
) -> (r: Result<Vec<Task>, PlanError>)
    ensures
        r is Ok <==> planned(*meta, fragments@, vars.entries@, selection_set@, selection_set@.len()) is Ok,
        r is Ok ==> r->Ok_0@ == planned(
            *meta,
            fragments@,
            vars.entries@,
            selection_set@,
            selection_set@.len(),
        )->Ok_0,
        r is Err ==> r->Err_0 == planned(
            *meta,
            fragments@,
            vars.entries@,
            selection_set@,
            selection_set@.len(),
        )->Err_0,
{
    let n = selection_set.len();
    let mut tasks: Vec<Task> = Vec::with_capacity(n);
    let mut i: usize = 0;
    while i < n
        invariant
            n == selection_set@.len(),
            i <= n,
            planned(*meta, fragments@, vars.entries@, selection_set@, i as nat) == Ok::<Seq<Task>, PlanError>(tasks@),
        decreases n - i,
    {
        match plan_one(meta, fragments, vars, &selection_set[i], i) {
            None => {},
            Some(Ok(t)) => {
                tasks.push(t);
            },
            Some(Err(e)) => {
                proof {
                    lemma_planned_err_stays(*meta, fragments@, vars.entries@, selection_set@, (i + 1) as nat, n as nat);
                }
                return Err(e);
            },
        }
        i = i + 1;
    }
    Ok(tasks)
}

/// How an inline fragment is resolved.
pub enum InlineAction {
    /// As a nested selection set on the same instance, concurrently.
    Nested,
    /// By narrowing the instance to the named type.
    NarrowTo(String),
}

/// How an inline fragment with the type condition `type_condition` is
/// resolved: one with a condition narrows the instance to that type; one
/// without is a nested selection set on the same instance, resolved
/// concurrently like a fragment spread, in either mode.
pub fn inline_action(type_condition: &Option<String>) -> (r: InlineAction)
    ensures
        type_condition is Some ==> r == InlineAction::NarrowTo(type_condition->0),
        type_condition is None ==> r is Nested,
{
    match type_condition {
        Some(t) => InlineAction::NarrowTo(t.clone()),
        None => InlineAction::Nested,
    }
}

/// The position of the type named `k` among `types`, or -1.
pub open spec fn meta_type_index(types: Seq<MetaType>, k: Seq<char>) -> int {
    first_where(types, type_named(k))
}

pub open spec fn type_named(k: Seq<char>) -> spec_fn(MetaType) -> bool {
    |t: MetaType| t.name@ == k
}

/// The type named `k` in the schema's registry, by position.
pub fn meta_type_by_name(types: &Vec<MetaType>, k: &str) -> (r: Option<usize>)
    ensures
        r is None ==> meta_type_index(types@, k@) == -1,
        r is Some ==> meta_type_index(types@, k@) == r->0 as int && r->0 < types@.len(),
{
    let ghost p = type_named(k@);
    let key = k.to_owned();
    let n = types.len();
    let mut i: usize = 0;
    while i < n
        invariant
            n == types@.len(),
            i <= n,
            key@ == k@,
            p == type_named(k@),
            forall|j: int| 0 <= j < i ==> !p(types@[j]),
        decreases n - i,
    {
        if types[i].name == key {
            proof {
                lemma_first_where(types@, p, i as int);
            }
            return Some(i);
        }
        i = i + 1;
    }
    proof {
        lemma_first_where(types@, p, n as int);
    }
    None
}

/// `b` is `a` with every variable replaced by a copy of its value, or by
/// null where the variables lack it.
pub open spec fn substituted(
    a: InputValue<DefaultScalarValue>,
    b: InputValue<DefaultScalarValue>,
    vars: Seq<(String, InputValue<DefaultScalarValue>)>,
) -> bool
    decreases a,
{
    match a {
        InputValue::Variable(name) => {
            let i = first_named(vars, name@);
            if i < 0 {
                b is Null
            } else {
                crate::http::same_input(vars[i].1, b)
            }
        },
        InputValue::List(xs) => match b {
            InputValue::List(ys) => {
                &&& xs@.len() == ys@.len()
                &&& forall|i: int| 0 <= i < xs@.len() ==> substituted(xs@[i], ys@[i], vars)
            },
            _ => false,
        },
        InputValue::Object(xs) => match b {
            InputValue::Object(ys) => {
                &&& xs@.len() == ys@.len()
                &&& forall|i: int|
                    0 <= i < xs@.len() ==> xs@[i].0@ == ys@[i].0@ && substituted(xs@[i].1, ys@[i].1, vars)
            },
            _ => false,
        },
        _ => crate::http::same_input(a, b),
    }
}

impl InputValue<DefaultScalarValue> {
    /// This value with every variable replaced by its value, or by null
    /// where `vars` lacks it.
    pub fn into_const(&self, vars: &Variables<DefaultScalarValue>) -> (r: InputValue<DefaultScalarValue>)
        ensures
            substituted(*self, r, vars.entries@),
        decreases self,
    {
        match self {
            InputValue::Variable(name) => match find_named(&vars.entries, name) {
                None => InputValue::Null,
                Some(i) => vars.entries[i].1.copy(),
            },
            InputValue::List(xs) => {
                let n = xs.len();
                assert(decreases_to!(*self => *xs));
                let mut out: Vec<InputValue<DefaultScalarValue>> = Vec::with_capacity(n);
                let mut i: usize = 0;
                while i < n
                    invariant
                        n == xs@.len(),
                        i <= n,
                        out@.len() == i,
                        *self == InputValue::<DefaultScalarValue>::List(*xs),
                        decreases_to!(*self => *xs),
                        forall|j: int| 0 <= j < i ==> substituted(xs@[j], out@[j], vars.entries@),
                    decreases n - i,
                {
                    proof {
                        assert(decreases_to!(*xs => xs@[i as int]));
                        assert(decreases_to!(*self => xs@[i as int]));
                    }
                    let c = xs[i].into_const(vars);
                    out.push(c);
                    i = i + 1;
                }
                InputValue::List(out)
            },
            InputValue::Object(xs) => {
                let n = xs.len();
                assert(decreases_to!(*self => *xs));
                let mut out: Vec<(String, InputValue<DefaultScalarValue>)> = Vec::with_capacity(n);
                let mut i: usize = 0;
                while i < n
                    invariant
                        n == xs@.len(),
                        i <= n,
                        out@.len() == i,
                        *self == InputValue::<DefaultScalarValue>::Object(*xs),
                        decreases_to!(*self => *xs),
                        forall|j: int|
                            0 <= j < i ==> xs@[j].0@ == out@[j].0@ && substituted(xs@[j].1, out@[j].1, vars.entries@),
                    decreases n - i,
                {
                    proof {
                        assert(decreases_to!(*xs => xs@[i as int]));
                        assert(decreases_to!(*xs => xs@[i as int].1));
                        assert(decreases_to!(*self => xs@[i as int].1));
                    }
                    let c = xs[i].1.into_const(vars);
                    out.push((xs[i].0.clone(), c));
                    i = i + 1;
                }
                InputValue::Object(out)
            },
            _ => self.copy(),
        }
    }
}

/// The arguments of a field with their variables replaced by their values.
pub fn arguments_with_variables(
    arguments: &Vec<(String, InputValue<DefaultScalarValue>)>,
    vars: &Variables<DefaultScalarValue>,
) -> (r: Vec<(String, InputValue<DefaultScalarValue>)>)
    ensures
        r@.len() == arguments@.len(),
        forall|i: int|
            0 <= i < r@.len() ==> r@[i].0@ == arguments@[i].0@ && substituted(arguments@[i].1, r@[i].1, vars.entries@),
{
    let n = arguments.len();
    let mut out: Vec<(String, InputValue<DefaultScalarValue>)> = Vec::with_capacity(n);
    let mut i: usize = 0;
    while i < n
        invariant
            n == arguments@.len(),
            i <= n,
            out@.len() == i,
            forall|j: int|
                0 <= j < i ==> out@[j].0@ == arguments@[j].0@ && substituted(arguments@[j].1, out@[j].1, vars.entries@),
        decreases n - i,
    {
        let c = arguments[i].1.into_const(vars);
        out.push((arguments[i].0.clone(), c));
        i = i + 1;
    }
    out
}

proof fn lemma_planned_err_stays(
    meta: MetaType,
    frags: Seq<Fragment<DefaultScalarValue>>,
    vars: Seq<(String, InputValue<DefaultScalarValue>)>,
    sels: Seq<Selection<DefaultScalarValue>>,
    i: nat,
    n: nat,
)
    requires
        i <= n <= sels.len(),
        planned(meta, frags, vars, sels, i) is Err,
    ensures
        planned(meta, frags, vars, sels, n) == planned(meta, frags, vars, sels, i),
    decreases n - i,
{
    if n > i {
        lemma_planned_err_stays(meta, frags, vars, sels, i, (n - 1) as nat);
    }
}

} // verus!
