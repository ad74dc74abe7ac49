//! The model tree and its shadow state tree.
//!
//! A [`Model`] is the application value a root session owns: a scalar leaf, a
//! record of named fields, an optional, or a list.  An optional always holds
//! an inner value; when `present` is false that inner value is the transient
//! default instance the read views show in place of the absent slot.
//!
//! A [`StateNode`] mirrors the model one level at a time: a [`Field`] per
//! scalar leaf, one child state per record field, and a [`VecState`] per
//! list.  An optional introduces no state node of its own: its state is the
//! state of the inner value.

use vstd::prelude::*;
use vstd::string::StringExecFns;
use crate::field::{bump, Dirty, Field, field_dirty, FieldView, spec_field_create,
    spec_field_set_value};
use crate::text::{bool_chars, bool_to_text, char_to_text, dec_chars, i64_to_text, int_chars,
    u64_to_text};

verus! {

/// One named field of a record value.
#[derive(Debug, PartialEq)]
pub struct Entry {
    pub name: String,
    pub value: Model,
}

/// The application value a session owns, as a closed sum of the four shapes
/// the engine understands: scalar leaves, records, optionals and lists.
#[derive(Debug, PartialEq)]
pub enum Model {
    Bool(bool),
    Uint(u64),
    Int(i64),
    Text(String),
    Char(char),
    Record(Vec<Entry>),
    Optional(bool, Box<Model>),
    List(Vec<Model>),
}

/// The mathematical content of an [`Entry`].
pub ghost struct EntryView {
    pub name: Seq<char>,
    pub value: ModelView,
}

/// The mathematical content of a [`Model`].
pub ghost enum ModelView {
    Bool(bool),
    Uint(u64),
    Int(i64),
    Text(Seq<char>),
    Char(char),
    Record(Seq<EntryView>),
    Optional(bool, Box<ModelView>),
    List(Seq<ModelView>),
}

/// The views of the entries of `es` from index `k` on.
pub open spec fn entries_view_from(es: Seq<Entry>, k: int) -> Seq<EntryView>
    decreases es, es.len() - k,
{
    if k < 0 || k >= es.len() {
        Seq::empty()
    } else {
        seq![
            EntryView { name: es[k].name@, value: model_view(es[k].value) },
        ] + entries_view_from(es, k + 1)
    }
}

/// The views of the models of `items` from index `k` on.
pub open spec fn models_view_from(items: Seq<Model>, k: int) -> Seq<ModelView>
    decreases items, items.len() - k,
{
    if k < 0 || k >= items.len() {
        Seq::empty()
    } else {
        seq![model_view(items[k])] + models_view_from(items, k + 1)
    }
}

/// The view of a model tree.
pub open spec fn model_view(m: Model) -> ModelView
    decreases m, 0int,
{
    match m {
        Model::Bool(b) => ModelView::Bool(b),
        Model::Uint(n) => ModelView::Uint(n),
        Model::Int(n) => ModelView::Int(n),
        Model::Text(s) => ModelView::Text(s@),
        Model::Char(c) => ModelView::Char(c),
        Model::Record(es) => ModelView::Record(entries_view_from(es@, 0)),
        Model::Optional(present, inner) => ModelView::Optional(
            present,
            Box::new(model_view(*inner)),
        ),
        Model::List(items) => ModelView::List(models_view_from(items@, 0)),
    }
}

impl View for Model {
    type V = ModelView;

    open spec fn view(&self) -> ModelView {
        model_view(*self)
    }
}

impl View for Entry {
    type V = EntryView;

    open spec fn view(&self) -> EntryView {
        EntryView { name: self.name@, value: model_view(self.value) }
    }
}

pub proof fn lemma_entries_view_len(es: Seq<Entry>, k: int)
    requires
        0 <= k <= es.len(),
    ensures
        (#[trigger] entries_view_from(es, k)).len() == es.len() - k,
        forall|i: int|
            k <= i < es.len() ==> entries_view_from(es, k)[i - k] == (EntryView {
                name: es[i].name@,
                value: model_view(es[i].value),
            }),
    decreases es.len() - k,
{
    if k < es.len() {
        lemma_entries_view_len(es, k + 1);
    }
}

pub proof fn lemma_models_view_len(items: Seq<Model>, k: int)
    requires
        0 <= k <= items.len(),
    ensures
        (#[trigger] models_view_from(items, k)).len() == items.len() - k,
        forall|i: int|
            k <= i < items.len() ==> models_view_from(items, k)[i - k] == model_view(items[i]),
    decreases items.len() - k,
{
    if k < items.len() {
        lemma_models_view_len(items, k + 1);
    }
}

/// Whether a model value is a scalar leaf.
pub open spec fn is_scalar(m: ModelView) -> bool {
    m is Bool || m is Uint || m is Int || m is Text || m is Char
}

/// The canonical text form of a scalar leaf.
pub open spec fn scalar_text(m: ModelView) -> Seq<char> {
    match m {
        ModelView::Bool(b) => bool_chars(b),
        ModelView::Uint(n) => dec_chars(n as nat),
        ModelView::Int(n) => int_chars(n as int),
        ModelView::Text(s) => s,
        ModelView::Char(c) => seq![c],
        _ => Seq::empty(),
    }
}

/// Formats a scalar leaf as text.
pub fn scalar_to_text(m: &Model) -> (r: String)
    requires
        is_scalar(m@),
    ensures
        r@ == scalar_text(m@),
{
    match m {
        Model::Bool(b) => bool_to_text(*b),
        Model::Uint(n) => u64_to_text(*n),
        Model::Int(n) => i64_to_text(*n),
        Model::Text(s) => String::from_str(s.as_str()),
        Model::Char(c) => char_to_text(*c),
        _ => {
            proof {
                assert(false);
            }
            String::new()
        },
    }
}

/// The default instance of the same shape as `m`: zero, empty or absent at
/// every position, with records keeping their field names.
pub open spec fn spec_default_like(m: ModelView) -> ModelView
    decreases m, 0int,
{
    match m {
        ModelView::Bool(_) => ModelView::Bool(false),
        ModelView::Uint(_) => ModelView::Uint(0),
        ModelView::Int(_) => ModelView::Int(0),
        ModelView::Text(_) => ModelView::Text(Seq::empty()),
        ModelView::Char(_) => ModelView::Char('\0'),
        ModelView::Record(es) => ModelView::Record(default_entries_from(es, 0)),
        ModelView::Optional(_, inner) => ModelView::Optional(
            false,
            Box::new(spec_default_like(*inner)),
        ),
        ModelView::List(_) => ModelView::List(Seq::empty()),
    }
}

/// The defaults of the entries of `es` from index `k` on.
pub open spec fn default_entries_from(es: Seq<EntryView>, k: int) -> Seq<EntryView>
    decreases es, es.len() - k,
{
    if k < 0 || k >= es.len() {
        Seq::empty()
    } else {
        seq![
            EntryView { name: es[k].name, value: spec_default_like(es[k].value) },
        ] + default_entries_from(es, k + 1)
    }
}

/// Builds the default instance of the same shape as `m`.
pub fn default_like(m: &Model) -> (r: Model)
    ensures
        r@ == spec_default_like(m@),
    decreases *m, 1int,
{
    match m {
        Model::Bool(_) => Model::Bool(false),
        Model::Uint(_) => Model::Uint(0),
        Model::Int(_) => Model::Int(0),
        Model::Text(_) => Model::Text(String::new()),
        Model::Char(_) => Model::Char('\0'),
        Model::Record(es) => {
            let defaults = default_entries(es);
            Model::Record(defaults)
        },
        Model::Optional(_, inner) => Model::Optional(false, Box::new(default_like(inner))),
        Model::List(_) => {
            let items: Vec<Model> = Vec::new();
            proof {
                assert(models_view_from(items@, 0) =~= Seq::empty());
            }
            Model::List(items)
        },
    }
}

fn default_entries(es: &Vec<Entry>) -> (r: Vec<Entry>)
    ensures
        entries_view_from(r@, 0) == default_entries_from(entries_view_from(es@, 0), 0),
    decreases es@, 0int,
{
    let ghost esv = entries_view_from(es@, 0);
    proof {
        lemma_entries_view_len(es@, 0);
    }
    let mut r: Vec<Entry> = Vec::new();
    let mut k: usize = 0;
    while k < es.len()
        invariant
            k <= es@.len(),
            esv == entries_view_from(es@, 0),
            esv.len() == es@.len(),
            forall|i: int|
                0 <= i < es@.len() ==> esv[i] == (EntryView {
                    name: es@[i].name@,
                    value: model_view(es@[i].value),
                }),
            entries_view_from(r@, 0) =~= default_entries_from(esv, 0).take(k as int),
        decreases es@.len() - k,
    {
        let name = String::from_str(es[k].name.as_str());
        let value = default_like(&es[k].value);
        let ghost r0 = r@;
        r.push(Entry { name, value });
        proof {
            lemma_entries_view_len(r0, 0);
            lemma_entries_view_len(r@, 0);
            lemma_default_entries_points(esv, 0);
            assert(r@.len() == k + 1);
            assert forall|i: int| 0 <= i < k + 1 implies entries_view_from(r@, 0)[i]
                == default_entries_from(esv, 0)[i] by {
                if i < k {
                    assert(r@[i] == r0[i]);
                    assert(entries_view_from(r0, 0)[i] == default_entries_from(esv, 0).take(
                        k as int,
                    )[i]);
                } else {
                    assert(r@[i].name@ == esv[i].name);
                    assert(model_view(r@[i].value) == spec_default_like(esv[i].value));
                }
            }
            assert(entries_view_from(r@, 0) =~= default_entries_from(esv, 0).take(k as int + 1));
        }
        k += 1;
    }
    proof {
        lemma_default_entries_points(esv, 0);
        assert(default_entries_from(esv, 0).take(es@.len() as int) =~= default_entries_from(
            esv,
            0,
        ));
    }
    r
}

pub proof fn lemma_default_entries_points(es: Seq<EntryView>, k: int)
    requires
        0 <= k <= es.len(),
    ensures
        (#[trigger] default_entries_from(es, k)).len() == es.len() - k,
        forall|i: int|
            k <= i < es.len() ==> default_entries_from(es, k)[i - k] == (EntryView {
                name: es[i].name,
                value: spec_default_like(es[i].value),
            }),
    decreases es.len() - k,
{
    if k < es.len() {
        lemma_default_entries_points(es, k + 1);
    }
}


/// Per-element state of a list: the retained child states together with the
/// initial and current lengths of the list (child states between the two are
/// kept so their snapshots survive transient shrinking, per the retention
/// law).
#[derive(Debug)]
pub struct VecState {
    pub initial_length: usize,
    pub valid_length: usize,
    pub current: Vec<StateNode>,
}

/// The shadow state of a model subtree.
#[derive(Debug)]
pub enum StateNode {
    Leaf(Field),
    Record(Vec<StateNode>),
    List(VecState),
}

/// The mathematical content of a [`VecState`].
pub ghost struct VecStateView {
    pub initial_length: int,
    pub valid_length: int,
    pub current: Seq<StateView>,
}

/// The mathematical content of a [`StateNode`].
pub ghost enum StateView {
    Leaf(FieldView),
    Record(Seq<StateView>),
    List(VecStateView),
}

/// The views of the state nodes of `v` from index `k` on.
pub open spec fn states_view_from(v: Seq<StateNode>, k: int) -> Seq<StateView>
    decreases v, v.len() - k,
{
    if k < 0 || k >= v.len() {
        Seq::empty()
    } else {
        seq![state_view(v[k])] + states_view_from(v, k + 1)
    }
}

/// The view of a state tree.
pub open spec fn state_view(s: StateNode) -> StateView
    decreases s, 0int,
{
    match s {
        StateNode::Leaf(f) => StateView::Leaf(f@),
        StateNode::Record(ch) => StateView::Record(states_view_from(ch@, 0)),
        StateNode::List(vs) => StateView::List(
            VecStateView {
                initial_length: vs.initial_length as int,
                valid_length: vs.valid_length as int,
                current: states_view_from(vs.current@, 0),
            },
        ),
    }
}

impl View for StateNode {
    type V = StateView;

    open spec fn view(&self) -> StateView {
        state_view(*self)
    }
}

impl View for VecState {
    type V = VecStateView;

    open spec fn view(&self) -> VecStateView {
        VecStateView {
            initial_length: self.initial_length as int,
            valid_length: self.valid_length as int,
            current: states_view_from(self.current@, 0),
        }
    }
}

pub proof fn lemma_states_view_points(v: Seq<StateNode>, k: int)
    requires
        0 <= k <= v.len(),
    ensures
        (#[trigger] states_view_from(v, k)).len() == v.len() - k,
        forall|i: int| k <= i < v.len() ==> states_view_from(v, k)[i - k] == state_view(v[i]),
    decreases v.len() - k,
{
    if k < v.len() {
        lemma_states_view_points(v, k + 1);
    }
}

/// The state made for the entries of `es` from index `k` on.
pub open spec fn create_entry_states_from(es: Seq<EntryView>, with_initial: bool, g: u64, k: int)
    -> Seq<StateView>
    decreases es, es.len() - k,
{
    if k < 0 || k >= es.len() {
        Seq::empty()
    } else {
        seq![spec_state_create(es[k].value, with_initial, g)] + create_entry_states_from(
            es,
            with_initial,
            g,
            k + 1,
        )
    }
}

/// The state made for the models of `items` from index `k` on.
pub open spec fn create_model_states_from(items: Seq<ModelView>, with_initial: bool, g: u64, k: int)
    -> Seq<StateView>
    decreases items, items.len() - k,
{
    if k < 0 || k >= items.len() {
        Seq::empty()
    } else {
        seq![spec_state_create(items[k], with_initial, g)] + create_model_states_from(
            items,
            with_initial,
            g,
            k + 1,
        )
    }
}

/// The state made for a model subtree: a fresh field per scalar leaf (with a
/// snapshot exactly when `with_initial` holds), one child state per record
/// field, list bookkeeping set to the model's length, and, for an absent
/// optional, the state of the transient default without a snapshot.
pub open spec fn spec_state_create(m: ModelView, with_initial: bool, g: u64) -> StateView
    decreases m, 1int,
{
    match m {
        ModelView::Record(es) => StateView::Record(
            create_entry_states_from(es, with_initial, g, 0),
        ),
        ModelView::Optional(present, inner) => spec_state_create(
            *inner,
            with_initial && present,
            g,
        ),
        ModelView::List(items) => StateView::List(
            VecStateView {
                initial_length: items.len() as int,
                valid_length: items.len() as int,
                current: create_model_states_from(items, with_initial, g, 0),
            },
        ),
        _ => StateView::Leaf(spec_field_create(scalar_text(m), with_initial, g)),
    }
}

pub proof fn lemma_create_entry_states_points(
    es: Seq<EntryView>,
    with_initial: bool,
    g: u64,
    k: int,
)
    requires
        0 <= k <= es.len(),
    ensures
        (#[trigger] create_entry_states_from(es, with_initial, g, k)).len() == es.len() - k,
        forall|i: int|
            k <= i < es.len() ==> create_entry_states_from(es, with_initial, g, k)[i - k]
                == spec_state_create(es[i].value, with_initial, g),
    decreases es.len() - k,
{
    if k < es.len() {
        lemma_create_entry_states_points(es, with_initial, g, k + 1);
    }
}

pub proof fn lemma_create_model_states_points(
    items: Seq<ModelView>,
    with_initial: bool,
    g: u64,
    k: int,
)
    requires
        0 <= k <= items.len(),
    ensures
        (#[trigger] create_model_states_from(items, with_initial, g, k)).len() == items.len() - k,
        forall|i: int|
            k <= i < items.len() ==> create_model_states_from(items, with_initial, g, k)[i - k]
                == spec_state_create(items[i], with_initial, g),
    decreases items.len() - k,
{
    if k < items.len() {
        lemma_create_model_states_points(items, with_initial, g, k + 1);
    }
}

/// Updates `children[k..es.len())` in order against the record entries,
/// threading the generation counter left to right.
pub open spec fn spec_update_entries(
    children: Seq<StateView>,
    es: Seq<EntryView>,
    k: int,
    c: u64,
) -> (Seq<StateView>, u64)
    decreases es, es.len() - k,
{
    if k < 0 || k >= es.len() {
        (children, c)
    } else {
        let (s2, c2) = spec_state_update(children[k], es[k].value, c);
        spec_update_entries(children.update(k, s2), es, k + 1, c2)
    }
}

/// Updates `children[k..items.len())` in order against the list items,
/// threading the generation counter left to right; children past the item
/// count are left as they are.
pub open spec fn spec_update_models(
    children: Seq<StateView>,
    items: Seq<ModelView>,
    k: int,
    c: u64,
) -> (Seq<StateView>, u64)
    decreases items, items.len() - k,
{
    if k < 0 || k >= items.len() {
        (children, c)
    } else {
        let (s2, c2) = spec_state_update(children[k], items[k], c);
        spec_update_models(children.update(k, s2), items, k + 1, c2)
    }
}

/// Resynchronises a state tree against a model: leaf texts are re-set (which
/// stamps changed leaves), record children are updated field by field, and a
/// list appends fresh no-snapshot states for new items, truncates retained
/// states back to the initial length once the model is at or below it, zips
/// the remaining pairs, and records the model's length.  A state whose shape
/// no longer matches the model is rebuilt from scratch without snapshots.
pub open spec fn spec_state_update(s: StateView, m: ModelView, c: u64) -> (StateView, u64)
    decreases m, 1int,
{
    match m {
        ModelView::Record(es) => {
            if s is Record && s->Record_0.len() == es.len() {
                let (ch2, c2) = spec_update_entries(s->Record_0, es, 0, c);
                (StateView::Record(ch2), c2)
            } else {
                (spec_state_create(m, false, c), c)
            }
        },
        ModelView::Optional(present, inner) => spec_state_update(s, *inner, c),
        ModelView::List(items) => {
            if s is List {
                let vs = s->List_0;
                let appended = vs.current + create_model_states_from(
                    items,
                    false,
                    c,
                    vs.current.len() as int,
                );
                let truncated = if items.len() <= vs.initial_length && vs.initial_length
                    < appended.len() {
                    appended.subrange(0, vs.initial_length)
                } else {
                    appended
                };
                let (zipped, c2) = spec_update_models(truncated, items, 0, c);
                (
                    StateView::List(
                        VecStateView {
                            initial_length: vs.initial_length,
                            valid_length: items.len() as int,
                            current: zipped,
                        },
                    ),
                    c2,
                )
            } else {
                (spec_state_create(m, false, c), c)
            }
        },
        _ => {
            if s is Leaf {
                let (f2, c2) = spec_field_set_value(s->Leaf_0, scalar_text(m), c);
                (StateView::Leaf(f2), c2)
            } else {
                (spec_state_create(m, false, c), c)
            }
        },
    }
}

/// Whether a state tree has the shape the model calls for: a leaf per
/// scalar, matching child counts for records, and the list length laws --
/// the valid length equals the model's length, retained states dominate both
/// it and the initial length, and states beyond the initial length are kept
/// only while the model is longer than it.
pub open spec fn state_ok(m: ModelView, s: StateView) -> bool
    decreases m, 1int,
{
    match m {
        ModelView::Record(es) => s is Record && s->Record_0.len() == es.len() && entries_ok(
            es,
            s->Record_0,
            0,
        ),
        ModelView::Optional(present, inner) => state_ok(*inner, s),
        ModelView::List(items) => s is List && {
            let vs = s->List_0;
            &&& vs.valid_length == items.len()
            &&& vs.current.len() >= items.len()
            &&& vs.current.len() >= vs.initial_length
            &&& (items.len() <= vs.initial_length ==> vs.current.len() == vs.initial_length)
            &&& models_ok(items, vs.current, 0)
        },
        _ => s is Leaf,
    }
}

/// `state_ok` for each record entry and its child state, from `k` on.
pub open spec fn entries_ok(es: Seq<EntryView>, children: Seq<StateView>, k: int) -> bool
    decreases es, es.len() - k,
{
    if k < 0 || k >= es.len() {
        true
    } else {
        k < children.len() && state_ok(es[k].value, children[k]) && entries_ok(es, children, k + 1)
    }
}

/// `state_ok` for each list item and its child state, from `k` on.
pub open spec fn models_ok(items: Seq<ModelView>, children: Seq<StateView>, k: int) -> bool
    decreases items, items.len() - k,
{
    if k < 0 || k >= items.len() {
        true
    } else {
        k < children.len() && state_ok(items[k], children[k]) && models_ok(items, children, k + 1)
    }
}

/// The state-only part of the invariant, which also covers retained children
/// past the model's current length: every list node's retained states
/// dominate both its lengths.
pub open spec fn state_inv(s: StateView) -> bool
    decreases s, 1int,
{
    match s {
        StateView::Leaf(_) => true,
        StateView::Record(ch) => all_inv(ch, 0),
        StateView::List(vs) => {
            &&& vs.current.len() >= vs.initial_length
            &&& vs.current.len() >= vs.valid_length
            &&& 0 <= vs.valid_length
            &&& 0 <= vs.initial_length
            &&& all_inv(vs.current, 0)
        },
    }
}

/// `state_inv` for each child from `k` on.
pub open spec fn all_inv(children: Seq<StateView>, k: int) -> bool
    decreases children, children.len() - k,
{
    if k < 0 || k >= children.len() {
        true
    } else {
        state_inv(children[k]) && all_inv(children, k + 1)
    }
}

/// Whether a model value is well formed: every absent optional holds the
/// default instance of its shape as the transient value the read views show.
pub open spec fn model_wf(m: ModelView) -> bool
    decreases m, 1int,
{
    match m {
        ModelView::Record(es) => entries_wf(es, 0),
        ModelView::Optional(present, inner) => model_wf(*inner) && (!present ==> *inner
            == spec_default_like(*inner)),
        ModelView::List(items) => models_wf(items, 0),
        _ => true,
    }
}

/// `model_wf` for each record entry from `k` on.
pub open spec fn entries_wf(es: Seq<EntryView>, k: int) -> bool
    decreases es, es.len() - k,
{
    if k < 0 || k >= es.len() {
        true
    } else {
        model_wf(es[k].value) && entries_wf(es, k + 1)
    }
}

/// `model_wf` for each list item from `k` on.
pub open spec fn models_wf(items: Seq<ModelView>, k: int) -> bool
    decreases items, items.len() - k,
{
    if k < 0 || k >= items.len() {
        true
    } else {
        model_wf(items[k]) && models_wf(items, k + 1)
    }
}

pub proof fn lemma_states_view_push(v: Seq<StateNode>, x: StateNode)
    ensures
        #[trigger] states_view_from(v.push(x), 0) =~= states_view_from(v, 0).push(state_view(x)),
{
    lemma_states_view_points(v, 0);
    lemma_states_view_points(v.push(x), 0);
    assert forall|i: int| 0 <= i < v.len() + 1 implies states_view_from(v.push(x), 0)[i]
        == states_view_from(v, 0).push(state_view(x))[i] by {
        if i < v.len() {
            assert(v.push(x)[i] == v[i]);
        } else {
            assert(v.push(x)[i] == x);
        }
    }
}

pub proof fn lemma_states_view_update(v: Seq<StateNode>, k: int, x: StateNode)
    requires
        0 <= k < v.len(),
    ensures
        #[trigger] states_view_from(v.update(k, x), 0) =~= states_view_from(v, 0).update(
            k,
            state_view(x),
        ),
{
    lemma_states_view_points(v, 0);
    lemma_states_view_points(v.update(k, x), 0);
    assert forall|i: int| 0 <= i < v.len() implies states_view_from(v.update(k, x), 0)[i]
        == states_view_from(v, 0).update(k, state_view(x))[i] by {
        if i != k {
            assert(v.update(k, x)[i] == v[i]);
        } else {
            assert(v.update(k, x)[i] == x);
        }
    }
}

/// Builds the state for a model subtree, per [`spec_state_create`].
#[verifier::loop_isolation(false)]
pub fn state_create(m: &Model, with_initial: bool, g: u64) -> (r: StateNode)
    ensures
        r@ == spec_state_create(m@, with_initial, g),
    decreases *m, 2int,
{
    match m {
        Model::Record(es) => {
            let ghost esv = entries_view_from(es@, 0);
            proof {
                lemma_entries_view_len(es@, 0);
                lemma_create_entry_states_points(esv, with_initial, g, 0);
            }
            let mut children: Vec<StateNode> = Vec::new();
            let mut k: usize = 0;
            proof {
                assert(states_view_from(children@, 0) =~= create_entry_states_from(
                    esv,
                    with_initial,
                    g,
                    0,
                ).take(0));
            }
            while k < es.len()
                invariant
                    k <= es@.len(),
                    esv == entries_view_from(es@, 0),
                    esv.len() == es@.len(),
                    forall|i: int|
                        0 <= i < es@.len() ==> esv[i] == (EntryView {
                            name: es@[i].name@,
                            value: model_view(es@[i].value),
                        }),
                    children@.len() == k,
                    states_view_from(children@, 0) =~= create_entry_states_from(
                        esv,
                        with_initial,
                        g,
                        0,
                    ).take(k as int),
                decreases es@.len() - k,
            {
                proof {
                    assert(decreases_to!(*m => es@[k as int].value));
                }
                let child = state_create(&es[k].value, with_initial, g);
                let ghost ch0 = children@;
                children.push(child);
                proof {
                    lemma_states_view_push(ch0, children@.last());
                    lemma_create_entry_states_points(esv, with_initial, g, 0);
                    assert(states_view_from(children@, 0) =~= create_entry_states_from(
                        esv,
                        with_initial,
                        g,
                        0,
                    ).take(k as int + 1));
                }
                k += 1;
            }
            proof {
                lemma_create_entry_states_points(esv, with_initial, g, 0);
                assert(create_entry_states_from(esv, with_initial, g, 0).take(es@.len() as int)
                    =~= create_entry_states_from(esv, with_initial, g, 0));
            }
            StateNode::Record(children)
        },
        Model::Optional(present, inner) => state_create(inner, with_initial && *present, g),
        Model::List(items) => {
            let ghost itemsv = models_view_from(items@, 0);
            proof {
                lemma_models_view_len(items@, 0);
                lemma_create_model_states_points(itemsv, with_initial, g, 0);
            }
            let mut children: Vec<StateNode> = Vec::new();
            let mut k: usize = 0;
            proof {
                assert(states_view_from(children@, 0) =~= create_model_states_from(
                    itemsv,
                    with_initial,
                    g,
                    0,
                ).take(0));
            }
            while k < items.len()
                invariant
                    k <= items@.len(),
                    itemsv == models_view_from(items@, 0),
                    itemsv.len() == items@.len(),
                    forall|i: int| 0 <= i < items@.len() ==> itemsv[i] == model_view(items@[i]),
                    children@.len() == k,
                    states_view_from(children@, 0) =~= create_model_states_from(
                        itemsv,
                        with_initial,
                        g,
                        0,
                    ).take(k as int),
                decreases items@.len() - k,
            {
                proof {
                    assert(decreases_to!(*m => items@[k as int]));
                }
                let child = state_create(&items[k], with_initial, g);
                let ghost ch0 = children@;
                children.push(child);
                proof {
                    lemma_states_view_push(ch0, children@.last());
                    lemma_create_model_states_points(itemsv, with_initial, g, 0);
                    assert(states_view_from(children@, 0) =~= create_model_states_from(
                        itemsv,
                        with_initial,
                        g,
                        0,
                    ).take(k as int + 1));
                }
                k += 1;
            }
            proof {
                lemma_create_model_states_points(itemsv, with_initial, g, 0);
                assert(create_model_states_from(itemsv, with_initial, g, 0).take(
                    items@.len() as int,
                ) =~= create_model_states_from(itemsv, with_initial, g, 0));
            }
            StateNode::List(
                VecState {
                    initial_length: items.len(),
                    valid_length: items.len(),
                    current: children,
                },
            )
        },
        _ => StateNode::Leaf(Field::create(scalar_to_text(m), with_initial, g)),
    }
}

pub proof fn lemma_states_view_prefix(v: Seq<StateNode>, n: int)
    requires
        0 <= n <= v.len(),
    ensures
        #[trigger] states_view_from(v.take(n), 0) =~= states_view_from(v, 0).take(n),
{
    lemma_states_view_points(v, 0);
    lemma_states_view_points(v.take(n), 0);
    assert forall|i: int| 0 <= i < n implies states_view_from(v.take(n), 0)[i]
        == states_view_from(v, 0).take(n)[i] by {
        assert(v.take(n)[i] == v[i]);
    }
}

/// Resynchronises a state tree against a model, per [`spec_state_update`].
#[verifier::loop_isolation(false)]
#[verifier::rlimit(60)]
pub fn state_update(s: StateNode, m: &Model, counter: &mut u64) -> (r: StateNode)
    ensures
        (r@, *final(counter)) == spec_state_update(s@, m@, *old(counter)),
    decreases *m, 2int,
{
    match m {
        Model::Record(es) => {
            match s {
                StateNode::Record(children) => {
                    if children.len() == es.len() {
                        let mut children = children;
                        let ghost esv = entries_view_from(es@, 0);
                        let ghost sv0 = states_view_from(children@, 0);
                        let ghost c0 = *counter;
                        proof {
                            lemma_entries_view_len(es@, 0);
                            lemma_states_view_points(children@, 0);
                        }
                        let mut k: usize = 0;
                        while k < es.len()
                            invariant
                                k <= es@.len(),
                                children@.len() == es@.len(),
                                spec_update_entries(sv0, esv, 0, c0) == spec_update_entries(
                                    states_view_from(children@, 0),
                                    esv,
                                    k as int,
                                    *counter,
                                ),
                            decreases es@.len() - k,
                        {
                            proof {
                                assert(decreases_to!(*m => es@[k as int].value));
                            }
                            let ghost chv_pre = children@;
                            let ghost sv_pre = states_view_from(children@, 0);
                            let ghost c_pre = *counter;
                            let child = children.remove(k);
                            let child2 = state_update(child, &es[k].value, counter);
                            children.insert(k, child2);
                            proof {
                                lemma_states_view_points(chv_pre, 0);
                                assert(children@ =~= chv_pre.update(k as int, children@[k as int]));
                                lemma_states_view_update(chv_pre, k as int, children@[k as int]);
                                assert(states_view_from(children@, 0) =~= sv_pre.update(
                                    k as int,
                                    state_view(children@[k as int]),
                                ));
                                assert(spec_update_entries(sv_pre, esv, k as int, c_pre)
                                    == spec_update_entries(
                                    states_view_from(children@, 0),
                                    esv,
                                    k as int + 1,
                                    *counter,
                                ));
                            }
                            k += 1;
                        }
                        proof {
                            assert(spec_update_entries(
                                states_view_from(children@, 0),
                                esv,
                                es@.len() as int,
                                *counter,
                            ) == (states_view_from(children@, 0), *counter));
                            assert(s@ == StateView::Record(sv0));
                            assert(m@ == ModelView::Record(esv));
                        }
                        StateNode::Record(children)
                    } else {
                        proof {
                            lemma_states_view_points(children@, 0);
                            lemma_entries_view_len(es@, 0);
                        }
                        state_create(m, false, *counter)
                    }
                },
                _ => state_create(m, false, *counter),
            }
        },
        Model::Optional(_, inner) => state_update(s, &**inner, counter),
        Model::List(items) => {
            match s {
                StateNode::List(vs) => {
                    let mut vs = vs;
                    let ghost itemsv = models_view_from(items@, 0);
                    let ghost cur0 = states_view_from(vs.current@, 0);
                    let ghost g0 = *counter;
                    let ghost init0 = vs.initial_length as int;
                    proof {
                        lemma_models_view_len(items@, 0);
                        lemma_states_view_points(vs.current@, 0);
                        lemma_create_model_states_points(itemsv, false, g0, 0);
                    }
                    let ghost app_target = cur0 + create_model_states_from(
                        itemsv,
                        false,
                        g0,
                        cur0.len() as int,
                    );
                    proof {
                        if cur0.len() < itemsv.len() {
                            lemma_create_model_states_points(itemsv, false, g0, cur0.len() as int);
                        }
                        assert(states_view_from(vs.current@, 0) =~= app_target.take(
                            vs.current@.len() as int,
                        ));
                    }
                    while vs.current.len() < items.len()
                        invariant
                            vs.initial_length as int == init0,
                            *counter == g0,
                            cur0.len() <= vs.current@.len(),
                            vs.current@.len() <= app_target.len(),
                            states_view_from(vs.current@, 0) =~= app_target.take(
                                vs.current@.len() as int,
                            ),
                        decreases items@.len() - vs.current@.len(),
                    {
                        let idx = vs.current.len();
                        proof {
                            assert(decreases_to!(*m => items@[idx as int]));
                        }
                        let child = state_create(&items[idx], false, *counter);
                        let ghost ch0 = vs.current@;
                        vs.current.push(child);
                        proof {
                            lemma_states_view_push(ch0, vs.current@.last());
                            lemma_create_model_states_points(itemsv, false, g0, cur0.len() as int);
                            assert(states_view_from(vs.current@, 0) =~= app_target.take(
                                vs.current@.len() as int,
                            ));
                        }
                    }
                    proof {
                        assert(app_target.take(vs.current@.len() as int) =~= app_target);
                        assert(states_view_from(vs.current@, 0) =~= app_target);
                    }
                    let ghost truncated = if itemsv.len() <= init0 && init0 < app_target.len() {
                        app_target.subrange(0, init0)
                    } else {
                        app_target
                    };
                    if items.len() <= vs.initial_length {
                        let ghost pre_trunc = vs.current@;
                        vs.current.truncate(vs.initial_length);
                        proof {
                            if init0 < pre_trunc.len() {
                                assert(vs.current@ =~= pre_trunc.take(init0));
                                lemma_states_view_prefix(pre_trunc, init0);
                                assert(app_target.subrange(0, init0) =~= app_target.take(init0));
                            } else {
                                assert(vs.current@ =~= pre_trunc);
                            }
                            assert(states_view_from(vs.current@, 0) =~= truncated);
                        }
                    }
                    proof {
                        assert(states_view_from(vs.current@, 0) =~= truncated);
                    }
                    let ghost zip0 = states_view_from(vs.current@, 0);
                    let ghost cz0 = *counter;
                    let mut k: usize = 0;
                    proof {
                        lemma_states_view_points(vs.current@, 0);
                    }
                    while k < items.len()
                        invariant
                            k <= items@.len(),
                            vs.initial_length as int == init0,
                            vs.current@.len() == zip0.len(),
                            items@.len() <= vs.current@.len(),
                            spec_update_models(zip0, itemsv, 0, cz0) == spec_update_models(
                                states_view_from(vs.current@, 0),
                                itemsv,
                                k as int,
                                *counter,
                            ),
                        decreases items@.len() - k,
                    {
                        proof {
                            assert(decreases_to!(*m => items@[k as int]));
                        }
                        let ghost chv_pre = vs.current@;
                        let ghost sv_pre = states_view_from(vs.current@, 0);
                        let ghost c_pre = *counter;
                        let child = vs.current.remove(k);
                        let child2 = state_update(child, &items[k], counter);
                        vs.current.insert(k, child2);
                        proof {
                            lemma_states_view_points(chv_pre, 0);
                            assert(vs.current@ =~= chv_pre.update(k as int, vs.current@[k as int]));
                            lemma_states_view_update(chv_pre, k as int, vs.current@[k as int]);
                            assert(states_view_from(vs.current@, 0) =~= sv_pre.update(
                                k as int,
                                state_view(vs.current@[k as int]),
                            ));
                            assert(spec_update_models(sv_pre, itemsv, k as int, c_pre)
                                == spec_update_models(
                                states_view_from(vs.current@, 0),
                                itemsv,
                                k as int + 1,
                                *counter,
                            ));
                        }
                        k += 1;
                    }
                    vs.valid_length = items.len();
                    StateNode::List(vs)
                },
                _ => state_create(m, false, *counter),
            }
        },
        _ => {
            match s {
                StateNode::Leaf(f) => {
                    let mut f = f;
                    f.set_value(scalar_to_text(m), counter);
                    StateNode::Leaf(f)
                },
                _ => state_create(m, false, *counter),
            }
        },
    }
}

/// Whether any of `children[k..n)` (clipped to the sequence) is dirty.
pub open spec fn any_dirty(children: Seq<StateView>, k: int, n: int) -> bool
    decreases children, children.len() - k,
{
    if k < 0 || k >= n || k >= children.len() {
        false
    } else {
        state_dirty(children[k]) || any_dirty(children, k + 1, n)
    }
}

/// A list state is dirty when its length changed from the initial length, or
/// when one of the children within the valid length is dirty.
pub open spec fn vecstate_dirty(vs: VecStateView) -> bool
    decreases vs.current, vs.current.len() + 1,
{
    vs.valid_length != vs.initial_length || any_dirty(vs.current, 0, vs.valid_length)
}

/// Whether a state subtree holds any dirty field (or a list whose length
/// changed): a record or list is dirty exactly when something under it is.
pub open spec fn state_dirty(s: StateView) -> bool
    decreases s, 1int,
{
    match s {
        StateView::Leaf(f) => field_dirty(f),
        StateView::Record(ch) => any_dirty(ch, 0, ch.len() as int),
        StateView::List(vs) => vecstate_dirty(vs),
    }
}

/// The largest generation stamp among `children[k..)`, 0 when empty.
pub open spec fn max_gen(children: Seq<StateView>, k: int) -> u64
    decreases children, children.len() - k,
{
    if k < 0 || k >= children.len() {
        0u64
    } else {
        let g = state_generation(children[k]);
        let r = max_gen(children, k + 1);
        if g >= r {
            g
        } else {
            r
        }
    }
}

/// The generation of a list state: the largest stamp among all retained
/// children, defunct ones included.
pub open spec fn vecstate_generation(vs: VecStateView) -> u64
    decreases vs.current, vs.current.len() + 1,
{
    max_gen(vs.current, 0)
}

/// The generation of a state subtree: a leaf's own stamp, else the largest
/// stamp among the children.
pub open spec fn state_generation(s: StateView) -> u64
    decreases s, 1int,
{
    match s {
        StateView::Leaf(f) => f.generation,
        StateView::Record(ch) => max_gen(ch, 0),
        StateView::List(vs) => vecstate_generation(vs),
    }
}

#[verifier::loop_isolation(false)]
fn any_child_dirty(children: &Vec<StateNode>, n: usize) -> (r: bool)
    ensures
        r == any_dirty(states_view_from(children@, 0), 0, n as int),
    decreases *children, 1int,
{
    let ghost chv = states_view_from(children@, 0);
    proof {
        lemma_states_view_points(children@, 0);
    }
    let mut k: usize = 0;
    while k < n && k < children.len()
        invariant
            k <= children@.len(),
            any_dirty(chv, 0, n as int) == any_dirty(chv, k as int, n as int),
        decreases children@.len() - k,
    {
        proof {
            assert(decreases_to!(*children => children@[k as int]));
        }
        if children[k].dirty() {
            return true;
        }
        k += 1;
    }
    false
}

#[verifier::loop_isolation(false)]
fn max_children_gen(children: &Vec<StateNode>) -> (r: u64)
    ensures
        r == max_gen(states_view_from(children@, 0), 0),
    decreases *children, 1int,
{
    let ghost chv = states_view_from(children@, 0);
    proof {
        lemma_states_view_points(children@, 0);
    }
    let mut acc: u64 = 0;
    let mut k: usize = 0;
    while k < children.len()
        invariant
            k <= children@.len(),
            max_gen(chv, 0) == if acc >= max_gen(chv, k as int) {
                acc
            } else {
                max_gen(chv, k as int)
            },
        decreases children@.len() - k,
    {
        proof {
            assert(decreases_to!(*children => children@[k as int]));
        }
        let g = children[k].generation();
        if g > acc {
            acc = g;
        }
        k += 1;
    }
    acc
}

impl Dirty for StateNode {
    open spec fn dirty_spec(&self) -> bool {
        state_dirty(self@)
    }

    fn dirty(&self) -> (r: bool)
        ensures
            r == self.dirty_spec(),
        decreases *self, 2int,
    {
        match self {
            StateNode::Leaf(f) => f.dirty(),
            StateNode::Record(ch) => {
                proof {
                    lemma_states_view_points(ch@, 0);
                }
                any_child_dirty(ch, ch.len())
            },
            StateNode::List(vs) => {
                vs.valid_length != vs.initial_length || any_child_dirty(
                    &vs.current,
                    vs.valid_length,
                )
            },
        }
    }
}

impl Dirty for VecState {
    open spec fn dirty_spec(&self) -> bool {
        vecstate_dirty(self@)
    }

    fn dirty(&self) -> (r: bool)
        ensures
            r == self.dirty_spec(),
    {
        self.valid_length != self.initial_length || any_child_dirty(
            &self.current,
            self.valid_length,
        )
    }
}

impl StateNode {
    /// The generation of this subtree: a leaf's stamp, else the largest
    /// stamp among the children.
    pub fn generation(&self) -> (r: u64)
        ensures
            r == state_generation(self@),
        decreases *self, 2int,
    {
        match self {
            StateNode::Leaf(f) => f.generation(),
            StateNode::Record(ch) => max_children_gen(ch),
            StateNode::List(vs) => max_children_gen(&vs.current),
        }
    }

    /// The leaf state, when this subtree is a single field.
    pub fn as_field(&self) -> (r: Option<&Field>)
        ensures
            r is Some <==> self@ is Leaf,
            r is Some ==> r->0@ == self@->Leaf_0,
    {
        match self {
            StateNode::Leaf(f) => Option::Some(f),
            _ => Option::None,
        }
    }

    /// The list state, when this subtree is a list.
    pub fn as_list(&self) -> (r: Option<&VecState>)
        ensures
            r is Some <==> self@ is List,
            r is Some ==> r->0@ == self@->List_0,
    {
        match self {
            StateNode::List(vs) => Option::Some(vs),
            _ => Option::None,
        }
    }

    /// The state of the record field at `i`, when this subtree is a record.
    pub fn child(&self, i: usize) -> (r: Option<&StateNode>)
        ensures
            r is Some <==> (self@ is Record && i < self@->Record_0.len()),
            r is Some ==> r->0@ == self@->Record_0[i as int],
    {
        match self {
            StateNode::Record(ch) => {
                proof {
                    lemma_states_view_points(ch@, 0);
                }
                if i < ch.len() {
                    Option::Some(&ch[i])
                } else {
                    Option::None
                }
            },
            _ => Option::None,
        }
    }
}

impl VecState {
    /// The length the list had when its state was created.
    pub fn initial_length(&self) -> (r: usize)
        ensures
            r == self@.initial_length,
    {
        self.initial_length
    }

    /// The model's current length.
    pub fn valid_length(&self) -> (r: usize)
        ensures
            r == self@.valid_length,
    {
        self.valid_length
    }

    /// How many child states are retained (at least the valid length; more
    /// while defunct children are kept for their snapshots).
    pub fn retained(&self) -> (r: usize)
        ensures
            r == self@.current.len(),
    {
        proof {
            lemma_states_view_points(self.current@, 0);
        }
        self.current.len()
    }

    /// The child state at `i`, when retained.
    pub fn child(&self, i: usize) -> (r: Option<&StateNode>)
        ensures
            r is Some <==> i < self@.current.len(),
            r is Some ==> r->0@ == self@.current[i as int],
    {
        proof {
            lemma_states_view_points(self.current@, 0);
        }
        if i < self.current.len() {
            Option::Some(&self.current[i])
        } else {
            Option::None
        }
    }

    /// The largest generation stamp among the retained children.
    pub fn generation(&self) -> (r: u64)
        ensures
            r == vecstate_generation(self@),
    {
        max_children_gen(&self.current)
    }
}

pub proof fn lemma_all_inv_iff(children: Seq<StateView>, k: int)
    requires
        0 <= k <= children.len(),
    ensures
        all_inv(children, k) <==> (forall|j: int|
            k <= j < children.len() ==> state_inv(#[trigger] children[j])),
    decreases children.len() - k,
{
    if k < children.len() {
        lemma_all_inv_iff(children, k + 1);
        let x = children[k];
    }
}

proof fn lemma_create_entries_wf(es: Seq<EntryView>, with_initial: bool, g: u64, k: int)
    requires
        0 <= k <= es.len(),
    ensures
        entries_ok(es, create_entry_states_from(es, with_initial, g, 0), k),
        all_inv(create_entry_states_from(es, with_initial, g, 0), k),
    decreases es, es.len() - k,
{
    let ch = create_entry_states_from(es, with_initial, g, 0);
    lemma_create_entry_states_points(es, with_initial, g, 0);
    if k < es.len() {
        assert(decreases_to!(es => es[k].value));
        lemma_create_wf(es[k].value, with_initial, g);
        lemma_create_entries_wf(es, with_initial, g, k + 1);
    }
}

proof fn lemma_create_models_wf(items: Seq<ModelView>, with_initial: bool, g: u64, k: int)
    requires
        0 <= k <= items.len(),
    ensures
        models_ok(items, create_model_states_from(items, with_initial, g, 0), k),
        all_inv(create_model_states_from(items, with_initial, g, 0), k),
    decreases items, items.len() - k,
{
    let ch = create_model_states_from(items, with_initial, g, 0);
    lemma_create_model_states_points(items, with_initial, g, 0);
    if k < items.len() {
        assert(decreases_to!(items => items[k]));
        lemma_create_wf(items[k], with_initial, g);
        lemma_create_models_wf(items, with_initial, g, k + 1);
    }
}

/// Freshly created state is well formed for the model it was made from.
pub proof fn lemma_create_wf(m: ModelView, with_initial: bool, g: u64)
    ensures
        state_ok(m, spec_state_create(m, with_initial, g)),
        state_inv(spec_state_create(m, with_initial, g)),
    decreases m, 2int,
{
    match m {
        ModelView::Record(es) => {
            lemma_create_entry_states_points(es, with_initial, g, 0);
            lemma_create_entries_wf(es, with_initial, g, 0);
        },
        ModelView::Optional(present, inner) => {
            lemma_create_wf(*inner, with_initial && present, g);
        },
        ModelView::List(items) => {
            lemma_create_model_states_points(items, with_initial, g, 0);
            lemma_create_models_wf(items, with_initial, g, 0);
        },
        _ => {},
    }
}

proof fn lemma_update_entries_wf(children: Seq<StateView>, es: Seq<EntryView>, k: int, c: u64)
    requires
        0 <= k <= es.len(),
        children.len() == es.len(),
        all_inv(children, 0),
    ensures
        ({
            let (ch2, c2) = spec_update_entries(children, es, k, c);
            &&& ch2.len() == children.len()
            &&& all_inv(ch2, 0)
            &&& entries_ok(es, ch2, k)
            &&& c <= c2
        }),
    decreases es, es.len() - k,
{
    if k < es.len() {
        let (s2, c2) = spec_state_update(children[k], es[k].value, c);
        lemma_all_inv_iff(children, 0);
        assert(decreases_to!(es => es[k].value));
        lemma_update_wf(children[k], es[k].value, c);
        let ch1 = children.update(k, s2);
        lemma_all_inv_iff(ch1, 0);
        lemma_update_entries_wf(ch1, es, k + 1, c2);
        let (ch2, c3) = spec_update_entries(ch1, es, k + 1, c2);
        assert(ch2[k] == s2) by {
            lemma_update_prefix_entries(ch1, es, k + 1, c2, k);
        }
    }
}

proof fn lemma_update_models_wf(children: Seq<StateView>, items: Seq<ModelView>, k: int, c: u64)
    requires
        0 <= k <= items.len(),
        children.len() >= items.len(),
        all_inv(children, 0),
    ensures
        ({
            let (ch2, c2) = spec_update_models(children, items, k, c);
            &&& ch2.len() == children.len()
            &&& all_inv(ch2, 0)
            &&& models_ok(items, ch2, k)
            &&& c <= c2
        }),
    decreases items, items.len() - k,
{
    if k < items.len() {
        let (s2, c2) = spec_state_update(children[k], items[k], c);
        lemma_all_inv_iff(children, 0);
        assert(decreases_to!(items => items[k]));
        lemma_update_wf(children[k], items[k], c);
        let ch1 = children.update(k, s2);
        lemma_all_inv_iff(ch1, 0);
        lemma_update_models_wf(ch1, items, k + 1, c2);
        let (ch2, c3) = spec_update_models(ch1, items, k + 1, c2);
        assert(ch2[k] == s2) by {
            lemma_update_prefix_models(ch1, items, k + 1, c2, k);
        }
    }
}

/// Positions before `k` are untouched by the entry fold from `k` on.
proof fn lemma_update_prefix_entries(
    children: Seq<StateView>,
    es: Seq<EntryView>,
    k: int,
    c: u64,
    j: int,
)
    requires
        0 <= j < k,
        j < children.len(),
        es.len() <= children.len(),
    ensures
        ({
            let (ch2, c2) = spec_update_entries(children, es, k, c);
            j < ch2.len() && ch2[j] == children[j]
        }),
    decreases es, es.len() - k,
{
    if 0 <= k < es.len() {
        let (s2, c2) = spec_state_update(children[k], es[k].value, c);
        lemma_update_prefix_entries(children.update(k, s2), es, k + 1, c2, j);
    }
}

/// Positions before `k` are untouched by the item fold from `k` on.
proof fn lemma_update_prefix_models(
    children: Seq<StateView>,
    items: Seq<ModelView>,
    k: int,
    c: u64,
    j: int,
)
    requires
        0 <= j < k,
        j < children.len(),
        items.len() <= children.len(),
    ensures
        ({
            let (ch2, c2) = spec_update_models(children, items, k, c);
            j < ch2.len() && ch2[j] == children[j]
        }),
    decreases items, items.len() - k,
{
    if 0 <= k < items.len() {
        let (s2, c2) = spec_state_update(children[k], items[k], c);
        lemma_update_prefix_models(children.update(k, s2), items, k + 1, c2, j);
    }
}

/// Updating a well-formed state against any model yields state that is well
/// formed for that model, without ever decreasing the generation counter:
/// the list-length laws (the valid length tracks the model, retained
/// children dominate both lengths, and children past the initial length are
/// dropped as soon as the model is at or below it) hold after every update.
pub proof fn lemma_update_wf(s: StateView, m: ModelView, c: u64)
    requires
        state_inv(s),
    ensures
        ({
            let (s2, c2) = spec_state_update(s, m, c);
            &&& state_ok(m, s2)
            &&& state_inv(s2)
            &&& c <= c2
        }),
    decreases m, 2int,
{
    match m {
        ModelView::Record(es) => {
            if s is Record && s->Record_0.len() == es.len() {
                lemma_update_entries_wf(s->Record_0, es, 0, c);
            } else {
                lemma_create_wf(m, false, c);
            }
        },
        ModelView::Optional(present, inner) => {
            lemma_update_wf(s, *inner, c);
        },
        ModelView::List(items) => {
            if s is List {
                let vs = s->List_0;
                let created = create_model_states_from(items, false, c, vs.current.len() as int);
                let appended = vs.current + created;
                let truncated = if items.len() <= vs.initial_length && vs.initial_length
                    < appended.len() {
                    appended.subrange(0, vs.initial_length)
                } else {
                    appended
                };
                lemma_all_inv_iff(vs.current, 0);
                assert forall|j: int| 0 <= j < appended.len() implies state_inv(
                    #[trigger] appended[j],
                ) by {
                    if j >= vs.current.len() {
                        lemma_create_model_states_points(items, false, c, vs.current.len() as int);
                        assert(appended[j] == created[j - vs.current.len()]);
                        assert(decreases_to!(m => items[j]));
                        lemma_create_wf(items[j], false, c);
                    }
                }
                if vs.current.len() <= items.len() {
                    lemma_create_model_states_points(items, false, c, vs.current.len() as int);
                } else {
                    assert(created =~= Seq::empty());
                }
                lemma_all_inv_iff(appended, 0);
                lemma_all_inv_iff(truncated, 0);
                assert forall|j: int| 0 <= j < truncated.len() implies state_inv(
                    #[trigger] truncated[j],
                ) by {
                    assert(truncated[j] == appended[j]);
                }
                assert(truncated.len() >= items.len());
                lemma_update_models_wf(truncated, items, 0, c);
            } else {
                lemma_create_wf(m, false, c);
            }
        },
        _ => {
            if s is Leaf {
            } else {
                lemma_create_wf(m, false, c);
            }
        },
    }
}
pub proof fn lemma_entries_view_update(es: Seq<Entry>, i: int, e: Entry)
    requires
        0 <= i < es.len(),
    ensures
        #[trigger] entries_view_from(es.update(i, e), 0) =~= entries_view_from(es, 0).update(
            i,
            EntryView { name: e.name@, value: model_view(e.value) },
        ),
{
    lemma_entries_view_len(es, 0);
    lemma_entries_view_len(es.update(i, e), 0);
    assert forall|j: int| 0 <= j < es.len() implies entries_view_from(es.update(i, e), 0)[j]
        == entries_view_from(es, 0).update(
        i,
        EntryView { name: e.name@, value: model_view(e.value) },
    )[j] by {
        if j != i {
            assert(es.update(i, e)[j] == es[j]);
        } else {
            assert(es.update(i, e)[j] == e);
        }
    }
}

pub proof fn lemma_models_view_update(items: Seq<Model>, i: int, x: Model)
    requires
        0 <= i < items.len(),
    ensures
        #[trigger] models_view_from(items.update(i, x), 0) =~= models_view_from(items, 0).update(
            i,
            model_view(x),
        ),
{
    lemma_models_view_len(items, 0);
    lemma_models_view_len(items.update(i, x), 0);
    assert forall|j: int| 0 <= j < items.len() implies models_view_from(items.update(i, x), 0)[j]
        == models_view_from(items, 0).update(i, model_view(x))[j] by {
        if j != i {
            assert(items.update(i, x)[j] == items[j]);
        } else {
            assert(items.update(i, x)[j] == x);
        }
    }
}

pub proof fn lemma_models_view_push(items: Seq<Model>, x: Model)
    ensures
        #[trigger] models_view_from(items.push(x), 0) =~= models_view_from(items, 0).push(
            model_view(x),
        ),
{
    lemma_models_view_len(items, 0);
    lemma_models_view_len(items.push(x), 0);
    assert forall|j: int| 0 <= j < items.len() + 1 implies models_view_from(items.push(x), 0)[j]
        == models_view_from(items, 0).push(model_view(x))[j] by {
        if j < items.len() {
            assert(items.push(x)[j] == items[j]);
        } else {
            assert(items.push(x)[j] == x);
        }
    }
}

pub proof fn lemma_models_view_remove(items: Seq<Model>, i: int)
    requires
        0 <= i < items.len(),
    ensures
        #[trigger] models_view_from(items.remove(i), 0) =~= models_view_from(items, 0).remove(i),
{
    lemma_models_view_len(items, 0);
    lemma_models_view_len(items.remove(i), 0);
    assert forall|j: int| 0 <= j < items.len() - 1 implies models_view_from(items.remove(i), 0)[j]
        == models_view_from(items, 0).remove(i)[j] by {
        if j < i {
            assert(items.remove(i)[j] == items[j]);
        } else {
            assert(items.remove(i)[j] == items[j + 1]);
        }
    }
}

pub proof fn lemma_entries_ok_at(es: Seq<EntryView>, children: Seq<StateView>, k: int, i: int)
    requires
        0 <= k <= i < es.len(),
        entries_ok(es, children, k),
    ensures
        i < children.len(),
        state_ok(es[i].value, children[i]),
    decreases i - k,
{
    if k < i {
        lemma_entries_ok_at(es, children, k + 1, i);
    }
}

pub proof fn lemma_models_ok_at(items: Seq<ModelView>, children: Seq<StateView>, k: int, i: int)
    requires
        0 <= k <= i < items.len(),
        models_ok(items, children, k),
    ensures
        i < children.len(),
        state_ok(items[i], children[i]),
    decreases i - k,
{
    if k < i {
        lemma_models_ok_at(items, children, k + 1, i);
    }
}

pub proof fn lemma_all_inv_at(children: Seq<StateView>, k: int, i: int)
    requires
        0 <= k <= i < children.len(),
        all_inv(children, k),
    ensures
        state_inv(children[i]),
    decreases i - k,
{
    if k < i {
        lemma_all_inv_at(children, k + 1, i);
    }
}

pub proof fn lemma_all_inv_update(children: Seq<StateView>, k: int, i: int, s2: StateView)
    requires
        0 <= i < children.len(),
        0 <= k <= children.len(),
        all_inv(children, k),
        state_inv(s2),
    ensures
        all_inv(children.update(i, s2), k),
    decreases children.len() - k,
{
    if k < children.len() {
        lemma_all_inv_update(children, k + 1, i, s2);
        assert(children.update(i, s2)[k] == if k == i {
            s2
        } else {
            children[k]
        });
    }
}

/// List retention: for a list state created from three scalar values with
/// initial tracking, shrinking the model to two values keeps all three
/// child states (the third is retained for its snapshot) and reads as
/// dirty; growing back to the original three values reads as clean again,
/// still with exactly the three retained states.
pub proof fn lemma_list_retention(a: ModelView, b: ModelView, c: ModelView, x: ModelView, g: u64, c0: u64)
    requires
        is_scalar(a),
        is_scalar(b),
        is_scalar(c),
        is_scalar(x),
    ensures
        ({
            let m0 = ModelView::List(seq![a, b, c]);
            let s0 = spec_state_create(m0, true, g);
            let m1 = ModelView::List(seq![x, x]);
            let (s1, c1) = spec_state_update(s0, m1, c0);
            let (s2, _c2) = spec_state_update(s1, m0, c1);
            &&& s1 is List && s1->List_0.current.len() == 3 && s1->List_0.valid_length == 2
            &&& state_dirty(s1)
            &&& s2 is List && s2->List_0.current.len() == 3 && s2->List_0.valid_length == 3
            &&& !state_dirty(s2)
        }),
{
    let m0 = ModelView::List(seq![a, b, c]);
    let items0 = seq![a, b, c];
    let s0 = spec_state_create(m0, true, g);
    let ch0 = create_model_states_from(items0, true, g, 0);
    lemma_create_model_states_points(items0, true, g, 0);
    assert(ch0.len() == 3);
    assert(ch0[0] == StateView::Leaf(spec_field_create(scalar_text(a), true, g)));
    assert(ch0[1] == StateView::Leaf(spec_field_create(scalar_text(b), true, g)));
    assert(ch0[2] == StateView::Leaf(spec_field_create(scalar_text(c), true, g)));

    let m1 = ModelView::List(seq![x, x]);
    let items1 = seq![x, x];
    let (s1, c1) = spec_state_update(s0, m1, c0);
    // no states are appended, and none are truncated (3 == initial length)
    assert(create_model_states_from(items1, false, c0, 3) =~= Seq::empty());
    let app1 = ch0 + create_model_states_from(items1, false, c0, 3);
    assert(app1 =~= ch0);
    let (z1, cz1) = spec_update_models(ch0, items1, 0, c0);
    let (f10, c10) = spec_field_set_value(spec_field_create(scalar_text(a), true, g), scalar_text(x), c0);
    let ch0b = ch0.update(0, StateView::Leaf(f10));
    let (f11, c11) = spec_field_set_value(spec_field_create(scalar_text(b), true, g), scalar_text(x), c10);
    let ch0c = ch0b.update(1, StateView::Leaf(f11));
    assert(spec_state_update(ch0[0], items1[0], c0) == (StateView::Leaf(f10), c10));
    assert(spec_update_models(ch0, items1, 0, c0) == spec_update_models(ch0b, items1, 1, c10));
    assert(ch0b[1] == ch0[1]);
    assert(spec_state_update(ch0b[1], items1[1], c10) == (StateView::Leaf(f11), c11));
    assert(spec_update_models(ch0b, items1, 1, c10) == spec_update_models(ch0c, items1, 2, c11));
    assert(spec_update_models(ch0c, items1, 2, c11) == (ch0c, c11));
    assert(z1 == ch0c && cz1 == c11);
    assert(s1 == StateView::List(
        VecStateView { initial_length: 3, valid_length: 2, current: ch0c },
    ));
    assert(state_dirty(s1));

    // growing back to [a, b, c]: again nothing appended or truncated
    let (s2, _c2) = spec_state_update(s1, m0, c1);
    assert(create_model_states_from(items0, false, c1, 3) =~= Seq::empty());
    assert(ch0c + create_model_states_from(items0, false, c1, 3) =~= ch0c);
    let (f20, c20) = spec_field_set_value(f10, scalar_text(a), c1);
    let ch1b = ch0c.update(0, StateView::Leaf(f20));
    let (f21, c21) = spec_field_set_value(f11, scalar_text(b), c20);
    let ch1c = ch1b.update(1, StateView::Leaf(f21));
    let (f22, c22) = spec_field_set_value(spec_field_create(scalar_text(c), true, g), scalar_text(c), c21);
    let ch1d = ch1c.update(2, StateView::Leaf(f22));
    assert(ch0c[2] == ch0[2]);
    let (z2, cz2) = spec_update_models(ch0c, items0, 0, c1);
    assert(ch0c[0] == StateView::Leaf(f10));
    assert(spec_state_update(ch0c[0], items0[0], c1) == (StateView::Leaf(f20), c20));
    assert(spec_update_models(ch0c, items0, 0, c1) == spec_update_models(ch1b, items0, 1, c20));
    assert(ch1b[1] == StateView::Leaf(f11));
    assert(spec_state_update(ch1b[1], items0[1], c20) == (StateView::Leaf(f21), c21));
    assert(spec_update_models(ch1b, items0, 1, c20) == spec_update_models(ch1c, items0, 2, c21));
    assert(ch1c[2] == ch0[2]);
    assert(spec_state_update(ch1c[2], items0[2], c21) == (StateView::Leaf(f22), c22));
    assert(spec_update_models(ch1c, items0, 2, c21) == spec_update_models(ch1d, items0, 3, c22));
    assert(spec_update_models(ch1d, items0, 3, c22) == (ch1d, c22));
    assert(z2 == ch1d && cz2 == c22);
    assert(s2 == StateView::List(
        VecStateView { initial_length: 3, valid_length: 3, current: ch1d },
    ));
    // every field is back at its snapshot
    assert(!field_dirty(f20));
    assert(!field_dirty(f21));
    assert(f22 == spec_field_create(scalar_text(c), true, g));
    assert(!field_dirty(f22));
    assert(ch1d[0] == StateView::Leaf(f20) && ch1d[1] == StateView::Leaf(f21) && ch1d[2]
        == StateView::Leaf(f22));
    assert(state_dirty(StateView::Leaf(f20)) == field_dirty(f20));
    assert(state_dirty(StateView::Leaf(f21)) == field_dirty(f21));
    assert(state_dirty(StateView::Leaf(f22)) == field_dirty(f22));
    assert(!any_dirty(ch1d, 2, 3)) by {
        assert(any_dirty(ch1d, 3, 3) == false);
        assert(state_dirty(StateView::Leaf(f22)) == field_dirty(f22));
    }
    assert(!any_dirty(ch1d, 1, 3));
    assert(!any_dirty(ch1d, 0, 3));
    assert(!state_dirty(s2));
}


/// An identity wrapper that gives a value of some scalar type a distinct
/// identity of its own, for host layers whose dispatch is type-driven (two
/// otherwise-identical numeric identifier types that must not be confused).
/// Its text form is its inner value's text form.
#[derive(Debug, Clone, Copy, PartialEq, Eq, PartialOrd, Ord, Hash)]
pub struct Wrapped<T>(pub T);

impl<T> Wrapped<T> {
    /// Wraps a value.
    pub fn new(value: T) -> (r: Wrapped<T>)
        ensures
            r.0 == value,
    {
        Wrapped(value)
    }

    /// Hands the wrapped value back.
    pub fn into_inner(self) -> (r: T)
        ensures
            r == self.0,
    {
        self.0
    }
}


/// Marks the scalar types the engine's leaf kinds stand for (the text
/// coercion layer supports exactly these); a host layer whose dispatch is
/// type-driven bounds its leaf plumbing by this marker.
pub trait ValueMarker {

}

impl ValueMarker for bool {

}

impl ValueMarker for u64 {

}

impl ValueMarker for i64 {

}

impl ValueMarker for char {

}

impl ValueMarker for String {

}

impl<T: ValueMarker> ValueMarker for Wrapped<T> {

}

} // verus!
