use yfb::binding::Binding;
use yfb::field::Dirty;
use yfb::model::{Entry, Model};
use yfb::root::Root;
use yfb::state_model::Mapping;

fn field(name: &str, value: Model) -> Entry {
    Entry { name: String::from(name), value }
}

#[test]
fn test_record_display() {
    // a record `{id: u32}` bound with `id = 1`: the field displays as "1"
    let model = Model::Record(vec![field("id", Model::Uint(1))]);
    let root = Root::new(0, model);
    let binding = Binding::root_binding(&root, String::from("model"));
    let id = binding.map(Mapping { name: "id", index: 0 });
    assert_eq!(id.name().as_str(), "model.id");
    let state = id.state(&root).unwrap().as_field().unwrap();
    assert_eq!(state.value().as_str(), "1");
}

#[test]
fn test_optional_set_materialises() {
    // an absent optional child: setting a nested leaf through the optional
    // modifier makes the child present with the leaf set, and reading
    // through the same optional binding reflects the new value
    let child = Model::Record(vec![field("leaf", Model::Uint(0))]);
    let mut root = Root::new(0, Model::Optional(false, Box::new(child)));
    let binding = Binding::root_binding(&root, String::from("outer"));
    let leaf = Mapping { name: "leaf", index: 0 };

    binding
        .map_option()
        .modifier()
        .map(leaf)
        .set(&mut root, String::from("7"));

    match binding.model(&root).unwrap() {
        Model::Optional(present, inner) => {
            assert!(*present);
            assert_eq!(**inner, Model::Record(vec![field("leaf", Model::Uint(7))]));
        }
        other => panic!("not an optional: {other:?}"),
    }
    let read = binding.map_option().map(leaf);
    assert_eq!(read.model(&root).unwrap(), &Model::Uint(7));
}

#[test]
fn test_sibling_invalidation_and_rederive() {
    // two bindings for the same field compare unequal right after an
    // unrelated sibling mutation, and equal again once both are re-derived
    let model = Model::Record(vec![field("a", Model::Uint(0)), field("b", Model::Uint(0))]);
    let mut root = Root::new(0, model);
    let a = Mapping { name: "a", index: 0 };
    let b = Mapping { name: "b", index: 1 };

    let binding = Binding::root_binding(&root, String::from("model"));
    let a_before = binding.map(a);
    assert!(a_before.equals(&a_before.clone(), &root));

    binding.map(b).modifier().set(&mut root, String::from("5"));

    let a_after = Binding::root_binding(&root, String::from("model")).map(a);
    assert!(!a_before.equals(&a_after, &root));
    assert!(!a_before.equals(&a_before, &root));

    let a_fresh = Binding::root_binding(&root, String::from("model")).map(a);
    assert!(a_after.equals(&a_fresh, &root));
}

#[test]
fn test_two_sessions_never_equal() {
    let root_one = Root::new(1, Model::Uint(0));
    let root_two = Root::new(2, Model::Uint(0));
    let one = Binding::root_binding(&root_one, String::from("value"));
    let two = Binding::root_binding(&root_two, String::from("value"));
    assert!(!one.equals(&two, &root_one));
    assert!(!one.equals(&two, &root_two));
    assert!(one.equals(&one, &root_one));
}

#[test]
fn test_parse_failure_isolation() {
    // a numeric leaf set to non-numeric text: model untouched, parse error
    // recorded, validation message untouched
    let mut root = Root::new(0, Model::Record(vec![field("n", Model::Uint(3))]));
    let binding = Binding::root_binding(&root, String::from("model"));
    let n = binding.map(Mapping { name: "n", index: 0 });

    n.modifier().set(&mut root, String::from("not a number"));

    assert_eq!(n.model(&root).unwrap(), &Model::Uint(3));
    let state = n.state(&root).unwrap().as_field().unwrap();
    assert_eq!(
        state.error().map(|e| e.as_str()),
        Some("Invalid value 'not a number' for type u64")
    );
    assert!(state.message().is_none());
    assert_eq!(state.value().as_str(), "3");

    // the next successful parse clears the error
    n.modifier().set(&mut root, String::from("4"));
    assert_eq!(n.model(&root).unwrap(), &Model::Uint(4));
    let state = n.state(&root).unwrap().as_field().unwrap();
    assert!(state.error().is_none());
}

#[test]
fn test_push_remove_sync() {
    let mut root = Root::new(0, Model::List(vec![Model::Uint(1), Model::Uint(2)]));
    let binding = Binding::root_binding(&root, String::from("items"));
    let modifier = binding.modifier();

    modifier.push(&mut root, Model::Uint(3));
    assert_eq!(
        binding.model(&root).unwrap(),
        &Model::List(vec![Model::Uint(1), Model::Uint(2), Model::Uint(3)])
    );
    let vs = binding.state(&root).unwrap().as_list().unwrap();
    assert_eq!(vs.valid_length(), 3);
    assert_eq!(vs.initial_length(), 2);

    modifier.remove(&mut root, 0);
    assert_eq!(
        binding.model(&root).unwrap(),
        &Model::List(vec![Model::Uint(2), Model::Uint(3)])
    );
    let vs = binding.state(&root).unwrap().as_list().unwrap();
    assert_eq!(vs.valid_length(), 2);
    assert_eq!(vs.retained(), 2);
}

#[test]
fn test_take_and_replace() {
    let mut root = Root::new(
        0,
        Model::Optional(true, Box::new(Model::Text(String::from("kept")))),
    );
    let binding = Binding::root_binding(&root, String::from("slot"));
    let modifier = binding.modifier();

    let taken = modifier.take(&mut root);
    assert_eq!(taken, Some(Model::Text(String::from("kept"))));
    match binding.model(&root).unwrap() {
        Model::Optional(present, inner) => {
            assert!(!*present);
            assert_eq!(**inner, Model::Text(String::new()));
        }
        other => panic!("not an optional: {other:?}"),
    }
    let again = modifier.take(&mut root);
    assert_eq!(again, None);

    let old = modifier.replace(&mut root, Model::Text(String::from("new")));
    assert_eq!(old, None);
    match binding.model(&root).unwrap() {
        Model::Optional(present, inner) => {
            assert!(*present);
            assert_eq!(**inner, Model::Text(String::from("new")));
        }
        other => panic!("not an optional: {other:?}"),
    }
    let old = modifier.replace(&mut root, Model::Text(String::from("newer")));
    assert_eq!(old, Some(Model::Text(String::from("new"))));
}

#[test]
fn test_update_requests_fire_on_change_only() {
    let mut root = Root::new(0, Model::Uint(1));
    let binding = Binding::root_binding(&root, String::from("n"));
    assert_eq!(root.update_requests(), 0);

    // writing the current text back changes nothing and requests nothing
    binding.modifier().set(&mut root, String::from("1"));
    assert_eq!(root.update_requests(), 0);

    binding.modifier().set(&mut root, String::from("2"));
    assert_eq!(root.update_requests(), 1);

    let g = root.generation();
    binding.modifier().set(&mut root, String::from("2"));
    assert_eq!(root.generation(), g);
    assert_eq!(root.update_requests(), 1);
}

#[test]
fn test_set_value_resyncs_text() {
    let mut root = Root::new(0, Model::Int(-4));
    let binding = Binding::root_binding(&root, String::from("n"));
    binding.modifier().set_value(&mut root, Model::Int(25));
    assert_eq!(binding.model(&root).unwrap(), &Model::Int(25));
    let state = binding.state(&root).unwrap().as_field().unwrap();
    assert_eq!(state.value().as_str(), "25");
    assert!(state.dirty());
}

#[test]
fn test_reinit_invalidates() {
    let mut root = Root::new(0, Model::Uint(1));
    let before = Binding::root_binding(&root, String::from("n"));
    root.reinit(Model::Uint(1));
    let after = Binding::root_binding(&root, String::from("n"));
    assert!(!before.equals(&after, &root));
    assert!(after.equals(&after, &root));
}

#[test]
fn test_set_initial_changes_baseline() {
    let mut root = Root::new(0, Model::Text(String::from("abc")));
    let binding = Binding::root_binding(&root, String::from("t"));
    let state = binding.state(&root).unwrap().as_field().unwrap();
    assert!(!state.dirty());

    binding.modifier().set_initial(&mut root, None);
    let state = binding.state(&root).unwrap().as_field().unwrap();
    // without a snapshot, non-empty input counts as dirty
    assert!(state.dirty());

    binding
        .modifier()
        .set_initial(&mut root, Some(String::from("abc")));
    let state = binding.state(&root).unwrap().as_field().unwrap();
    assert!(!state.dirty());
}

#[test]
fn test_char_leaf_text() {
    let mut root = Root::new(0, Model::Char('x'));
    let binding = Binding::root_binding(&root, String::from("c"));
    let state = binding.state(&root).unwrap().as_field().unwrap();
    assert_eq!(state.value().as_str(), "x");

    binding.modifier().set(&mut root, String::from("y"));
    assert_eq!(binding.model(&root).unwrap(), &Model::Char('y'));

    binding.modifier().set(&mut root, String::from("too long"));
    assert_eq!(binding.model(&root).unwrap(), &Model::Char('y'));
    let state = binding.state(&root).unwrap().as_field().unwrap();
    assert_eq!(
        state.error().map(|e| e.as_str()),
        Some("Invalid value 'too long' for type char")
    );
}

#[test]
fn test_bool_leaf_text() {
    let mut root = Root::new(0, Model::Bool(false));
    let binding = Binding::root_binding(&root, String::from("b"));
    let state = binding.state(&root).unwrap().as_field().unwrap();
    assert_eq!(state.value().as_str(), "false");
    binding.modifier().set(&mut root, String::from("true"));
    assert_eq!(binding.model(&root).unwrap(), &Model::Bool(true));
}
