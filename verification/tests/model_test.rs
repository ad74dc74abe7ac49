use yfb::field::Dirty;
use yfb::model::{Model, StateNode, state_create, state_update};

fn uints(values: &[u64]) -> Model {
    Model::List(values.iter().map(|v| Model::Uint(*v)).collect())
}

fn list_of(state: &StateNode) -> &yfb::model::VecState {
    state.as_list().expect("state of a list is a list state")
}

fn child_dirty(state: &StateNode, i: usize) -> bool {
    list_of(state).child(i).expect("child state is retained").dirty()
}

#[test]
fn test_vec_state() {
    let mut counter: u64 = 0;
    let mut state = state_create(&uints(&[0, 1, 2]), true, 0);

    assert_eq!(list_of(&state).initial_length(), 3);
    assert_eq!(list_of(&state).retained(), 3);
    assert!(!state.dirty());
    assert!(!child_dirty(&state, 0));
    assert!(!child_dirty(&state, 1));
    assert!(!child_dirty(&state, 2));

    state = state_update(state, &uints(&[1, 1]), &mut counter);
    assert_eq!(list_of(&state).initial_length(), 3);
    assert_eq!(list_of(&state).retained(), 3);
    assert!(state.dirty());
    assert!(child_dirty(&state, 0));
    assert!(!child_dirty(&state, 1));

    state = state_update(state, &uints(&[2, 3, 4, 5]), &mut counter);
    assert_eq!(list_of(&state).initial_length(), 3);
    assert_eq!(list_of(&state).retained(), 4);
    assert!(state.dirty());
    assert!(child_dirty(&state, 0));
    assert!(child_dirty(&state, 1));
    assert!(child_dirty(&state, 2));
    assert!(child_dirty(&state, 3));

    state = state_update(state, &uints(&[0, 1, 2]), &mut counter);
    assert_eq!(list_of(&state).initial_length(), 3);
    assert_eq!(list_of(&state).retained(), 3);
    assert!(!state.dirty());
    assert!(!child_dirty(&state, 0));
    assert!(!child_dirty(&state, 1));
    assert!(!child_dirty(&state, 2));
}

#[test]
fn test_vec_state_valid_length() {
    let mut counter: u64 = 0;
    let mut state = state_create(&uints(&[7]), true, 0);
    assert_eq!(list_of(&state).valid_length(), 1);
    state = state_update(state, &uints(&[7, 8, 9]), &mut counter);
    assert_eq!(list_of(&state).valid_length(), 3);
    assert_eq!(list_of(&state).retained(), 3);
    state = state_update(state, &uints(&[]), &mut counter);
    assert_eq!(list_of(&state).valid_length(), 0);
    assert_eq!(list_of(&state).retained(), 1);
    assert!(state.dirty());
}

#[test]
fn test_field_round_trip() {
    let mut counter: u64 = 0;
    let mut field = yfb::field::Field::create(String::from("start"), true, 0);
    assert!(!field.dirty());
    field.set_value(String::from("edited"), &mut counter);
    assert!(field.dirty());
    field.set_value(String::from("start"), &mut counter);
    assert!(!field.dirty());
    assert!(field.message().is_none());
}

#[test]
fn test_field_untracked_dirty() {
    let mut counter: u64 = 0;
    let mut field = yfb::field::Field::create(String::new(), false, 0);
    assert!(!field.dirty());
    field.set_value(String::from("x"), &mut counter);
    assert!(field.dirty());
    field.set_value(String::new(), &mut counter);
    assert!(!field.dirty());
}

#[test]
fn test_wrapped_identity() {
    let wrapped = yfb::model::Wrapped::new(5u64);
    assert_eq!(wrapped.into_inner(), 5u64);
}

#[test]
fn test_default_like_shapes() {
    let value = Model::Record(vec![
        yfb::model::Entry { name: String::from("n"), value: Model::Uint(9) },
        yfb::model::Entry {
            name: String::from("t"),
            value: Model::Optional(true, Box::new(Model::Text(String::from("x")))),
        },
        yfb::model::Entry { name: String::from("l"), value: Model::List(vec![Model::Bool(true)]) },
    ]);
    let d = yfb::model::default_like(&value);
    assert_eq!(
        d,
        Model::Record(vec![
            yfb::model::Entry { name: String::from("n"), value: Model::Uint(0) },
            yfb::model::Entry {
                name: String::from("t"),
                value: Model::Optional(false, Box::new(Model::Text(String::new()))),
            },
            yfb::model::Entry { name: String::from("l"), value: Model::List(vec![]) },
        ])
    );
}
