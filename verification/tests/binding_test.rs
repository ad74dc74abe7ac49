use yfb::binding::Binding;
use yfb::field::Dirty;
use yfb::model::{Entry, Model};
use yfb::modifier::FieldError;
use yfb::root::Root;
use yfb::state_model::Mapping;

fn entry(name: &str, value: Model) -> Entry {
    Entry { name: String::from(name), value }
}

fn child_value(name: &str) -> Model {
    Model::Record(vec![
        entry("name", Model::Text(String::from(name))),
        entry("name_opt", Model::Optional(false, Box::new(Model::Text(String::new())))),
        entry("name_vec", Model::List(vec![])),
    ])
}

fn child_name() -> Mapping {
    Mapping { name: "name", index: 0 }
}

fn child_name_opt() -> Mapping {
    Mapping { name: "name_opt", index: 1 }
}

fn child_name_vec() -> Mapping {
    Mapping { name: "name_vec", index: 2 }
}

#[test]
fn test_binding_name() {
    let parent = Model::Record(vec![
        entry("child", child_value("")),
        entry("child_opt", Model::Optional(true, Box::new(child_value("")))),
        entry("child_none", Model::Optional(false, Box::new(child_value("")))),
        entry("child_vec", Model::List(vec![child_value(""), child_value("")])),
    ]);
    let root = Root::new(0, parent);
    let binding = Binding::root_binding(&root, String::from("parent"));

    let child = Mapping { name: "child", index: 0 };
    let child_opt = Mapping { name: "child_opt", index: 1 };
    let child_none = Mapping { name: "child_none", index: 2 };
    let child_vec = Mapping { name: "child_vec", index: 3 };

    assert_eq!(binding.name().as_str(), "parent");
    assert_eq!(binding.map(child).name().as_str(), "parent.child");
    assert_eq!(binding.map(child_opt).name().as_str(), "parent.child_opt");
    assert_eq!(
        binding.map(child_opt).map_option().name().as_str(),
        "parent.child_opt"
    );
    assert_eq!(binding.map(child_none).name().as_str(), "parent.child_none");
    assert_eq!(binding.map(child_vec).name().as_str(), "parent.child_vec");
    assert_eq!(
        binding.map(child).map(child_name()).name().as_str(),
        "parent.child.name"
    );
    assert_eq!(
        binding
            .map(child_opt)
            .map_option()
            .map(child_name_opt())
            .name()
            .as_str(),
        "parent.child_opt.name_opt"
    );
    assert_eq!(
        binding
            .map(child_none)
            .map_option()
            .map(child_name_opt())
            .map_option()
            .name()
            .as_str(),
        "parent.child_none.name_opt"
    );
    assert_eq!(
        binding
            .map(child_vec)
            .map_item(0)
            .map(child_name_vec())
            .name()
            .as_str(),
        "parent.child_vec[0].name_vec"
    );
    assert_eq!(
        binding
            .map(child_vec)
            .map_item(1)
            .map(child_name_vec())
            .name()
            .as_str(),
        "parent.child_vec[1].name_vec"
    );
    assert_eq!(
        binding
            .map(child_vec)
            .map_item(0)
            .map(child_name_vec())
            .map_item(0)
            .name()
            .as_str(),
        "parent.child_vec[0].name_vec[0]"
    );
}

#[test]
fn test_binding_name_reset() {
    let parent = Model::Record(vec![entry("child", child_value(""))]);
    let root = Root::new(0, parent);
    let binding = Binding::root_binding(&root, String::from("parent"));

    let parent_child_mapping = Mapping { name: "child", index: 0 };
    let child_binding = binding.map(parent_child_mapping).name_reset(String::from("child"));
    assert_eq!(child_binding.name().as_str(), "child");
    assert_eq!(child_binding.map(child_name()).name().as_str(), "child.name");
    let name_binding = child_binding.map(child_name()).name_reset(String::from("name"));
    assert_eq!(name_binding.name().as_str(), "name");
}

#[test]
fn test_binding_value_name() {
    let root = Root::new(0, Model::Int(42));
    let binding = Binding::root_binding(&root, String::from("answer"));
    assert_eq!(binding.name().as_str(), "answer");
}

#[test]
fn test_binding_value_option() {
    let mut root = Root::new(
        0,
        Model::Optional(true, Box::new(Model::Text(String::from("test")))),
    );
    let binding = Binding::root_binding(&root, String::from("answer"));
    let binding_option = binding.map_option();
    let field = binding_option.state(&root).unwrap().as_field().unwrap();
    assert_eq!(field.value().as_str(), "test");

    binding.modifier().replace_model(
        &mut root,
        Model::Optional(false, Box::new(Model::Text(String::new()))),
    );
    match binding.model(&root).unwrap() {
        Model::Optional(present, _) => assert!(!*present),
        other => panic!("not an optional: {other:?}"),
    }
    let field = binding_option.state(&root).unwrap().as_field().unwrap();
    assert_eq!(field.value().as_str(), "");
    assert!(!binding_option.equals(&binding_option, &root));
}

#[test]
fn test_owned_option() {
    let parent = Model::Record(vec![entry("name", Model::Text(String::from("foo")))]);
    let mut root = Root::new(0, Model::Optional(true, Box::new(parent)));
    let binding = Binding::root_binding(&root, String::from("parent"));
    match binding.model(&root).unwrap() {
        Model::Optional(present, _) => assert!(*present),
        other => panic!("not an optional: {other:?}"),
    }
    binding
        .map_option()
        .modifier()
        .map(child_name())
        .set(&mut root, String::from("bar"));
    match binding.model(&root).unwrap() {
        Model::Optional(present, inner) => {
            assert!(*present);
            assert_eq!(
                **inner,
                Model::Record(vec![entry("name", Model::Text(String::from("bar")))])
            );
        }
        other => panic!("not an optional: {other:?}"),
    }

    let absent = Model::Record(vec![entry("name", Model::Text(String::new()))]);
    let mut root = Root::new(1, Model::Optional(false, Box::new(absent)));
    let binding = Binding::root_binding(&root, String::from("parent"));
    match binding.model(&root).unwrap() {
        Model::Optional(present, _) => assert!(!*present),
        other => panic!("not an optional: {other:?}"),
    }
    binding
        .map_option()
        .modifier()
        .map(child_name())
        .set(&mut root, String::from("bar"));
    match binding.model(&root).unwrap() {
        Model::Optional(present, inner) => {
            assert!(*present);
            assert_eq!(
                **inner,
                Model::Record(vec![entry("name", Model::Text(String::from("bar")))])
            );
        }
        other => panic!("not an optional: {other:?}"),
    }
}

#[test]
fn test_generation() {
    let mut root = Root::new(0, Model::Int(42));
    let binding = Binding::root_binding(&root, String::from("answer"));
    binding.modifier().set(&mut root, String::from("43"));
    assert_eq!(binding.model(&root).unwrap(), &Model::Int(43));
    assert!(!binding.equals(&binding, &root));
}

fn range_validator(root: &Root) -> Vec<FieldError> {
    let a = match root.model() {
        Model::Record(es) => match &es[0].value {
            Model::Uint(a) => *a,
            _ => panic!("field a is not numeric"),
        },
        _ => panic!("model is not a record"),
    };
    if a < 18 || a > 20 {
        vec![FieldError {
            field: String::from("a"),
            message: String::from("Not within range"),
        }]
    } else {
        vec![]
    }
}

#[test]
fn test_validation() {
    let model = Model::Record(vec![entry("a", Model::Uint(0)), entry("b", Model::Uint(0))]);
    let mut root = Root::new(0, model);
    let a = Mapping { name: "a", index: 0 };
    let b = Mapping { name: "b", index: 1 };

    let message_of = |root: &Root, m: Mapping| -> Option<String> {
        let binding = Binding::root_binding(root, String::from("model"));
        binding
            .map(m)
            .state(root)
            .unwrap()
            .as_field()
            .unwrap()
            .message()
            .map(|s| s.clone())
    };

    // one commit per mutation: set, then re-validate if the record is dirty
    let commit = |root: &mut Root, m: Mapping, text: &str| {
        let modifier = Binding::root_binding(root, String::from("model")).modifier();
        modifier.map(m).set(root, String::from(text));
        if modifier.dirty(root) {
            let errors = range_validator(root);
            modifier.apply_validation(root, &errors);
        }
    };

    commit(&mut root, b, "42");
    assert_eq!(message_of(&root, a), None);
    assert_eq!(message_of(&root, b), None);

    commit(&mut root, a, "42");
    assert_eq!(message_of(&root, a), Some(String::from("Not within range")));
    assert_eq!(message_of(&root, b), None);

    commit(&mut root, a, "18");
    assert_eq!(message_of(&root, a), None);
    assert_eq!(message_of(&root, b), None);
}

#[test]
fn test_validation_first_message_wins() {
    let model = Model::Record(vec![entry("a", Model::Uint(0))]);
    let mut root = Root::new(0, model);
    let binding = Binding::root_binding(&root, String::from("model"));
    let modifier = binding.modifier();
    let a = Mapping { name: "a", index: 0 };

    // make the field dirty so a message may be placed on it
    modifier.map(a).set(&mut root, String::from("42"));

    let errors = vec![
        FieldError { field: String::from("a"), message: String::from("first") },
        FieldError { field: String::from("a"), message: String::from("second") },
    ];
    modifier.apply_validation(&mut root, &errors);

    let message = Binding::root_binding(&root, String::from("model"))
        .map(a)
        .state(&root)
        .unwrap()
        .as_field()
        .unwrap()
        .message()
        .map(|m| m.clone());
    assert_eq!(message, Some(String::from("first")));

    // an empty failure list clears every message again
    modifier.apply_validation(&mut root, &vec![]);
    let message = Binding::root_binding(&root, String::from("model"))
        .map(a)
        .state(&root)
        .unwrap()
        .as_field()
        .unwrap()
        .message()
        .map(|m| m.clone());
    assert_eq!(message, None);
}

#[test]
fn test_validation_needs_record() {
    let mut root = Root::new(0, Model::Uint(1));
    let binding = Binding::root_binding(&root, String::from("n"));
    let applied = binding.modifier().apply_validation(&mut root, &vec![]);
    assert!(!applied);
    assert_eq!(root.generation(), 0);
}
