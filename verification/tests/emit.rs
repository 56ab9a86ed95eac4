use dusk::diag::Span;
use dusk::mono::emit::Expander;
use dusk::mono::{bind, flat};
use dusk::parser::ast::{Block, Enum, Field, Func, Interface, Item, Struct, Type, Variant};

fn ty(n: &str) -> Type {
    Type::Named(n.to_string(), Vec::new())
}

fn app(n: &str, args: Vec<Type>) -> Type {
    Type::Named(n.to_string(), args)
}

fn field(n: &str, t: Type) -> Field {
    Field { name: n.to_string(), ty: t }
}

fn items() -> Vec<Item> {
    vec![
        Item::Struct(Struct {
            exported: true,
            name: "Cell".to_string(),
            generics: vec!["T".to_string()],
            fields: vec![field("v", ty("T"))],
        }),
        Item::Enum(Enum {
            exported: false,
            name: "Maybe".to_string(),
            generics: vec!["T".to_string()],
            variants: vec![
                Variant { name: "Some".to_string(), fields: vec![field("0", app("Cell", vec![ty("T")]))] },
                Variant { name: "None".to_string(), fields: vec![] },
            ],
        }),
        Item::Struct(Struct {
            exported: false,
            name: "Future".to_string(),
            generics: vec!["T".to_string()],
            fields: vec![field("value", ty("T"))],
        }),
        Item::Interface(Interface { exported: false, name: "Shape".to_string(), generics: vec![], methods: vec![] }),
        Item::Func(Func {
            exported: false,
            is_async: false,
            name: "ident".to_string(),
            span: Span::new(0, 0),
            generics: vec!["T".to_string()],
            params: vec![],
            ret: ty("T"),
            body: Block { stmts: vec![] },
        }),
    ]
}

fn sp() -> Span {
    Span::new(5, 6)
}

#[test]
fn applied_generic_becomes_its_instance_name() {
    let it = items();
    let mut e = Expander::new();
    let t = e.emit_ty(&it, &app("Cell", vec![ty("int64")]), sp());
    assert_eq!(flat(&t), "Cell$int64");
    assert_eq!(e.pending().len(), 1);
    assert_eq!(e.pending()[0].0, "Cell");
    assert_eq!(flat(&e.pending()[0].1[0]), "int64");
    assert_eq!(e.pending()[0].2, sp());
}

#[test]
fn an_instance_is_queued_once() {
    let it = items();
    let mut e = Expander::new();
    e.emit_ty(&it, &app("Cell", vec![ty("int64")]), sp());
    e.emit_ty(&it, &Type::Ptr(Box::new(app("Cell", vec![ty("int64")]))), Span::new(9, 9));
    assert_eq!(e.pending().len(), 1);
    assert!(e.diagnostics().is_empty());
}

#[test]
fn nested_arguments_are_requested_first() {
    let it = items();
    let mut e = Expander::new();
    let t = e.emit_ty(&it, &app("Cell", vec![app("Maybe", vec![ty("bool")])]), sp());
    assert_eq!(flat(&t), "Cell$Maybe$bool");
    assert_eq!(e.pending().len(), 2);
    assert_eq!(e.pending()[0].0, "Maybe");
    assert_eq!(e.pending()[1].0, "Cell");
    assert_eq!(flat(&e.pending()[1].1[0]), "Maybe$bool");
}

#[test]
fn non_generic_names_keep_their_lowered_arguments() {
    let it = items();
    let mut e = Expander::new();
    let t = e.emit_ty(&it, &app("List", vec![app("Cell", vec![ty("int8")])]), sp());
    assert_eq!(flat(&t), "List$1$Cell$int8");
    assert_eq!(e.pending().len(), 1);
}

#[test]
fn interface_arguments_are_reported_once() {
    let it = items();
    let mut e = Expander::new();
    e.enqueue(&it, "Cell", &vec![ty("Shape")], sp());
    e.enqueue(&it, "Cell", &vec![ty("Shape")], sp());
    assert_eq!(e.diagnostics().len(), 1);
    assert_eq!(
        e.diagnostics()[0].msg,
        "an interface cannot be a generic type argument; generics are monomorphized over concrete types"
    );
}

#[test]
fn future_instances_record_their_element() {
    let it = items();
    let mut e = Expander::new();
    let t = e.emit_ty(&it, &app("Future", vec![ty("int32")]), sp());
    assert_eq!(flat(&t), "Future$int32");
    let el = e.future_element(&"Future$int32".to_string()).unwrap();
    assert_eq!(flat(&el), "int32");
    assert!(e.future_element(&"Cell$int32".to_string()).is_none());
}

#[test]
fn overlong_instances_are_not_queued() {
    let it = items();
    let mut e = Expander::new();
    let long = "x".repeat(1100);
    e.enqueue(&it, "Cell", &vec![ty(&long)], sp());
    assert!(e.pending().is_empty());
    e.enqueue(&it, "Cell", &vec![ty(&"y".repeat(1000))], sp());
    assert_eq!(e.pending().len(), 1);
}

#[test]
fn instantiate_returns_the_mangled_name() {
    let it = items();
    let mut e = Expander::new();
    let m = e.instantiate(&it, "ident", &vec![app("Cell", vec![ty("int64")])], sp());
    assert_eq!(m, "ident$Cell$int64");
    assert_eq!(e.pending().len(), 2);
    assert_eq!(e.pending()[1].0, "ident");
}

#[test]
fn struct_instance_substitutes_and_lowers_fields() {
    let it = items();
    let mut e = Expander::new();
    let inst = e.expand_type_instance(&it, &"Cell".to_string(), &vec![ty("int64")], sp()).unwrap();
    match inst {
        Item::Struct(s) => {
            assert_eq!(s.name, "Cell$int64");
            assert!(s.exported);
            assert!(s.generics.is_empty());
            assert_eq!(s.fields.len(), 1);
            assert_eq!(s.fields[0].name, "v");
            assert_eq!(flat(&s.fields[0].ty), "int64");
        }
        _ => panic!("expected a struct"),
    }
}

#[test]
fn enum_instance_requests_what_its_fields_apply() {
    let it = items();
    let mut e = Expander::new();
    let inst = e.expand_type_instance(&it, &"Maybe".to_string(), &vec![ty("bool")], sp()).unwrap();
    match inst {
        Item::Enum(en) => {
            assert_eq!(en.name, "Maybe$bool");
            assert_eq!(en.variants.len(), 2);
            assert_eq!(flat(&en.variants[0].fields[0].ty), "Cell$bool");
            assert!(en.variants[1].fields.is_empty());
        }
        _ => panic!("expected an enum"),
    }
    assert_eq!(e.pending().len(), 1);
    assert_eq!(e.pending()[0].0, "Cell");
}

#[test]
fn functions_and_unknown_names_have_no_type_instance() {
    let it = items();
    let mut e = Expander::new();
    assert!(e.expand_type_instance(&it, &"ident".to_string(), &vec![ty("int64")], sp()).is_none());
    assert!(e.expand_type_instance(&it, &"Nope".to_string(), &vec![ty("int64")], sp()).is_none());
    assert!(e.pending().is_empty());
}

#[test]
fn field_types_report_frame_viewing_futures() {
    let it = items();
    let mut e = Expander::new();
    let s = bind(&["T".to_string()], &[Type::Slice(Box::new(ty("int64")))]);
    let t = e.emit_field_ty(&it, &app("Future", vec![ty("T")]), &s, sp());
    assert_eq!(flat(&t), "Future$$s$int64");
    assert_eq!(e.diagnostics().len(), 1);
    assert!(e.diagnostics()[0].msg.starts_with("a future element cannot contain"));
}

fn async_fn(name: &str, params: Vec<(&str, Type)>, ret: Type, span: Span) -> Item {
    Item::Func(Func {
        exported: false,
        is_async: true,
        name: name.to_string(),
        span,
        generics: vec![],
        params: params
            .into_iter()
            .map(|(n, t)| dusk::parser::ast::Param { using: false, name: n.to_string(), ty: t })
            .collect(),
        ret,
        body: Block { stmts: vec![] },
    })
}

#[test]
fn no_async_funcs_force_nothing() {
    let it = items();
    let mut e = Expander::new();
    e.force_future_instances(&it);
    assert!(e.pending().is_empty());
    assert!(e.diagnostics().is_empty());
}

#[test]
fn async_funcs_need_the_future_struct() {
    let mut it: Vec<Item> = items().into_iter().filter(|i| !matches!(i, Item::Struct(s) if s.name == "Future")).collect();
    it.push(async_fn("a", vec![], ty("int64"), Span::new(10, 20)));
    it.push(async_fn("b", vec![], ty("int64"), Span::new(30, 40)));
    let mut e = Expander::new();
    e.force_future_instances(&it);
    assert_eq!(e.diagnostics().len(), 1);
    assert_eq!(
        e.diagnostics()[0].msg,
        "calling an async func needs Future from std.async.future; add @import std.async.future"
    );
    assert_eq!(e.diagnostics()[0].span, Span::new(10, 20));
    assert!(e.pending().is_empty());
}

#[test]
fn each_async_func_forces_its_future_instance() {
    let mut it = items();
    it.push(async_fn("load", vec![("n", ty("int64"))], app("Cell", vec![ty("int64")]), Span::new(1, 2)));
    let mut e = Expander::new();
    e.force_future_instances(&it);
    assert!(e.diagnostics().is_empty());
    assert_eq!(e.pending().len(), 2);
    assert_eq!(e.pending()[0].0, "Cell");
    assert_eq!(e.pending()[1].0, "Future");
    let el = e.future_element(&"Future$Cell$int64".to_string()).unwrap();
    assert_eq!(flat(&el), "Cell$int64");
}

#[test]
fn async_params_and_returns_that_view_frames_are_reported() {
    let mut it = items();
    let slice = Type::Slice(Box::new(ty("uint8")));
    it.push(async_fn("read", vec![("buf", Type::Slice(Box::new(ty("uint8")))), ("n", ty("int64"))], slice, Span::new(3, 4)));
    let mut e = Expander::new();
    e.force_future_instances(&it);
    assert_eq!(e.diagnostics().len(), 2);
    assert_eq!(
        e.diagnostics()[0].msg,
        "an async func cannot take 'buf': it holds a slice, closure, interface value, or future that would view the caller's frame, which the task outlives"
    );
    assert_eq!(
        e.diagnostics()[1].msg,
        "an async func cannot return a slice, closure, interface value, or future that would outlive the task frame it views"
    );
    assert_eq!(e.pending().len(), 1);
}
