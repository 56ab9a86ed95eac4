use dusk::diag::Span;
use dusk::mono::cross::{chan_element_ok, check_chan_element, check_future_spell, crossable, reaches_future};
use dusk::parser::ast::{Block, Enum, ExprKind, Field, Interface, Item, Lambda, Param, Stmt, Struct, Type, Variant};

fn ty(n: &str) -> Type {
    Type::Named(n.to_string(), Vec::new())
}

fn app(n: &str, args: Vec<Type>) -> Type {
    Type::Named(n.to_string(), args)
}

fn field(n: &str, t: Type) -> Field {
    Field { name: n.to_string(), ty: t }
}

fn strukt(n: &str, generics: &[&str], fields: Vec<Field>) -> Item {
    Item::Struct(Struct {
        exported: false,
        name: n.to_string(),
        generics: generics.iter().map(|g| g.to_string()).collect(),
        fields,
    })
}

fn items() -> Vec<Item> {
    vec![
        strukt("Point", &[], vec![field("x", ty("int64")), field("y", ty("int64"))]),
        strukt("Holder", &["T"], vec![field("v", ty("T"))]),
        strukt("Node", &[], vec![field("val", ty("int64")), field("next", Type::Ptr(Box::new(ty("Node"))))]),
        strukt("View", &[], vec![field("data", Type::Slice(Box::new(ty("uint8"))))]),
        Item::Enum(Enum {
            exported: false,
            name: "Maybe".to_string(),
            generics: vec!["T".to_string()],
            variants: vec![
                Variant { name: "Some".to_string(), fields: vec![field("0", ty("T"))] },
                Variant { name: "None".to_string(), fields: vec![] },
            ],
        }),
        Item::Interface(Interface {
            exported: false,
            name: "Shape".to_string(),
            generics: vec![],
            methods: vec![],
        }),
        strukt("Shaped", &[], vec![field("s", ty("Shape"))]),
    ]
}

fn slice_of(t: Type) -> Type {
    Type::Slice(Box::new(t))
}

#[test]
fn plain_data_crosses() {
    let it = items();
    assert!(chan_element_ok(&it, &ty("Point")));
    assert!(chan_element_ok(&it, &ty("int64")));
    assert!(chan_element_ok(&it, &Type::Tuple(vec![ty("Point"), Type::Array(Box::new(ty("int8")), 4)])));
}

#[test]
fn slices_closures_and_interfaces_do_not_cross() {
    let it = items();
    assert!(!chan_element_ok(&it, &slice_of(ty("int64"))));
    assert!(!chan_element_ok(&it, &Type::Func(vec![], Box::new(Type::Unit))));
    assert!(!chan_element_ok(&it, &ty("View")));
    assert!(!chan_element_ok(&it, &ty("Shape")));
    assert!(!chan_element_ok(&it, &ty("Shaped")));
}

#[test]
fn burial_behind_a_type_parameter_is_found() {
    let it = items();
    assert!(!chan_element_ok(&it, &app("Holder", vec![slice_of(ty("uint8"))])));
    assert!(chan_element_ok(&it, &app("Holder", vec![ty("int64")])));
    assert!(!chan_element_ok(&it, &app("Maybe", vec![app("Holder", vec![ty("View")])])));
    assert!(chan_element_ok(&it, &app("Maybe", vec![ty("Point")])));
}

#[test]
fn recursive_types_terminate() {
    let it = items();
    assert!(chan_element_ok(&it, &ty("Node")));
    assert!(crossable(&it, &ty("Node"), true, &vec![]));
}

#[test]
fn futures_are_refused_only_under_the_ban() {
    let it = items();
    let fut = app("Future", vec![ty("int64")]);
    assert!(crossable(&it, &fut, false, &vec![]));
    assert!(!crossable(&it, &fut, true, &vec![]));
    let behind = Type::Ptr(Box::new(app("Holder", vec![app("Future", vec![ty("int64")])])));
    assert!(crossable(&it, &behind, false, &vec![]));
    assert!(!crossable(&it, &behind, true, &vec![]));
    assert!(crossable(&it, &Type::Ptr(Box::new(slice_of(ty("int64")))), true, &vec![]));
}

#[test]
fn future_reachability_walks_fields_and_arguments() {
    let it = items();
    assert!(reaches_future(&it, &app("Maybe", vec![app("Future", vec![ty("int64")])]), &vec![]));
    assert!(!reaches_future(&it, &ty("Node"), &vec![]));
    assert!(!reaches_future(&it, &ty("Shape"), &vec![]));
    assert!(reaches_future(&it, &Type::Tuple(vec![ty("int64"), Type::Ptr(Box::new(app("Future", vec![])))]), &vec![]));
}

#[test]
fn channel_and_future_calls_are_checked() {
    let it = items();
    let sp = Span::new(4, 9);
    let d = check_chan_element(&it, "chan_send", &vec![slice_of(ty("int64"))], sp).unwrap();
    assert!(d.msg.starts_with("a channel element cannot contain a slice, closure, or interface value"));
    assert_eq!(d.span, sp);
    let d = check_chan_element(&it, "future_new", &vec![ty("View")], sp).unwrap();
    assert!(d.msg.starts_with("a future element cannot contain"));
    assert!(check_chan_element(&it, "chan_send", &vec![ty("Point")], sp).is_none());
    assert!(check_chan_element(&it, "print", &vec![slice_of(ty("int64"))], sp).is_none());
    assert!(check_chan_element(&it, "chan_new", &vec![], sp).is_none());
}

#[test]
fn future_spellings_are_checked_wherever_they_appear() {
    let it = items();
    let sp = Span::new(1, 2);
    let mut diags = Vec::new();
    let t = Type::Tuple(vec![
        app("Future", vec![slice_of(ty("int64"))]),
        app("Future", vec![ty("int64")]),
        Type::Ptr(Box::new(app("Future", vec![app("Future", vec![ty("View")])]))),
    ]);
    check_future_spell(&it, &t, sp, &mut diags);
    assert_eq!(diags.len(), 3);
    assert!(diags.iter().all(|d| d.span == sp && d.msg.starts_with("a future element cannot contain")));
}

fn ident(n: &str) -> dusk::parser::ast::Expr {
    dusk::parser::ast::Expr { kind: dusk::parser::ast::ExprKind::Ident(n.to_string()), span: Span::new(0, 0) }
}

#[test]
fn missing_type_parameters_are_reported_in_order() {
    let mut diags = Vec::new();
    dusk::mono::checks::report_missing(&vec!["T".to_string(), "U".to_string()], "pair", Span::new(3, 4), &mut diags);
    assert_eq!(diags.len(), 2);
    assert_eq!(diags[0].msg, "cannot infer the type parameter 'T' for 'pair'; add an annotation that pins it");
    assert_eq!(diags[1].msg, "cannot infer the type parameter 'U' for 'pair'; add an annotation that pins it");
    assert_eq!(diags[1].span, Span::new(3, 4));
}

#[test]
fn task_captures_that_view_the_frame_are_reported_once() {
    let it = items();
    let mut env = dusk::mono::Subst::new();
    env.insert("data".to_string(), slice_of(ty("int64")));
    env.insert("n".to_string(), ty("int64"));
    env.insert("f".to_string(), app("Future", vec![ty("int64")]));
    env.insert("x".to_string(), slice_of(ty("int64")));
    let call = dusk::parser::ast::Expr {
        kind: ExprKind::Call(
            Box::new(ident("use")),
            vec![ident("data"), ident("n"), ident("x"), ident("data"), ident("f")],
        ),
        span: Span::new(0, 0),
    };
    let l = Lambda {
        params: vec![Param { using: false, name: "x".to_string(), ty: slice_of(ty("int64")) }],
        ret: Type::Unit,
        body: Block { stmts: vec![Stmt::Expr(call)] },
    };
    let mut diags = Vec::new();
    dusk::mono::checks::check_task_captures(&it, "spawn", &l, &env, Span::new(7, 8), &mut diags);
    assert_eq!(diags.len(), 2);
    assert_eq!(
        diags[0].msg,
        "spawn cannot capture 'data': it holds a slice, closure, interface value, or future that would view the spawning frame"
    );
    assert!(diags[1].msg.starts_with("spawn cannot capture 'f':"));
    assert_eq!(diags[0].span, Span::new(7, 8));
}
