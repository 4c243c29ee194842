use nestcss::modules::{
    declare_module_color, declare_module_list, declare_module_map, declare_module_math,
    declare_module_meta, declare_module_selector, declare_module_string, Builtin, Identifier,
    Mixin, MixinEntry, Module, Modules, QuoteKind, SassError, Scope, SpannedIdent, Value,
};

fn span() -> codemap::Span {
    let mut cm = codemap::CodeMap::new();
    let file = cm.add_file("main.scss".to_string(), "$x".to_string());
    file.span
}

fn ident(s: &str) -> Identifier {
    Identifier::from_str(s)
}

fn spanned(s: &str) -> SpannedIdent {
    SpannedIdent { node: ident(s), span: span() }
}

#[test]
fn insert_and_get_module() {
    let mut modules = Modules::default();
    modules.insert(ident("math"), declare_module_math());
    assert!(modules.get(ident("math"), span()).is_ok());
    let err = modules.get(ident("meta"), span());
    match err {
        Err(e) => assert_eq!(
            e.message(),
            "There is no module with the namespace \"meta\"."
        ),
        Ok(_) => panic!("namespace should be unknown"),
    }
}

#[test]
fn get_var_public_private_undefined() {
    let mut module = Module::default();
    module.insert_builtin_var("pi", Value::Text("3.14".to_string(), QuoteKind::Unquoted));
    module.insert_builtin_var("-secret", Value::Null);

    match module.get_var(spanned("pi")) {
        Ok(Value::Text(s, QuoteKind::Unquoted)) => assert_eq!(s, "3.14"),
        _ => panic!("expected the stored unquoted text"),
    }
    match module.get_var(spanned("-secret")) {
        Err(e @ SassError::PrivateMember(_)) => assert_eq!(
            e.message(),
            "Private members can't be accessed from outside their modules."
        ),
        _ => panic!("private member must be refused"),
    }
    match module.get_var(spanned("tau")) {
        Err(e @ SassError::UndefinedVariable(_)) => {
            assert_eq!(e.message(), "Undefined variable.")
        }
        _ => panic!("missing variable must be undefined"),
    }
}

#[test]
fn var_exists_respects_visibility() {
    let mut module = Module::default();
    module.insert_builtin_var("a", Value::Null);
    module.insert_builtin_var("-b", Value::Null);
    assert!(module.var_exists(ident("a")));
    assert!(!module.var_exists(ident("-b")));
    assert!(!module.var_exists(ident("c")));
}

#[test]
fn insert_replaces_existing_variable() {
    let mut module = Module::default();
    module.insert_builtin_var("x", Value::Null);
    module.insert_builtin_var("x", Value::Text("new".to_string(), QuoteKind::Quoted));
    let vars = module.variables();
    assert_eq!(vars.0.len(), 1);
    match &vars.0[0] {
        (Value::Text(k, QuoteKind::Quoted), Value::Text(v, QuoteKind::Quoted)) => {
            assert_eq!(k, "x");
            assert_eq!(v, "new");
        }
        _ => panic!("expected one quoted name with the replaced value"),
    }
}

#[test]
fn get_fn_and_functions_map() {
    let mut module = Module::default();
    module.insert_builtin("red", Builtin::new(1));
    module.insert_builtin("-hidden", Builtin::new(2));

    match module.get_fn(spanned("red")) {
        Ok(Some(_)) => {}
        _ => panic!("public function must be found"),
    }
    assert!(matches!(module.get_fn(spanned("-hidden")), Err(SassError::PrivateMember(_))));
    assert!(matches!(module.get_fn(spanned("green")), Ok(None)));

    let fns = module.functions();
    assert_eq!(fns.0.len(), 1);
    match &fns.0[0] {
        (Value::Text(k, QuoteKind::Quoted), Value::FunctionRef(_)) => assert_eq!(k, "red"),
        _ => panic!("expected the quoted name and a function reference"),
    }
}

#[test]
fn variables_map_skips_private() {
    let mut module = Module::default();
    module.insert_builtin_var("a", Value::Null);
    module.insert_builtin_var("-b", Value::Null);
    module.insert_builtin_var("c", Value::Null);
    let vars = module.variables();
    assert_eq!(vars.0.len(), 2);
    match (&vars.0[0], &vars.0[1]) {
        ((Value::Text(k0, _), Value::Null), (Value::Text(k1, _), Value::Null)) => {
            assert_eq!(k0, "a");
            assert_eq!(k1, "c");
        }
        _ => panic!("expected the two public names in order"),
    }
}

#[test]
fn mixin_exists_respects_visibility() {
    let scope = Scope {
        vars: vec![],
        mixins: vec![
            MixinEntry { name: ident("pub-mixin"), private: false, mixin: Mixin { id: 1 } },
            MixinEntry { name: ident("-priv"), private: true, mixin: Mixin { id: 2 } },
        ],
        functions: vec![],
    };
    let module = Module::new_from_scope(scope);
    assert!(module.mixin_exists(ident("pub-mixin")));
    assert!(!module.mixin_exists(ident("-priv")));
    assert!(!module.mixin_exists(ident("other")));
}

#[test]
fn declared_modules_start_empty() {
    for module in [
        declare_module_color(),
        declare_module_list(),
        declare_module_map(),
        declare_module_math(),
        declare_module_meta(),
        declare_module_selector(),
        declare_module_string(),
    ] {
        assert_eq!(module.variables().0.len(), 0);
        assert_eq!(module.functions().0.len(), 0);
    }
}
