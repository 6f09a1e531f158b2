use boxlang_compiler::ast::Ident;
use boxlang_compiler::typeck::sym::{MethodReceiver, Symbol, SymbolKind, SymbolTable, Visibility};
use boxlang_compiler::typeck::ty::{FieldDef, Ty};

fn make_symbol(name: &str, kind: SymbolKind, ty: Ty, is_mut: bool) -> Symbol {
    Symbol { name: Ident::new(name), kind, ty, is_mut, span: 0..10, visibility: Visibility::Private }
}

fn public_symbol(name: &str, kind: SymbolKind, ty: Ty) -> Symbol {
    Symbol { name: Ident::new(name), kind, ty, is_mut: false, span: 0..0, visibility: Visibility::Public }
}

fn path(parts: &[&str]) -> Vec<String> {
    parts.iter().map(|p| p.to_string()).collect()
}

#[test]
fn test_symbol_table_basic() {
    let mut table = SymbolTable::new();

    table.insert(make_symbol("x", SymbolKind::Variable, Ty::I32, false));

    let symbol = table.lookup(&Ident::new("x"));
    assert!(symbol.is_some());
    assert_eq!(symbol.unwrap().ty, Ty::I32);
}

#[test]
fn test_symbol_table_scopes() {
    let mut table = SymbolTable::new();

    table.insert(make_symbol("x", SymbolKind::Variable, Ty::I32, false));

    table.enter_scope();

    table.insert(make_symbol("y", SymbolKind::Variable, Ty::F64, true));

    assert!(table.lookup(&Ident::new("x")).is_some());
    assert!(table.lookup(&Ident::new("y")).is_some());

    table.exit_scope();

    assert!(table.lookup(&Ident::new("x")).is_some());
    assert!(table.lookup(&Ident::new("y")).is_none());
}

#[test]
fn test_builtin_types() {
    let table = SymbolTable::new();

    assert!(table.is_type(&Ident::new("i32")));
    assert!(table.is_type(&Ident::new("f64")));
    assert!(table.is_type(&Ident::new("bool")));
    assert!(!table.is_type(&Ident::new("unknown")));
}

#[test]
fn test_module_registration() {
    let mut table = SymbolTable::new();

    table.register_module(&path(&["std", "io"]));

    let symbol = Symbol {
        name: Ident::new("println"),
        kind: SymbolKind::Function { params: vec![Ty::String], ret: Ty::Unit },
        ty: Ty::Fn { params: vec![Ty::String], ret: Box::new(Ty::Unit) },
        is_mut: false,
        span: 0..0,
        visibility: Visibility::Public,
    };

    table.insert_in_module(&path(&["std", "io"]), symbol);

    let found = table.lookup_in_module(&path(&["std", "io"]), &Ident::new("println"));
    assert!(found.is_some());
}

#[test]
fn test_inner_scope_shadows_outer() {
    let mut table = SymbolTable::new();
    table.insert(make_symbol("x", SymbolKind::Variable, Ty::I32, false));
    table.enter_scope();
    table.insert(make_symbol("x", SymbolKind::Variable, Ty::Bool, true));
    assert_eq!(table.get_var_type(&Ident::new("x")), Some(&Ty::Bool));
    assert!(table.is_mutable(&Ident::new("x")));
    assert!(table.contains_current(&Ident::new("x")));
    table.exit_scope();
    assert_eq!(table.get_var_type(&Ident::new("x")), Some(&Ty::I32));
    assert!(!table.is_mutable(&Ident::new("x")));
}

#[test]
fn test_insert_replaces_same_name() {
    let mut table = SymbolTable::new();
    table.insert(make_symbol("x", SymbolKind::Variable, Ty::I32, false));
    table.insert(make_symbol("x", SymbolKind::Variable, Ty::U8, false));
    assert_eq!(table.lookup_current(&Ident::new("x")).unwrap().ty, Ty::U8);
}

#[test]
fn test_exit_scope_at_root_stays() {
    let mut table = SymbolTable::new();
    table.exit_scope();
    assert!(table.is_type(&Ident::new("bool")));
    assert!(table.current_module().is_none());
}

#[test]
fn test_outer_scope_sees_no_inner_names() {
    let mut table = SymbolTable::new();
    table.enter_scope();
    table.enter_scope();
    table.insert(make_symbol("deep", SymbolKind::Variable, Ty::Char, false));
    assert!(table.contains(&Ident::new("deep")));
    assert!(table.contains(&Ident::new("i64")));
    table.exit_to_root();
    assert!(!table.contains(&Ident::new("deep")));
    assert!(!table.contains_current(&Ident::new("deep")));
}

#[test]
fn test_register_module_twice_same_scope() {
    let mut table = SymbolTable::new();
    let a = table.register_module(&path(&["a", "b"]));
    let b = table.register_module(&path(&["c"]));
    let again = table.register_module(&path(&["a", "b"]));
    assert_eq!(a, 1);
    assert_eq!(b, 2);
    assert_eq!(again, a);
}

#[test]
fn test_module_path_key_joins_segments() {
    let mut table = SymbolTable::new();
    let a = table.register_module(&path(&["a", "b"]));
    let joined = table.register_module(&path(&["a::b"]));
    assert_eq!(a, joined);
}

#[test]
fn test_enter_module_makes_it_current() {
    let mut table = SymbolTable::new();
    table.enter_module(&path(&["m"]));
    assert_eq!(table.current_module(), Some(&path(&["m"])[..]));
    table.insert(public_symbol("f", SymbolKind::Variable, Ty::Unit));
    assert!(table.lookup_in_module(&path(&["m"]), &Ident::new("f")).is_some());
    // The module scope sits inside the root scope.
    assert!(table.is_type(&Ident::new("String")));
    table.exit_scope();
    assert!(table.current_module().is_none());
    assert!(table.lookup(&Ident::new("f")).is_none());
}

#[test]
fn test_lookup_in_unknown_module() {
    let table = SymbolTable::new();
    assert!(table.lookup_in_module(&path(&["nowhere"]), &Ident::new("x")).is_none());
    assert!(table.get_module_symbols(&path(&["nowhere"])).is_empty());
}

#[test]
fn test_builtin_print_functions() {
    let table = SymbolTable::new();
    let (params, ret) = table.get_function(&Ident::new("println")).unwrap();
    assert_eq!(params, vec![Ty::String]);
    assert_eq!(ret, Ty::Unit);
    let (params_ref, ret_ref) = table.get_function_ref(&Ident::new("print")).unwrap();
    assert_eq!(params_ref, &[Ty::String][..]);
    assert_eq!(ret_ref, &Ty::Unit);
    assert!(table.get_function(&Ident::new("i32")).is_none());
    assert!(table.get_function(&Ident::new("missing")).is_none());
}

#[test]
fn test_struct_fields_and_field_type() {
    let mut table = SymbolTable::new();
    let fields = vec![(Ident::new("a"), Ty::I32), (Ident::new("b"), Ty::Bool), (Ident::new("a"), Ty::U8)];
    table.insert(public_symbol("Point", SymbolKind::Struct { fields }, Ty::Named("Point".to_string())));
    let got = table.get_struct_fields(&Ident::new("Point")).unwrap();
    assert_eq!(got.len(), 3);
    assert_eq!(got[1].1, Ty::Bool);
    assert_eq!(table.get_field_type(&Ident::new("Point"), &Ident::new("b")), Some(Ty::Bool));
    assert_eq!(table.get_field_type(&Ident::new("Point"), &Ident::new("a")), Some(Ty::I32));
    assert_eq!(table.get_field_type(&Ident::new("Point"), &Ident::new("c")), None);
    assert_eq!(table.get_field_type(&Ident::new("i32"), &Ident::new("a")), None);
    assert!(table.get_struct_fields(&Ident::new("bool")).is_none());
}

#[test]
fn test_get_method_by_qualified_name() {
    let mut table = SymbolTable::new();
    table.insert(public_symbol(
        "Point::len",
        SymbolKind::Method {
            params: vec![Ty::I32],
            ret: Ty::Usize,
            receiver: MethodReceiver::Ref,
            impl_type: Ty::Named("Point".to_string()),
        },
        Ty::Unit,
    ));
    let (params, ret, receiver) = table.get_method(&Ident::new("Point"), &Ident::new("len")).unwrap();
    assert_eq!(params, vec![Ty::I32]);
    assert_eq!(ret, Ty::Usize);
    assert_eq!(receiver, MethodReceiver::Ref);
    assert!(table.get_method(&Ident::new("Point"), &Ident::new("area")).is_none());
}

#[test]
fn test_import_symbol_is_public_error_typed() {
    let mut table = SymbolTable::new();
    table.import_symbol(Ident::new("w"), Ident::new("write"), path(&["std", "io"]));
    let s = table.lookup(&Ident::new("w")).unwrap();
    assert_eq!(s.ty, Ty::Error);
    assert_eq!(s.visibility, Visibility::Public);
    match &s.kind {
        SymbolKind::Imported { original_name, source_module } => {
            assert_eq!(original_name.name, "write");
            assert_eq!(source_module, &path(&["std", "io"]));
        }
        _ => panic!("not an import"),
    }
}

#[test]
fn test_import_all_from_module() {
    let mut table = SymbolTable::new();
    let m = path(&["lib"]);
    table.insert_in_module(&m, public_symbol("f", SymbolKind::Variable, Ty::I64));
    table.insert_in_module(&m, make_symbol("hidden", SymbolKind::Variable, Ty::I8, false));
    table.insert_in_module(&m, public_symbol("sub", SymbolKind::Module { path: path(&["lib", "sub"]) }, Ty::Module));
    table.insert_in_module(
        &m,
        public_symbol(
            "V",
            SymbolKind::Variant { parent_enum: Ident::new("E"), variant_index: 2, fields: vec![FieldDef { name: "0".to_string(), ty: Ty::U16 }] },
            Ty::Unit,
        ),
    );
    let mut names: Vec<String> = table.import_all_from_module(&m).into_iter().map(|i| i.name).collect();
    names.sort();
    assert_eq!(names, vec!["V".to_string(), "f".to_string(), "sub".to_string()]);
    assert_eq!(table.lookup_current(&Ident::new("f")).unwrap().ty, Ty::I64);
    assert!(table.lookup_current(&Ident::new("V")).is_some());
    assert!(table.lookup_current(&Ident::new("hidden")).is_none());
    assert!(table.lookup_current(&Ident::new("sub")).is_none());
    assert!(table.import_all_from_module(&path(&["missing"])).is_empty());
}

#[test]
fn test_get_module_symbols_each_once() {
    let mut table = SymbolTable::new();
    let m = path(&["k"]);
    table.insert_in_module(&m, public_symbol("a", SymbolKind::Const, Ty::I32));
    table.insert_in_module(&m, public_symbol("b", SymbolKind::Static, Ty::I32));
    table.insert_in_module(&m, public_symbol("a", SymbolKind::Const, Ty::U32));
    let syms = table.get_module_symbols(&m);
    let mut names: Vec<&str> = syms.iter().map(|s| s.name.name.as_str()).collect();
    names.sort();
    assert_eq!(names, vec!["a", "b"]);
    assert_eq!(table.lookup_in_module(&m, &Ident::new("a")).unwrap().ty, Ty::U32);
}

#[test]
fn test_prelude_flag() {
    let mut table = SymbolTable::default();
    assert!(!table.prelude_loaded());
    table.set_prelude_loaded(true);
    assert!(table.prelude_loaded());
    assert!(table.is_type(&Ident::new("char")));
}

#[test]
fn test_type_checker_builtins_registered_twice() {
    let mut checker = boxlang_compiler::typeck::check::TypeChecker::new();
    checker.register_builtin_types();
}
