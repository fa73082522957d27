use std::sync::Arc;

use syster_base::{
    FileId, HirSymbol, ResolveResult, Resolver, Scope, ScopeVisibility, SymbolIndex, SymbolKind,
    TypeRef, TypeRefChain, TypeRefKind,
};

fn make_symbol(name: &str, qualified: &str, kind: SymbolKind, file: u32) -> HirSymbol {
    HirSymbol::new(name, qualified, kind, FileId::new(file))
}

fn typed(name: &str, qualified: &str, kind: SymbolKind, file: u32, supertype: &str) -> HirSymbol {
    let mut s = make_symbol(name, qualified, kind, file);
    s.supertypes = vec![supertype.to_string()];
    s
}

fn import(target: &str, scope: &str, file: u32, public: bool) -> HirSymbol {
    let qualified = if scope.is_empty() {
        format!("import:{}", target)
    } else {
        format!("{}::import:{}", scope, target)
    };
    let mut s = make_symbol(target, &qualified, SymbolKind::Import, file);
    s.is_public = public;
    s
}

fn found_qname(r: &ResolveResult) -> Option<String> {
    r.symbol().map(|s| s.qualified_name.clone())
}

#[test]
fn test_scope_lookup() {
    let mut scope = Scope::new();
    scope.add(make_symbol("Car", "Car", SymbolKind::PartDef, 0));
    scope.add(make_symbol("Engine", "Engine", SymbolKind::PartDef, 0));

    assert!(scope.lookup("Car").is_some());
    assert!(scope.lookup("Engine").is_some());
    assert!(scope.lookup("Unknown").is_none());
}

#[test]
fn test_scope_child() {
    let mut root = Scope::new();
    root.add(make_symbol("Global", "Global", SymbolKind::Package, 0));

    let root = Arc::new(root);
    let mut child = Scope::child(root, "Child");
    child.add(make_symbol("Local", "Child::Local", SymbolKind::PartDef, 0));

    assert!(child.lookup("Local").is_some());
    assert!(child.lookup("Global").is_some());
}

#[test]
fn scope_lookup_all_and_qualified() {
    let mut root = Scope::new();
    root.add(make_symbol("Pkg", "Pkg", SymbolKind::Package, 0));
    root.add(make_symbol("x", "x", SymbolKind::PartUsage, 0));
    let root = Arc::new(root);
    let mut child = Scope::child(root, "Pkg");
    child.add(make_symbol("x", "Pkg::x", SymbolKind::PartUsage, 0));
    child.add(make_symbol("Part", "Pkg::Part", SymbolKind::PartDef, 0));

    let all = child.lookup_all("x");
    assert_eq!(all.len(), 2);
    assert_eq!(all[0].qualified_name, "Pkg::x");
    assert_eq!(all[1].qualified_name, "x");
    assert_eq!(child.lookup("x").unwrap().qualified_name, "Pkg::x");
    assert_eq!(child.lookup_qualified("Pkg::Part").unwrap().name, "Part");
    assert!(child.lookup_qualified("Nope::Part").is_none());
    assert_eq!(child.prefix(), "Pkg");
    assert_eq!(child.len(), 2);
    assert_eq!(child.symbols().len(), 2);
    assert!(!child.is_empty());
    assert!(Scope::new().is_empty());
}

#[test]
fn test_symbol_index_basic() {
    let mut index = SymbolIndex::new();

    let symbols = vec![
        make_symbol("Vehicle", "Vehicle", SymbolKind::Package, 0),
        make_symbol("Car", "Vehicle::Car", SymbolKind::PartDef, 0),
        make_symbol("engine", "Vehicle::Car::engine", SymbolKind::PartUsage, 0),
    ];

    index.add_file(FileId::new(0), symbols);

    assert_eq!(index.len(), 3);
    assert!(index.lookup_qualified("Vehicle::Car").is_some());
    assert!(index.lookup_qualified("Vehicle::Car::engine").is_some());
    assert!(index.lookup_definition("Vehicle::Car").is_some());
    assert!(index.lookup_definition("Vehicle::Car::engine").is_none());
}

#[test]
fn scenario_vehicle_definitions_and_file_symbols() {
    let mut index = SymbolIndex::new();
    index.add_file(
        FileId::new(0),
        vec![
            make_symbol("Vehicle", "Vehicle", SymbolKind::Package, 0),
            make_symbol("Car", "Vehicle::Car", SymbolKind::PartDef, 0),
            make_symbol("engine", "Vehicle::Car::engine", SymbolKind::PartUsage, 0),
        ],
    );
    assert!(index.lookup_definition("Vehicle::Car").is_some());
    assert!(index.lookup_definition("Vehicle::Car::engine").is_none());
    assert_eq!(index.symbols_in_file(FileId::new(0)).len(), 3);
}

#[test]
fn test_symbol_index_remove_file() {
    let mut index = SymbolIndex::new();

    index.add_file(FileId::new(0), vec![make_symbol("A", "A", SymbolKind::PartDef, 0)]);
    index.add_file(FileId::new(1), vec![make_symbol("B", "B", SymbolKind::PartDef, 1)]);

    assert_eq!(index.len(), 2);

    index.remove_file(FileId::new(0));

    assert_eq!(index.len(), 1);
    assert!(index.lookup_qualified("A").is_none());
    assert!(index.lookup_qualified("B").is_some());
}

#[test]
fn removal_keeps_other_files_resolvable() {
    let mut index = SymbolIndex::new();
    index.add_file(
        FileId::new(0),
        vec![make_symbol("P", "P", SymbolKind::Package, 0), make_symbol("a", "P::a", SymbolKind::PartUsage, 0)],
    );
    index.add_file(
        FileId::new(1),
        vec![make_symbol("Q", "Q", SymbolKind::Package, 1), make_symbol("b", "Q::b", SymbolKind::PartUsage, 1)],
    );
    index.remove_file(FileId::new(0));
    assert!(index.lookup_qualified("P").is_none());
    assert!(index.lookup_qualified("P::a").is_none());
    assert!(index.lookup_qualified("Q").is_some());
    assert!(index.lookup_qualified("Q::b").is_some());
    assert_eq!(index.file_count(), 1);
    assert!(index.symbols_in_file(FileId::new(0)).is_empty());
    index.ensure_visibility_maps();
    let r = Resolver::new(&index).resolve("Q::b");
    assert_eq!(found_qname(&r).as_deref(), Some("Q::b"));
    assert!(!Resolver::new(&index).resolve("P::a").is_found());
}

#[test]
fn adding_a_file_twice_is_idempotent() {
    let symbols = || {
        vec![
            make_symbol("Vehicle", "Vehicle", SymbolKind::Package, 0),
            make_symbol("Car", "Vehicle::Car", SymbolKind::PartDef, 0),
            make_symbol("Car", "Other::Car", SymbolKind::PartUsage, 0),
        ]
    };
    let mut once = SymbolIndex::new();
    once.add_file(FileId::new(0), symbols());
    let mut twice = SymbolIndex::new();
    twice.add_file(FileId::new(0), symbols());
    twice.add_file(FileId::new(0), symbols());

    assert_eq!(once.len(), twice.len());
    assert_eq!(once.file_count(), twice.file_count());
    assert_eq!(twice.symbols_in_file(FileId::new(0)).len(), 3);
    assert_eq!(twice.lookup_simple("Car").len(), 2);
    once.ensure_visibility_maps();
    twice.ensure_visibility_maps();
    for (scope, name) in [("Vehicle", "Car"), ("", "Vehicle::Car"), ("Other", "Car")] {
        let a = Resolver::new(&once).with_scope(scope).resolve(name);
        let b = Resolver::new(&twice).with_scope(scope).resolve(name);
        assert_eq!(found_qname(&a), found_qname(&b));
    }
}

#[test]
fn index_lookups_and_listings() {
    let mut index = SymbolIndex::new();
    assert!(index.is_empty());
    index.add_file(
        FileId::new(0),
        vec![
            make_symbol("A", "A", SymbolKind::PartDef, 0),
            make_symbol("x", "A::x", SymbolKind::PartUsage, 0),
            make_symbol("x", "B::x", SymbolKind::AttributeUsage, 0),
        ],
    );
    assert!(!index.is_empty());
    assert_eq!(index.lookup_simple("x").len(), 2);
    assert_eq!(index.lookup_simple("y").len(), 0);
    assert_eq!(index.all_definitions().len(), 1);
    assert_eq!(index.all_symbols().len(), 3);
    assert!(index.is_dirty());
    index.ensure_visibility_maps();
    assert!(!index.is_dirty());
    if let Some(s) = index.lookup_qualified_mut("A::x") {
        s.doc = Some("a part".to_string());
    }
    assert_eq!(index.lookup_qualified("A::x").unwrap().doc.as_deref(), Some("a part"));
    assert!(index.lookup_qualified_mut("missing").is_none());
}

#[test]
fn test_resolver_qualified_name() {
    let mut index = SymbolIndex::new();
    index.add_file(FileId::new(0), vec![make_symbol("Car", "Vehicle::Car", SymbolKind::PartDef, 0)]);

    let resolver = Resolver::new(&index);
    let result = resolver.resolve("Vehicle::Car");

    assert!(result.is_found());
    assert_eq!(result.symbol().unwrap().name, "Car");
}

#[test]
fn test_resolver_with_scope() {
    let mut index = SymbolIndex::new();
    index.add_file(
        FileId::new(0),
        vec![
            make_symbol("Car", "Vehicle::Car", SymbolKind::PartDef, 0),
            make_symbol("engine", "Vehicle::Car::engine", SymbolKind::PartUsage, 0),
        ],
    );
    index.ensure_visibility_maps();

    let resolver = Resolver::new(&index).with_scope("Vehicle::Car");
    let result = resolver.resolve("engine");

    assert!(result.is_found());
}

#[test]
fn test_resolver_with_visibility_maps() {
    let mut index = SymbolIndex::new();
    index.add_file(
        FileId::new(0),
        vec![
            make_symbol("ISQ", "ISQ", SymbolKind::Package, 0),
            make_symbol("Real", "ISQ::Real", SymbolKind::AttributeDef, 0),
        ],
    );
    let mut import_sym = make_symbol("ISQ::*", "TestPkg::import:ISQ::*", SymbolKind::Import, 1);
    import_sym.is_public = false;
    index.add_file(FileId::new(1), vec![make_symbol("TestPkg", "TestPkg", SymbolKind::Package, 1), import_sym]);
    index.ensure_visibility_maps();

    let resolver = Resolver::new(&index).with_scope("TestPkg");
    let result = resolver.resolve("Real");

    assert!(result.is_found());
    assert_eq!(result.symbol().unwrap().qualified_name, "ISQ::Real");
}

#[test]
fn wildcard_imports_are_transitive() {
    let mut index = SymbolIndex::new();
    index.add_file(
        FileId::new(0),
        vec![
            make_symbol("A", "A", SymbolKind::Package, 0),
            make_symbol("Real", "A::Real", SymbolKind::AttributeDef, 0),
            make_symbol("B", "B", SymbolKind::Package, 0),
            import("A::*", "B", 0, true),
            make_symbol("C", "C", SymbolKind::Package, 0),
            import("B::*", "C", 0, true),
        ],
    );
    index.ensure_visibility_maps();
    let r = index.resolver_for_scope("C").resolve("Real");
    assert_eq!(found_qname(&r).as_deref(), Some("A::Real"));
    let vis = index.visibility_for_scope("B").unwrap();
    assert_eq!(vis.public_reexports().len(), 1);
    assert_eq!(vis.public_reexports()[0], "A");
}

#[test]
fn single_symbol_import_and_qualified_path_through_import() {
    let mut index = SymbolIndex::new();
    index.add_file(
        FileId::new(0),
        vec![
            make_symbol("Defs", "Defs", SymbolKind::Package, 0),
            make_symbol("Engine", "Defs::Engine", SymbolKind::PartDef, 0),
            make_symbol("Other", "Defs::Other", SymbolKind::PartDef, 0),
            make_symbol("Car", "Car", SymbolKind::Package, 0),
            import("Defs::Engine", "Car", 0, false),
            make_symbol("Lib", "Lib", SymbolKind::Package, 0),
            import("Defs::*", "Lib", 0, true),
        ],
    );
    index.ensure_visibility_maps();
    let car = Resolver::new(&index).with_scope("Car");
    assert_eq!(found_qname(&car.resolve("Engine")).as_deref(), Some("Defs::Engine"));
    assert!(!car.resolve("Other").is_found());
    let root = Resolver::new(&index);
    assert_eq!(found_qname(&root.resolve("Lib::Other")).as_deref(), Some("Defs::Other"));
    assert_eq!(found_qname(&root.resolve("Car")).as_deref(), Some("Car"));
    assert!(!root.resolve("Nothing::Here").is_found());
}

#[test]
fn circular_imports_terminate() {
    let mut index = SymbolIndex::new();
    index.add_file(
        FileId::new(0),
        vec![
            make_symbol("A", "A", SymbolKind::Package, 0),
            make_symbol("a", "A::a", SymbolKind::PartDef, 0),
            import("B::*", "A", 0, true),
            make_symbol("B", "B", SymbolKind::Package, 0),
            make_symbol("b", "B::b", SymbolKind::PartDef, 0),
            import("A::*", "B", 0, true),
        ],
    );
    index.ensure_visibility_maps();
    assert_eq!(found_qname(&index.resolver_for_scope("A").resolve("b")).as_deref(), Some("B::b"));
    assert_eq!(found_qname(&index.resolver_for_scope("B").resolve("a")).as_deref(), Some("A::a"));
}

#[test]
fn direct_declaration_shadows_import() {
    let mut index = SymbolIndex::new();
    index.add_file(
        FileId::new(0),
        vec![
            make_symbol("Lib", "Lib", SymbolKind::Package, 0),
            make_symbol("x", "Lib::x", SymbolKind::AttributeDef, 0),
            make_symbol("S", "S", SymbolKind::Package, 0),
            make_symbol("x", "S::x", SymbolKind::PartDef, 0),
            import("Lib::*", "S", 0, false),
            import("Lib::x", "S", 0, false),
        ],
    );
    index.ensure_visibility_maps();
    let r = index.resolver_for_scope("S").resolve("x");
    assert_eq!(found_qname(&r).as_deref(), Some("S::x"));
    let vis = index.visibility_for_scope("S").unwrap();
    assert_eq!(vis.lookup("x").map(|q| q.as_str()), Some("S::x"));
    assert!(vis.lookup_import("x").is_none());
}

#[test]
fn resolve_type_skips_usages() {
    let mut index = SymbolIndex::new();
    index.add_file(
        FileId::new(0),
        vec![
            make_symbol("P", "P", SymbolKind::Package, 0),
            make_symbol("Wheel", "P::Wheel", SymbolKind::PartUsage, 0),
            make_symbol("Wheel", "Wheel", SymbolKind::PartDef, 0),
        ],
    );
    index.ensure_visibility_maps();
    let resolver = Resolver::new(&index).with_scope("P");
    assert_eq!(found_qname(&resolver.resolve("Wheel")).as_deref(), Some("P::Wheel"));
    assert!(matches!(resolver.resolve_type("Wheel"), ResolveResult::NotFound));
    let root = Resolver::new(&index);
    assert_eq!(found_qname(&root.resolve_type("Wheel")).as_deref(), Some("Wheel"));
    assert!(!root.resolve_type("Wheel").is_ambiguous());
}

#[test]
fn inherited_members_are_visible_in_subtype() {
    let mut index = SymbolIndex::new();
    index.add_file(
        FileId::new(0),
        vec![
            make_symbol("Path", "Path", SymbolKind::PartDef, 0),
            make_symbol("length", "Path::length", SymbolKind::AttributeUsage, 0),
            make_symbol("width", "Path::width", SymbolKind::AttributeUsage, 0),
            typed("Shape", "Shape", SymbolKind::PartDef, 0, "Path"),
            make_symbol("width", "Shape::width", SymbolKind::AttributeUsage, 0),
        ],
    );
    index.ensure_visibility_maps();
    let shape = Resolver::new(&index).with_scope("Shape");
    assert_eq!(found_qname(&shape.resolve("length")).as_deref(), Some("Path::length"));
    assert_eq!(found_qname(&shape.resolve("width")).as_deref(), Some("Shape::width"));
}

#[test]
fn circular_specialization_terminates() {
    let mut index = SymbolIndex::new();
    let mut b_usage = typed("b", "b", SymbolKind::PartUsage, 0, "a");
    b_usage.type_refs = vec![TypeRefKind::Chain(TypeRefChain {
        parts: vec![TypeRef::new("a", 0, 0, 0, 1), TypeRef::new("missing", 0, 2, 0, 9)],
    })];
    index.add_file(
        FileId::new(0),
        vec![
            typed("A", "A", SymbolKind::PartDef, 0, "B"),
            typed("B", "B", SymbolKind::PartDef, 0, "A"),
            typed("a", "a", SymbolKind::PartUsage, 0, "b"),
            b_usage,
        ],
    );
    index.ensure_visibility_maps();
    assert!(index.find_member_in_scope("A", "nothing").is_none());
    index.resolve_all_type_refs();
    let b = index.lookup_qualified("b").unwrap();
    match &b.type_refs[0] {
        TypeRefKind::Chain(c) => {
            assert_eq!(c.parts[0].resolved_target.as_deref(), Some("a"));
            assert!(c.parts[1].resolved_target.is_none());
        }
        TypeRefKind::Simple(_) => panic!("expected a chain"),
    }
}

#[test]
fn feature_chain_resolves_through_type() {
    let mut index = SymbolIndex::new();
    let mut v = make_symbol("v", "v", SymbolKind::PartUsage, 0);
    v.type_refs = vec![TypeRefKind::Chain(TypeRefChain {
        parts: vec![TypeRef::new("p", 1, 12, 1, 13), TypeRef::new("d", 1, 14, 1, 15)],
    })];
    index.add_file(
        FileId::new(0),
        vec![
            make_symbol("P", "P", SymbolKind::ActionDef, 0),
            make_symbol("d", "P::d", SymbolKind::ActionUsage, 0),
            v,
            typed("p", "v::p", SymbolKind::ActionUsage, 0, "P"),
        ],
    );
    index.resolve_all_type_refs();
    let v = index.lookup_qualified("v").unwrap();
    match &v.type_refs[0] {
        TypeRefKind::Chain(c) => {
            assert_eq!(c.parts[0].resolved_target.as_deref(), Some("v::p"));
            assert_eq!(c.parts[1].resolved_target.as_deref(), Some("P::d"));
        }
        TypeRefKind::Simple(_) => panic!("expected a chain"),
    }
    assert_eq!(index.find_member_in_scope("P", "d").unwrap().qualified_name, "P::d");
}

#[test]
fn simple_type_refs_resolve_from_owner_scope() {
    let mut index = SymbolIndex::new();
    let mut w = make_symbol("wheel", "Car::wheel", SymbolKind::PartUsage, 0);
    w.type_refs = vec![
        TypeRefKind::Simple(TypeRef::new("Wheel", 0, 10, 0, 15)),
        TypeRefKind::Simple(TypeRef::new("Nope", 0, 20, 0, 24)),
    ];
    index.add_file(
        FileId::new(0),
        vec![
            make_symbol("Car", "Car", SymbolKind::Package, 0),
            make_symbol("Wheel", "Car::Wheel", SymbolKind::PartDef, 0),
            w,
        ],
    );
    index.resolve_all_type_refs();
    let w = index.lookup_qualified("Car::wheel").unwrap();
    let targets: Vec<Option<String>> = w
        .type_refs
        .iter()
        .map(|k| match k {
            TypeRefKind::Simple(t) => t.resolved_target.clone(),
            TypeRefKind::Chain(_) => None,
        })
        .collect();
    assert_eq!(targets, vec![Some("Car::Wheel".to_string()), None]);
}

#[test]
fn alias_is_followed_in_qualified_paths() {
    let mut index = SymbolIndex::new();
    index.add_file(
        FileId::new(0),
        vec![
            make_symbol("Real", "Real", SymbolKind::Package, 0),
            make_symbol("Value", "Real::Value", SymbolKind::AttributeDef, 0),
            typed("R", "R", SymbolKind::Alias, 0, "Real"),
        ],
    );
    index.ensure_visibility_maps();
    let r = Resolver::new(&index).resolve("R::Value");
    assert_eq!(found_qname(&r).as_deref(), Some("Real::Value"));
}

#[test]
fn short_names_are_visible() {
    let mut index = SymbolIndex::new();
    let mut kg = make_symbol("kilogram", "Units::kilogram", SymbolKind::AttributeUsage, 0);
    kg.short_name = Some("kg".to_string());
    index.add_file(FileId::new(0), vec![make_symbol("Units", "Units", SymbolKind::Package, 0), kg]);
    index.ensure_visibility_maps();
    let r = index.resolver_for_scope("Units").resolve("kg");
    assert_eq!(found_qname(&r).as_deref(), Some("Units::kilogram"));
    let vis = index.visibility_for_scope("Units").unwrap();
    assert_eq!(vis.scope(), "Units");
    assert_eq!(vis.len(), 2);
    assert_eq!(vis.direct_defs().len(), 2);
    assert_eq!(vis.imports().len(), 0);
}

#[test]
fn scope_visibility_direct_wins_over_import() {
    let mut vis = ScopeVisibility::new("S");
    assert!(vis.is_empty());
    vis.add_import("x".to_string(), "Lib::x".to_string());
    assert_eq!(vis.lookup("x").map(|q| q.as_str()), Some("Lib::x"));
    vis.add_direct("x".to_string(), "S::x".to_string());
    assert_eq!(vis.lookup("x").map(|q| q.as_str()), Some("S::x"));
    vis.add_import("y".to_string(), "Lib::y".to_string());
    vis.add_direct("z".to_string(), "S::z".to_string());
    vis.add_import("z".to_string(), "Lib::z".to_string());
    assert!(vis.lookup_import("z").is_none());
    assert_eq!(vis.lookup_direct("z").map(|q| q.as_str()), Some("S::z"));
    vis.add_public_reexport("Lib".to_string());
    vis.add_public_reexport("Lib".to_string());
    assert_eq!(vis.public_reexports().len(), 1);
    assert!(!vis.is_empty());
}

#[test]
fn test_symbol_kind_is_definition() {
    assert!(SymbolKind::PartDef.is_definition());
    assert!(SymbolKind::ActionDef.is_definition());
    assert!(!SymbolKind::PartUsage.is_definition());
    assert!(!SymbolKind::Import.is_definition());
}

#[test]
fn test_symbol_kind_is_usage() {
    assert!(SymbolKind::PartUsage.is_usage());
    assert!(SymbolKind::ActionUsage.is_usage());
    assert!(!SymbolKind::PartDef.is_usage());
    assert!(!SymbolKind::Package.is_usage());
}

#[test]
fn usage_kinds_map_to_definition_kinds() {
    assert_eq!(SymbolKind::PartUsage.to_definition_kind(), Some(SymbolKind::PartDef));
    assert_eq!(SymbolKind::CalculationUsage.to_definition_kind(), Some(SymbolKind::CalculationDef));
    assert_eq!(SymbolKind::FlowUsage.to_definition_kind(), None);
    assert_eq!(SymbolKind::PartDef.to_definition_kind(), None);
    assert_eq!(SymbolKind::PartDef.display(), "part def");
}
