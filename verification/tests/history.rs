use tl_registry::models::compact_schema::DefinitionType;
use tl_registry::models::responses::{
    FunctionHistory, GetFuncResponse, GetObjectResponse, HistoryResponse, ObjectHistory,
    ObjectUsage,
};
use tl_registry::models::tl_layer::{SchemaDate, TlLayer};
use tl_registry::tl::schema_manager::SchemaManager;

fn layer(id: i32, text: &str) -> TlLayer {
    TlLayer {
        layer_id: id,
        release_date: SchemaDate { year: 2020, month: 1, day: 1 },
        layer: text.to_string(),
    }
}

fn fn_layers(defs: &[(i32, &str)]) -> SchemaManager {
    let layers = defs
        .iter()
        .map(|(id, line)| layer(*id, &format!("seed#0 = Seed;\n---functions---\n{}\n", line)))
        .collect();
    SchemaManager::new(layers)
}

#[test]
fn history_unknown_name_is_empty() {
    let m = fn_layers(&[(1, "ping#1 = Pong;")]);
    assert!(matches!(m.history("nothing", DefinitionType::Function), HistoryResponse::Empty));
    assert!(matches!(m.history("nothing", DefinitionType::Object), HistoryResponse::Empty));
}

#[test]
fn history_monotonicity_present_in_latest() {
    // occurrences in layers 5, 7 and 9, with 9 the latest known layer:
    // AddedIn{5} first and no DeletedIn
    let m = fn_layers(&[
        (5, "ping#1 = Pong;"),
        (7, "ping#1 = Pong;"),
        (9, "ping#1 = Pong;"),
    ]);
    let h = match m.history("ping", DefinitionType::Function) {
        HistoryResponse::Function(h) => h,
        _ => panic!("a function history"),
    };
    assert!(matches!(h.history[0], FunctionHistory::AddedIn { layer_id: 5 }));
    assert!(!h.history.iter().any(|e| matches!(e, FunctionHistory::DeletedIn { .. })));
    assert_eq!(h.last_definition.layer_id, 9);
}

#[test]
fn history_monotonicity_absent_from_latest() {
    // same occurrences, but the latest known layer is 10: DeletedIn{9} is
    // the final event
    let m = fn_layers(&[
        (5, "ping#1 = Pong;"),
        (7, "ping#1 = Pong;"),
        (9, "ping#1 = Pong;"),
        (10, "other#2 = Pong;"),
    ]);
    let h = match m.history("ping", DefinitionType::Function) {
        HistoryResponse::Function(h) => h,
        _ => panic!("a function history"),
    };
    assert!(matches!(h.history[0], FunctionHistory::AddedIn { layer_id: 5 }));
    assert!(matches!(h.history.last().unwrap(), FunctionHistory::DeletedIn { layer_id: 9 }));
    assert_eq!(
        h.history.iter().filter(|e| matches!(e, FunctionHistory::DeletedIn { .. })).count(),
        1
    );
}

#[test]
fn diff_symmetry_no_spurious_events() {
    // identical parameter lists in adjacent occurrences: no ParamAdded,
    // ParamDeleted or ParamChanged for that pair
    let m = fn_layers(&[
        (1, "getUser#1a id:int name:string = User;"),
        (2, "getUser#1a id:int name:string = User;"),
    ]);
    let h = match m.history("getUser", DefinitionType::Function) {
        HistoryResponse::Function(h) => h,
        _ => panic!("a function history"),
    };
    assert_eq!(h.history.len(), 1);
    assert!(matches!(h.history[0], FunctionHistory::AddedIn { layer_id: 1 }));
}

#[test]
fn end_to_end_function_history() {
    // layer 1 defines getUser with id:int; layer 2 redefines id as long and
    // adds name. The reconstructed history opens with AddedIn{1}, then the
    // newest pair's events: the id diff and the addition of name, both
    // attributed to the newer layer of the pair; nothing was deleted.
    let m = fn_layers(&[
        (1, "getUser#1a2b3c id:int = User;"),
        (2, "getUser#1a2b3c id:long name:string = User;"),
    ]);
    let h = match m.history("getUser", DefinitionType::Function) {
        HistoryResponse::Function(h) => h,
        _ => panic!("a function history"),
    };
    assert_eq!(h.history.len(), 3);
    assert!(matches!(h.history[0], FunctionHistory::AddedIn { layer_id: 1 }));
    match &h.history[1] {
        FunctionHistory::ParamChanged { layer_id, diff, name } => {
            assert_eq!(*layer_id, 2);
            assert_eq!(name, "id");
            assert_eq!(diff.len(), 1);
            assert_eq!(diff[0].field_name, "_type");
            assert_eq!(diff[0].from, "int");
            assert_eq!(diff[0].to, "long");
        },
        other => panic!("expected a parameter change, got {:?}", other),
    }
    match &h.history[2] {
        FunctionHistory::ParamAdded { layer_id, name, param_type } => {
            assert_eq!(*layer_id, 2);
            assert_eq!(name, "name");
            assert_eq!(param_type, "string");
        },
        other => panic!("expected a parameter addition, got {:?}", other),
    }
    assert!(!h.history.iter().any(|e| matches!(e, FunctionHistory::DeletedIn { .. })));
    assert_eq!(h.last_definition.layer_id, 2);
    assert_eq!(h.last_definition.function.parameters.len(), 2);
}

#[test]
fn function_history_tracks_return_type() {
    let m = fn_layers(&[(1, "probe#1 = A;"), (2, "probe#1 = B;")]);
    let h = match m.history("probe", DefinitionType::Function) {
        HistoryResponse::Function(h) => h,
        _ => panic!("a function history"),
    };
    match &h.history[1] {
        FunctionHistory::ReturnTypeChanged { layer_id, before, after } => {
            assert_eq!(*layer_id, 2);
            assert_eq!(before, "A");
            assert_eq!(after, "B");
        },
        other => panic!("expected a return-type change, got {:?}", other),
    }
}

#[test]
fn function_history_tracks_deleted_parameter() {
    let m = fn_layers(&[
        (1, "probe#1 id:int extra:int = A;"),
        (2, "probe#1 id:int = A;"),
    ]);
    let h = match m.history("probe", DefinitionType::Function) {
        HistoryResponse::Function(h) => h,
        _ => panic!("a function history"),
    };
    assert!(h.history.iter().any(
        |e| matches!(e, FunctionHistory::ParamDeleted { layer_id: 2, name } if name == "extra"),
    ));
}

#[test]
fn object_history_events() {
    let m = SchemaManager::new(vec![
        layer(1, "point#a x:int = Point;\n---functions---\nping#1 = Pong;\n"),
        layer(2, "point#a x:int y:int = Point;\n---functions---\nping#1 = Pong;\n"),
        layer(3, "seed#0 = Seed;\n---functions---\nping#1 = Pong;\n"),
    ]);
    let h = match m.history("point", DefinitionType::Object) {
        HistoryResponse::Object(h) => h,
        _ => panic!("an object history"),
    };
    assert!(matches!(h.history[0], ObjectHistory::AddedIn { layer_id: 1 }));
    assert!(h.history.iter().any(
        |e| matches!(e, ObjectHistory::ParamAdded { layer_id: 2, name, .. } if name == "y"),
    ));
    // absent from the latest layer 3
    assert!(matches!(h.history.last().unwrap(), ObjectHistory::DeletedIn { layer_id: 2 }));
    assert_eq!(h.last_definition.layer_id, 2);
    assert_eq!(h.last_definition.obj.parameters.len(), 2);
}

#[test]
fn usage_edges_inner_return_type() {
    // an object Foo and a function returning Vector<Foo>: the occurrence
    // carries a ReturnType edge with is_inner = true (a reference to the
    // object's own name; a reference to its category would count as a
    // via-namespace edge instead)
    let m = SchemaManager::new(vec![layer(
        1,
        "Foo#a1 id:int = Bar;\n---functions---\ngetFoos#b1 = Vector<Foo>;\nping#c1 = Pong;\n",
    )]);
    let occs = m.get_obj_full(None, "Foo", None);
    assert_eq!(occs.len(), 1);
    let hit = occs[0].usages.iter().any(|u| match u {
        ObjectUsage::ReturnType { tl_function, is_inner } => {
            tl_function.name == "getFoos" && *is_inner
        },
        _ => false,
    });
    assert!(hit, "expected an inner return-type usage edge");
}

#[test]
fn usage_edges_category_and_parameter() {
    let m = SchemaManager::new(vec![layer(
        1,
        "foo#a1 id:int = Foo;\n---functions---\nsendFoo#b1 foo:foo = Done;\nmakeFoo#c1 = Foo;\nping#d1 = Pong;\n",
    )]);
    let occs = m.get_obj_full(None, "foo", None);
    let usages = &occs[0].usages;
    // makeFoo returns the category name: a via-namespace edge
    assert!(usages.iter().any(|u| matches!(
        u,
        ObjectUsage::ViaNamespace { tl_function, is_inner: false } if tl_function.name == "makeFoo"
    )));
    // sendFoo takes the object itself as a parameter
    assert!(usages.iter().any(|u| matches!(
        u,
        ObjectUsage::Param { tl_function, is_inner: false } if tl_function.name == "sendFoo"
    )));
}

#[test]
fn response_counts() {
    let m = fn_layers(&[(1, "ping#1 = Pong;"), (2, "ping#1 = Pong;")]);
    let r = GetFuncResponse::FullMode(m.get_func_full(None, "ping", None));
    assert_eq!(r.count(), 2);
    let o = GetObjectResponse::FullMode(m.get_obj_full(None, "seed", None));
    assert_eq!(o.count(), 2);
}
