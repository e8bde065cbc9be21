use tl_registry::models::compact_schema::DefinitionType;
use tl_registry::models::github::layer_file_id;
use tl_registry::models::requests::{FetchMode, GetByNameRequest, GetNamespaceRequest};
use tl_registry::models::responses::GetTypeResponse;
use tl_registry::models::tl_layer::{SchemaDate, TlLayer};
use tl_registry::tl::schema_manager::SchemaManager;

fn date(year: i32, month: u32, day: u32) -> SchemaDate {
    SchemaDate { year, month, day }
}

fn layer(id: i32, text: &str) -> TlLayer {
    TlLayer { layer_id: id, release_date: date(2020, 1, id as u32), layer: text.to_string() }
}

fn small_registry() -> SchemaManager {
    let l1 = layer(
        1,
        "user#a1 id:int = User;\nchat#b1 id:int = Chat;\n---functions---\nusers.getUser#c1 id:int = User;\nusers.getChats#d1 = Vector<Chat>;\nping#e1 = Pong;\n",
    );
    let l2 = layer(
        2,
        "user#a2 id:long = User;\n---functions---\nusers.getUser#c1 id:long = User;\nusers.getChats#d1 = Vector<Chat>;\n",
    );
    // given out of order on purpose: the registry sorts ascending by id
    SchemaManager::new(vec![l2, l1])
}

#[test]
fn release_dates_follow_layer_order() {
    let m = small_registry();
    let dates = m.release_dates();
    assert_eq!(dates.len(), 2);
    assert_eq!(dates[0].layer_id, 1);
    assert_eq!(dates[1].layer_id, 2);
    assert_eq!(dates[0].release_date, date(2020, 1, 1));
}

#[test]
fn get_layer_by_id() {
    let m = small_registry();
    let l = m.get_layer(2).expect("layer 2 exists");
    assert_eq!(l.layer_id, 2);
    assert!(m.get_layer(7).is_none());
}

#[test]
fn type_names_per_layer() {
    let m = small_registry();
    let all = m.get_type_names(None);
    assert_eq!(all.len(), 2);
    assert_eq!(all[0].layer_id, 1);
    assert_eq!(all[0].types, vec!["User".to_string(), "Chat".to_string()]);
    assert_eq!(all[1].types, vec!["User".to_string()]);
    let one = m.get_type_names(Some(2));
    assert_eq!(one.len(), 1);
    assert_eq!(one[0].layer_id, 2);
    assert!(m.get_type_names(Some(9)).is_empty());
}

#[test]
fn namespaces_per_layer() {
    let m = small_registry();
    let ns = m.get_namespace(Some(1));
    assert_eq!(ns.len(), 1);
    assert_eq!(ns[0].layer_id, 1);
    assert_eq!(ns[0].function_ns, vec!["users".to_string(), "Others".to_string()]);
    assert!(ns[0].object_ns.is_empty());
}

#[test]
fn object_namespaces_deduplicated() {
    let m = SchemaManager::new(vec![layer(
        1,
        "photo.a#1 = photo.T;\nphoto.b#2 = photo.T;\nvideo.a#3 = video.T;\n---functions---\nping#4 = Pong;\n",
    )]);
    let ns = m.get_namespace(None);
    assert_eq!(ns[0].object_ns, vec!["photo".to_string(), "video".to_string()]);
}

#[test]
fn namespace_functions_lookup() {
    let m = small_registry();
    let req = GetNamespaceRequest { layer_id: 1, namespace: "users".to_string() };
    let fs = m.get_namespace_functions(&req).expect("bucket exists");
    assert_eq!(fs.len(), 2);
    assert_eq!(fs[0].name, "users.getUser");
    let missing = GetNamespaceRequest { layer_id: 1, namespace: "photos".to_string() };
    assert!(m.get_namespace_functions(&missing).is_none());
    let bad_layer = GetNamespaceRequest { layer_id: 9, namespace: "users".to_string() };
    assert!(m.get_namespace_functions(&bad_layer).is_none());
}

#[test]
fn namespace_objects_lookup() {
    let m = SchemaManager::new(vec![layer(
        1,
        "photo.small#1 = photo.T;\nother#2 = Other;\n---functions---\nping#3 = Pong;\n",
    )]);
    let req = GetNamespaceRequest { layer_id: 1, namespace: "photo".to_string() };
    let objs = m.get_namespace_objects(&req).expect("layer exists");
    assert_eq!(objs.len(), 1);
    assert_eq!(objs[0].name, "photo.small");
    // a known layer without matches is an empty listing, not an absence
    let none_req = GetNamespaceRequest { layer_id: 1, namespace: "video".to_string() };
    assert_eq!(m.get_namespace_objects(&none_req).expect("layer exists").len(), 0);
    // an unknown layer is an absence
    let bad = GetNamespaceRequest { layer_id: 4, namespace: "photo".to_string() };
    assert!(m.get_namespace_objects(&bad).is_none());
}

#[test]
fn get_types_full_and_compact() {
    let m = small_registry();
    let req = GetByNameRequest {
        name: "User".to_string(),
        layer_id: None,
        mode: FetchMode::Full,
        limit: None,
    };
    match m.get_types(&req) {
        GetTypeResponse::FullMode(v) => {
            assert_eq!(v.len(), 2);
            assert_eq!(v[0].layer_id, 1);
            assert_eq!(v[0].objects[0].name, "user");
            assert_eq!(v[1].layer_id, 2);
        },
        GetTypeResponse::CompactMode(_) => panic!("asked for full mode"),
    }
    let creq = GetByNameRequest {
        name: "User".to_string(),
        layer_id: Some(2),
        mode: FetchMode::Compact,
        limit: Some(1),
    };
    match m.get_types(&creq) {
        GetTypeResponse::CompactMode(v) => {
            assert_eq!(v.len(), 1);
            assert_eq!(v[0].layer_id, 2);
            assert_eq!(v[0].objects.len(), 1);
            assert_eq!(v[0].objects[0].id, "a2");
            assert_eq!(v[0].objects[0].name, "user");
        },
        GetTypeResponse::FullMode(_) => panic!("asked for compact mode"),
    }
}

#[test]
fn get_types_full_limit_caps_layers() {
    let m = small_registry();
    let req = GetByNameRequest {
        name: "User".to_string(),
        layer_id: None,
        mode: FetchMode::Full,
        limit: Some(1),
    };
    match m.get_types(&req) {
        GetTypeResponse::FullMode(v) => {
            assert_eq!(v.len(), 1);
            assert_eq!(v[0].layer_id, 1);
        },
        GetTypeResponse::CompactMode(_) => panic!("asked for full mode"),
    }
}

#[test]
fn func_occurrences_across_layers() {
    let m = small_registry();
    let occs = m.get_func_full(None, "users.getUser", None);
    assert_eq!(occs.len(), 2);
    assert_eq!(occs[0].layer_id, 1);
    assert_eq!(occs[0].function.parameters[0]._type, "int");
    assert_eq!(occs[1].layer_id, 2);
    assert_eq!(occs[1].function.parameters[0]._type, "long");
    let capped = m.get_func_full(Some(1), "users.getUser", None);
    assert_eq!(capped.len(), 1);
    let scoped = m.get_func_full(None, "users.getUser", Some(2));
    assert_eq!(scoped.len(), 1);
    assert_eq!(scoped[0].layer_id, 2);
    assert!(m.get_func_full(None, "nothing", None).is_empty());
}

#[test]
fn compact_layer_projection() {
    let m = small_registry();
    let cs = m.get_compact_layer(1);
    // layer 1: 3 functions + 2 constructors
    assert_eq!(cs.len(), 5);
    assert!(cs.iter().all(|c| c.layer_id == 1));
    let user = cs
        .iter()
        .find(|c| c.name == "user" && c.definition_type == DefinitionType::Object)
        .expect("indexed");
    assert_eq!(user.definition_id, "a1");
    assert_eq!(user.namespace, "User");
    assert_eq!(user.return_type, None);
    let get_user = cs
        .iter()
        .find(|c| c.name == "users.getUser")
        .expect("indexed");
    assert_eq!(get_user.definition_type, DefinitionType::Function);
    assert_eq!(get_user.namespace, "users");
    assert_eq!(get_user.return_type.as_deref(), Some("User"));
    assert!(m.get_compact_layer(9).is_empty());
}

#[test]
fn definition_type_text() {
    assert_eq!(DefinitionType::Function.as_text(), "Function");
    assert_eq!(DefinitionType::Object.as_text(), "Object");
    assert_eq!(DefinitionType::default(), DefinitionType::Object);
}

#[test]
fn layer_file_ids() {
    assert_eq!(layer_file_id("182.tl"), Some(182));
    assert_eq!(layer_file_id(" 7 .tl"), Some(7));
    assert_eq!(layer_file_id("notes.txt"), None);
    assert_eq!(layer_file_id("unknown-5.tl"), None);
    assert_eq!(layer_file_id("x12.tl"), None);
    assert_eq!(layer_file_id("99999999999.tl"), None);
}
