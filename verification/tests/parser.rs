use tl_registry::models::tl_layer::{SchemaDate, TlLayer};
use tl_registry::tl::parse_schema;
use tl_registry::tl::tl_parameter::{parse_parameter, TlParameter};

fn date(year: i32, month: u32, day: u32) -> SchemaDate {
    SchemaDate { year, month, day }
}

fn layer(id: i32, text: &str) -> TlLayer {
    TlLayer { layer_id: id, release_date: date(2024, 1, 1), layer: text.to_string() }
}

#[test]
fn parse_parameter_blank_text() {
    let (id, params) = parse_parameter("   ");
    assert_eq!(id, "");
    assert!(params.is_empty());
}

#[test]
fn parse_parameter_id_only() {
    let (id, params) = parse_parameter("38fe25b7");
    assert_eq!(id, "38fe25b7");
    assert!(params.is_empty());
}

#[test]
fn parse_parameter_plain_pairs() {
    let (id, params) = parse_parameter("1a2b3c id:int name:string");
    assert_eq!(id, "1a2b3c");
    assert_eq!(params.len(), 2);
    assert_eq!(params[0].name, "id");
    assert_eq!(params[0]._type, "int");
    assert!(!params[0].is_optional);
    assert_eq!(params[1].name, "name");
    assert_eq!(params[1]._type, "string");
}

#[test]
fn flag_parameter_round_trip() {
    // the flag-encoded form `flags.0?Vector<Int>` keeps register, offset and
    // inner type, and marks the parameter optional
    let (_, params) = parse_parameter("9f8e flags:# photo:flags.0?Vector<Int>");
    assert_eq!(params.len(), 2);
    assert!(params[0].is_flag_placeholder);
    assert_eq!(params[0].name, "flags");
    let p = &params[1];
    assert_eq!(p.name, "photo");
    assert_eq!(p.flag_name.as_deref(), Some("flags"));
    assert_eq!(p.flag_offset.as_deref(), Some("0"));
    assert_eq!(p.inner_type.as_deref(), Some("Int"));
    assert_eq!(p._type, "Vector<Int>");
    assert!(p.is_optional);
    assert!(!p.is_generic);
    assert!(!p.is_flag_placeholder);
}

#[test]
fn flag_prefix_without_offset_stays_plain() {
    let (_, params) = parse_parameter("9f8e data:flagship");
    assert_eq!(params.len(), 1);
    assert_eq!(params[0]._type, "flagship");
    assert_eq!(params[0].flag_name, None);
    assert!(!params[0].is_optional);
}

#[test]
fn generic_parameter() {
    let (_, params) = parse_parameter("9f8e query:!X");
    assert_eq!(params.len(), 1);
    assert!(params[0].is_generic);
    // a generic parameter is not the bit-flags register placeholder
    assert!(!params[0].is_flag_placeholder);
    assert_eq!(params[0].name, "query");
    assert_eq!(params[0]._type, "");
}

#[test]
fn inner_type_takes_last_bracket() {
    let (_, params) = parse_parameter("9f8e items:Vector<Vector<Int>>");
    assert_eq!(params[0].inner_type.as_deref(), Some("Int"));
}

#[test]
fn diff_equal_parameters_is_none() {
    let (_, a) = parse_parameter("9f8e id:int name:string");
    let (_, b) = parse_parameter("9f8e id:int name:string");
    assert!(TlParameter::diff(&b[0], &a[0]).is_none());
    assert!(TlParameter::diff(&b[1], &a[1]).is_none());
}

#[test]
fn diff_reports_type_change() {
    let (_, older) = parse_parameter("9f8e id:int");
    let (_, newer) = parse_parameter("9f8e id:long");
    let ds = TlParameter::diff(&newer[0], &older[0]).expect("a change");
    assert_eq!(ds.len(), 1);
    assert_eq!(ds[0].field_name, "_type");
    assert_eq!(ds[0].from, "int");
    assert_eq!(ds[0].to, "long");
}

#[test]
fn diff_reports_optionality_change() {
    let (_, older) = parse_parameter("9f8e photo:Photo");
    let (_, newer) = parse_parameter("9f8e photo:flags.1?Photo");
    let ds = TlParameter::diff(&newer[0], &older[0]).expect("changes");
    let fields: Vec<&str> = ds.iter().map(|d| d.field_name).collect();
    assert!(fields.contains(&"flag_name"));
    assert!(fields.contains(&"flag_offset"));
    assert!(fields.contains(&"is_optional"));
}

#[test]
fn schema_grouping_round_trip() {
    // every constructor line lands in exactly one group named by its
    // category; every function line lands in its namespace bucket, and
    // buckets left with one function move into Others
    let text = "\
boolFalse#bc799737 = Bool;
user#d3bc4b7a id:int name:string = User;
userEmpty#200250ba id:int = User;
photo.size#77bfb61b w:int = photo.Size;
---functions---
users.getUser#b60f5918 id:int = User;
users.getFullUser#ca30a5b1 id:int = UserFull;
ping#7abe77ec ping_id:long = Pong;
";
    let schema = parse_schema(layer(1, text));
    assert_eq!(schema.layer_id, 1);

    assert_eq!(schema.objects.len(), 2);
    assert_eq!(schema.objects[0].name, "User");
    let user_group = &schema.objects[0];
    assert_eq!(user_group.constructors.len(), 2);
    assert_eq!(user_group.constructors[0].name, "user");
    assert_eq!(user_group.constructors[0].id, "d3bc4b7a");
    assert_eq!(user_group.constructors[1].name, "userEmpty");
    let photo_group = &schema.objects[1];
    assert_eq!(photo_group.name, "photo.Size");
    assert_eq!(photo_group.constructors[0].name, "photo.size");
    assert_eq!(photo_group.constructors[0].namespace.as_deref(), Some("photo"));

    // users bucket keeps its two functions; ping's singleton bucket drains
    // into Others
    assert_eq!(schema.functions.len(), 2);
    assert_eq!(schema.functions[0].0, "users");
    assert_eq!(schema.functions[0].1.len(), 2);
    assert_eq!(schema.functions[0].1[0].name, "users.getUser");
    assert_eq!(schema.functions[1].0, "Others");
    assert_eq!(schema.functions[1].1.len(), 1);
    assert_eq!(schema.functions[1].1[0].name, "ping");
}

#[test]
fn namespace_derivation() {
    let text = "\
a.b#1 = T;
plain#2 = T;
a.b.c#3 = T;
---functions---
x.y#4 = R;
lone#5 = R;
x.y.z#6 = R;
";
    let schema = parse_schema(layer(1, text));
    let ctors = &schema.objects[0].constructors;
    assert_eq!(ctors[0].namespace.as_deref(), Some("a"));
    assert_eq!(ctors[1].namespace, None);
    // three segments: no namespace
    assert_eq!(ctors[2].namespace, None);

    // function with two segments is keyed by its prefix; any other shape is
    // keyed by the full name (here each is a singleton, so all drain into
    // Others in first-seen bucket order)
    assert_eq!(schema.functions.len(), 1);
    assert_eq!(schema.functions[0].0, "Others");
    let names: Vec<&str> = schema.functions[0].1.iter().map(|f| f.name.as_str()).collect();
    assert_eq!(names, vec!["x.y", "lone", "x.y.z"]);
}

#[test]
fn preprocessing_drops_comments_markers_and_prelude() {
    let text = "\
legacyThing#99 = Legacy;
///////// Main application API
---types---
// a comment
user#1 id:int = User;
---functions---
// another comment
getUser#2 id:int = User;
ping#3 = Pong;
";
    let schema = parse_schema(layer(2, text));
    // the legacy prelude before the boundary marker is discarded
    assert_eq!(schema.objects.len(), 1);
    assert_eq!(schema.objects[0].name, "User");
    assert_eq!(schema.objects[0].constructors.len(), 1);
    let all: Vec<&str> = schema
        .functions
        .iter()
        .flat_map(|b| b.1.iter().map(|f| f.name.as_str()))
        .collect();
    assert_eq!(all, vec!["getUser", "ping"]);
}

#[test]
fn missing_functions_marker_yields_no_functions() {
    let schema = parse_schema(layer(3, "user#1 id:int = User;\n"));
    assert_eq!(schema.objects.len(), 1);
    // the reserved bucket exists and is empty
    assert_eq!(schema.functions.len(), 1);
    assert_eq!(schema.functions[0].0, "Others");
    assert!(schema.functions[0].1.is_empty());
}

#[test]
fn malformed_lines_and_tokens_are_skipped() {
    // a line without `=` and a token without `:` describe nothing
    let text = "stray line without equals\nuser#1 id:int broken = User;\n---functions---\nping#2 = Pong;\n";
    let schema = parse_schema(layer(5, text));
    assert_eq!(schema.objects.len(), 1);
    let ctor = &schema.objects[0].constructors[0];
    assert_eq!(ctor.parameters.len(), 1);
    assert_eq!(ctor.parameters[0].name, "id");
}

#[test]
fn definition_without_hash_has_no_parameters() {
    let schema = parse_schema(layer(6, "user = User;\n"));
    let ctor = &schema.objects[0].constructors[0];
    assert_eq!(ctor.name, "user");
    assert_eq!(ctor.id, "");
    assert!(ctor.parameters.is_empty());
}

#[test]
fn singletons_join_a_surviving_others_bucket() {
    // a user namespace literally keyed like the reserved bucket keeps its
    // two functions, and the lone function of a singleton bucket joins it
    let text = "seed#0 = Seed;\n---functions---\nOthers.a#1 = R;\nOthers.b#2 = R;\nlone#3 = R;\n";
    let schema = parse_schema(layer(7, text));
    assert_eq!(schema.functions.len(), 1);
    assert_eq!(schema.functions[0].0, "Others");
    let names: Vec<&str> = schema.functions[0].1.iter().map(|f| f.name.as_str()).collect();
    assert_eq!(names, vec!["Others.a", "Others.b", "lone"]);
}

#[test]
fn category_text_drops_every_semicolon() {
    let schema = parse_schema(layer(8, "user#1 id:int = User;;\n"));
    assert_eq!(schema.objects[0].name, "User");
}

#[test]
fn return_type_inner_payload() {
    let text = "---functions---\ngetUsers#5 ids:Vector<int> = Vector<User>;\nping#6 = Pong;\n";
    let schema = parse_schema(layer(4, text));
    let others = &schema.functions[0].1;
    let get_users = others.iter().find(|f| f.name == "getUsers").unwrap();
    assert_eq!(get_users.return_type, "Vector<User>");
    assert_eq!(get_users.inner_return_type.as_deref(), Some("User"));
    assert_eq!(get_users.parameters[0].inner_type.as_deref(), Some("int"));
    let ping = others.iter().find(|f| f.name == "ping").unwrap();
    assert_eq!(ping.inner_return_type, None);
}
