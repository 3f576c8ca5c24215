use rojo::api::{
    asset_url, first_existing, model_file_name, script_candidates, ApiError, ApiService, CreateAssetsRequest,
    InstanceUpdate, Method, Route, WriteRequest, PROTOCOL_VERSION,
};
use rojo::patch::{AddedInstance, Metadata, PatchSet, Variant};
use rojo::session::{ServeSession, SubscribeOutcome};
use rojo::text::{has_lua_extension, parse_cursor, parse_id, parse_id_list};

fn service() -> ApiService {
    let mut s = ServeSession::new(0xabc, "demo".to_string(), 1, "DataModel".to_string(), "game".to_string(), Some(vec![1818]));
    let mut p = PatchSet::new();
    p.added_instances = vec![
        AddedInstance {
            id: 0x10,
            parent: 1,
            class_name: "ModuleScript".to_string(),
            name: "Util".to_string(),
            properties: Vec::new(),
            metadata: Metadata {
                relevant_paths: vec!["src/util".to_string(), "src/util.lua".to_string(), "src/init.lua".to_string()],
                ignore_unknown_instances: false,
            },
        },
        AddedInstance {
            id: 0x11,
            parent: 1,
            class_name: "Folder".to_string(),
            name: "Assets".to_string(),
            properties: Vec::new(),
            metadata: Metadata { relevant_paths: vec!["assets.lua".to_string()], ignore_unknown_instances: false },
        },
    ];
    s.mutate(p);
    ApiService::new(s)
}

#[test]
fn routes() {
    let a = service();
    assert!(matches!(a.call(Method::Get, "/api/rojo"), Route::Rojo));
    assert!(matches!(a.call(Method::Get, "/api/read/1,2"), Route::Read(ref s) if s == "1,2"));
    assert!(matches!(a.call(Method::Get, "/api/subscribe/5"), Route::Subscribe(ref s) if s == "5"));
    assert!(matches!(a.call(Method::Post, "/api/open/10"), Route::Open(ref s) if s == "10"));
    assert!(matches!(a.call(Method::Post, "/api/write"), Route::Write));
    assert!(matches!(a.call(Method::Post, "/api/create-assets"), Route::CreateAssets));
    assert!(matches!(a.call(Method::Post, "/api/rojo"), Route::NotFound));
    assert!(matches!(a.call(Method::Get, "/api/writes"), Route::NotFound));
    assert!(matches!(a.call(Method::Other, "/api/rojo"), Route::NotFound));
}

#[test]
fn server_info() {
    let a = service();
    let info = a.handle_api_rojo("7.0.0".to_string());
    assert_eq!(info.session_id, 0xabc);
    assert_eq!(info.project_name, "demo");
    assert_eq!(info.root_instance_id, 1);
    assert_eq!(info.protocol_version, PROTOCOL_VERSION);
    assert_eq!(info.server_version, "7.0.0");
    assert_eq!(info.expected_place_ids, Some(vec![1818]));
}

#[test]
fn read_endpoint() {
    let a = service();
    let r = a.handle_api_read("1").ok().unwrap();
    assert_eq!(r.instances.len(), 3);
    assert_eq!(r.message_cursor, 1);
    assert!(a.handle_api_read("ffff").ok().unwrap().instances.is_empty());
    assert!(a.handle_api_read("0").ok().unwrap().instances.is_empty());
    assert_eq!(a.handle_api_read("1,zz").err(), Some(ApiError::MalformedIdList));
    assert_eq!(a.handle_api_read("").err(), Some(ApiError::MalformedIdList));
}

#[test]
fn subscribe_endpoint() {
    let a = service();
    let ready = a.handle_api_subscribe("0").ok().unwrap();
    assert_eq!(ready.session_id, 0xabc);
    assert!(matches!(ready.outcome, SubscribeOutcome::Ready(1, _)));
    assert!(matches!(a.handle_api_subscribe("1").ok().unwrap().outcome, SubscribeOutcome::Pending));
    assert_eq!(a.handle_api_subscribe("-1").err(), Some(ApiError::MalformedCursor));
    assert_eq!(a.handle_api_subscribe("4294967296").err(), Some(ApiError::MalformedCursor));
}

#[test]
fn write_endpoint() {
    let a = service();
    let wrong = WriteRequest { session_id: 1, updated: Vec::new() };
    assert_eq!(a.handle_api_write(wrong).err(), Some(ApiError::WrongSessionId));
    let req = WriteRequest {
        session_id: 0xabc,
        updated: vec![InstanceUpdate {
            id: 0x10,
            changed_name: Some("Renamed".to_string()),
            changed_class_name: None,
            changed_properties: vec![("Source".to_string(), Some(Variant::String("x".to_string())))],
        }],
    };
    let patch = a.handle_api_write(req).ok().unwrap();
    assert!(patch.removed_instances.is_empty());
    assert!(patch.added_instances.is_empty());
    assert_eq!(patch.updated_instances.len(), 1);
    assert_eq!(patch.updated_instances[0].changed_name, Some("Renamed".to_string()));
    assert!(patch.updated_instances[0].changed_metadata.is_none());
}

#[test]
fn open_endpoint() {
    let a = service();
    let open = a.handle_api_open("10").ok().unwrap();
    assert_eq!(open.session_id, 0xabc);
    assert_eq!(open.paths, vec!["src/util.lua".to_string(), "src/init.lua".to_string()]);
    assert_eq!(a.handle_api_open("11").err(), Some(ApiError::NoScriptFile));
    assert_eq!(a.handle_api_open("12").err(), Some(ApiError::InstanceNotFound));
    assert_eq!(a.handle_api_open("x1").err(), Some(ApiError::InvalidInstanceId));
}

#[test]
fn create_assets_endpoint() {
    let a = service();
    let wrong = CreateAssetsRequest { session_id: 2, assets: vec![0x10] };
    assert_eq!(a.handle_api_create_assets(&wrong).err(), Some(ApiError::WrongSessionId));
    let missing = CreateAssetsRequest { session_id: 0xabc, assets: vec![0x99, 0x10] };
    let kept = a.handle_api_create_assets(&missing).ok().unwrap();
    assert_eq!(kept.len(), 1);
    assert_eq!(kept[0].id, 0x10);
    let ok = CreateAssetsRequest { session_id: 0xabc, assets: vec![0x11, 0x10] };
    let out = a.handle_api_create_assets(&ok).ok().unwrap();
    assert_eq!(out.len(), 2);
    assert_eq!(out[0].name, "Assets");
    assert_eq!(out[1].name, "Util");
    assert_eq!(model_file_name("abc"), "abc.rbxm");
    assert_eq!(asset_url("abc.rbxm"), "rbxasset://rojo-exports/abc.rbxm");
}

#[test]
fn parsing() {
    assert_eq!(parse_cursor("0"), Some(0));
    assert_eq!(parse_cursor("+42"), Some(42));
    assert_eq!(parse_cursor("4294967295"), Some(u32::MAX));
    assert_eq!(parse_cursor("00000000000000000000012"), Some(12));
    assert_eq!(parse_cursor(""), None);
    assert_eq!(parse_cursor("+"), None);
    assert_eq!(parse_cursor("1 "), None);
    assert_eq!(parse_id("fF"), Some(255));
    assert_eq!(parse_id("ffffffffffffffffffffffffffffffff"), Some(u128::MAX));
    assert_eq!(parse_id("1ffffffffffffffffffffffffffffffff"), None);
    assert_eq!(parse_id_list("a,b,10"), Some(vec![10, 11, 16]));
    assert_eq!(parse_id_list("a,,b"), None);
    assert_eq!(parse_id_list("a,"), None);
}

#[test]
fn script_paths() {
    assert!(has_lua_extension(&"a/b.lua".to_string()));
    assert!(!has_lua_extension(&"a/.lua".to_string()));
    assert!(!has_lua_extension(&".lua".to_string()));
    assert!(!has_lua_extension(&"b.luau".to_string()));
    let paths = vec!["x.lua".to_string(), "y.txt".to_string(), "z.lua".to_string()];
    assert_eq!(script_candidates(&"Script".to_string(), &paths), vec!["x.lua".to_string(), "z.lua".to_string()]);
    assert_eq!(script_candidates(&"LocalScript".to_string(), &paths).len(), 2);
    assert!(script_candidates(&"Part".to_string(), &paths).is_empty());
}

#[test]
fn first_existing_candidate() {
    assert_eq!(first_existing(&vec![false, true, true]), Some(1));
    assert_eq!(first_existing(&vec![false, false]), None);
    assert_eq!(first_existing(&Vec::new()), None);
}
