use corrosive::assets::comp::{self, AssetTrait};
use corrosive::assets::{AssetServer, CacheServer};
use corrosive::build::paths::ModifiedTime;
use corrosive::shaders::ShaderManager;

#[test]
fn a_new_asset_reads_as_the_default_until_loaded() {
    let mut server: AssetServer<u32> = AssetServer::new();
    server.add_default(7);
    let (a, fresh) = server.get_or_add(5);
    assert!(fresh);
    assert_eq!(server.value(&a), Some(&7));
    server.finish_load(5, 42);
    assert_eq!(server.value(&a), Some(&42));
    let (b, fresh_again) = server.get_or_add(5);
    assert!(!fresh_again);
    assert_eq!(b.id, 5);
    assert_eq!(server.references.get(&5), Some(&1));
}

#[test]
fn an_asset_leaves_with_the_release_after_the_count_reaches_zero() {
    let mut server: AssetServer<u32> = AssetServer::new();
    let (a, _) = server.add(9);
    server.retain(&a);
    server.release(&a);
    assert_eq!(server.references.get(&9), Some(&1));
    server.release(&a);
    assert_eq!(server.references.get(&9), Some(&0));
    assert!(server.get(9).is_some());
    server.release(&a);
    assert!(server.get(9).is_none());
    assert!(server.references.get(&9).is_none());
}

#[test]
fn sync_loading_runs_the_loader_once() {
    let mut server: AssetServer<String> = AssetServer::new();
    let a = server.get_or_add_sync(3, || -> Result<String, String> { Ok("loaded".to_string()) });
    assert_eq!(server.value(&a).unwrap(), "loaded");
    let b = server.get_or_add_sync(3, || -> Result<String, String> { Ok("again".to_string()) });
    assert_eq!(server.value(&b).unwrap(), "loaded");
    let c = server.add_sync(4, || -> Result<String, String> { Err("missing".to_string()) });
    assert!(server.value(&c).is_none());
}

#[test]
fn cache_values_stay() {
    let mut cache: CacheServer<u8> = CacheServer::new();
    let (c, fresh) = cache.get_or_add(1);
    assert!(fresh);
    assert!(cache.value(&c).is_none());
    cache.add_default(3);
    assert_eq!(cache.value(&c), Some(&3));
    cache.finish_load(1, 8);
    assert_eq!(cache.value(&c), Some(&8));
    let (_, fresh_again) = cache.add(1);
    assert!(!fresh_again);
}

#[test]
fn resource_server_add_replaces_the_value() {
    let mut server: comp::AssetServer<u8> = comp::AssetServer::new();
    let a = server.load(2);
    assert!(server.value(&a).is_none());
    server.add_original(1);
    assert_eq!(server.value(&a), Some(&1));
    server.add(2, 5);
    assert_eq!(server.value(&a), Some(&5));
    assert_eq!(server.references.get(&2), Some(&2));
}

#[test]
fn shader_plan_removes_orphans_and_compiles_stale_sources() {
    let m = ShaderManager { dev_assets: "dev-assets".to_string(), assets: "assets".to_string() };
    let t = |s: u64| ModifiedTime { secs: s, nanos: 0 };
    let slang = vec![
        ("a.slang".to_string(), t(10)),
        ("b.slang".to_string(), t(5)),
        ("c.slang".to_string(), t(5)),
    ];
    let wgsl = vec![
        ("a.slang.wgsl".to_string(), t(5)),
        ("b.slang.wgsl".to_string(), t(9)),
        ("gone.slang.wgsl".to_string(), t(1)),
    ];
    let plan = m.sync_shaders(&slang, &wgsl);
    assert_eq!(plan.remove, vec!["gone.slang.wgsl".to_string()]);
    assert_eq!(
        plan.compile,
        vec![
            ("a.slang".to_string(), "a.slang.wgsl".to_string()),
            ("c.slang".to_string(), "c.slang.wgsl".to_string()),
        ]
    );
}
