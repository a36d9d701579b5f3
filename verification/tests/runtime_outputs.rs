use corrosive::assets::{AssetValue, CacheServer};
use corrosive::build::builder::{builder_package, BuilderError, MacroCall};
use corrosive::build::components::add_traits;
use corrosive::build::grammar::Token;
use corrosive::build::numbering::MacroNumbering;
use corrosive::ecs::arch::{Arch, EngineArch};
use corrosive::ecs::outputs::{RArch, Reset, Signal};

fn s(x: &str) -> String {
    x.to_string()
}

fn lit(x: &str) -> Token {
    Token::Literal(format!("\"{}\"", x), Some(x.to_string()))
}

#[test]
fn a_fresh_reset_is_not_asked_for() {
    let mut r = Reset::default();
    assert!(!r.get());
    r.trigger();
    assert!(r.get());
    r.trigger();
    assert!(r.get());
}

#[test]
fn a_fresh_rarch_and_signal_are_empty() {
    let mut a: RArch<u8> = RArch::default();
    assert!(a.get().is_empty());
    a.add(1);
    a.add_multiple(vec![2, 3]);
    assert_eq!(a.get(), &vec![1, 2, 3]);
    let mut sig = Signal::default();
    assert!(sig.vec.is_empty());
    sig.trigger("go");
    sig.trigger("go");
    assert_eq!(sig.vec, vec![s("go")]);
}

struct Three;

impl EngineArch<u32> for Three {
    fn item(&self, index: usize) -> Option<u32> {
        self.get_item(index)
    }
    fn size(&self) -> usize {
        3
    }
    fn remove(&self, _index: usize) {}
    fn len(&self) -> usize {
        3
    }
    fn get_item(&self, index: usize) -> Option<u32> {
        if index < 3 { Some(10 * index as u32) } else { None }
    }
}

#[test]
fn an_arch_iterates_from_its_first_member() {
    let three = Three;
    let arch = Arch::new(&three);
    assert_eq!(arch.index, 0);
    assert_eq!(arch.len(), 3);
    let mut it = arch.iter();
    assert_eq!(it.next(), Some(0));
    assert_eq!(it.next(), Some(10));
    assert_eq!(it.next(), Some(20));
    assert_eq!(it.next(), None);
    assert_eq!(it.index, 4);
}

#[test]
fn traits_of_another_map_are_united_in() {
    let mut all = vec![(s("Draw"), vec![s("A"), s("B")])];
    let more = vec![(s("Draw"), vec![s("B"), s("C")]), (s("Move"), vec![s("D")])];
    add_traits(&mut all, &more);
    assert_eq!(all.len(), 2);
    let draw = &all.iter().find(|(n, _)| n == "Draw").unwrap().1;
    let mut draw = draw.clone();
    draw.sort();
    assert_eq!(draw, vec![s("A"), s("B"), s("C")]);
    let mv = &all.iter().find(|(n, _)| n == "Move").unwrap().1;
    assert_eq!(mv, &vec![s("D")]);
}

#[test]
fn outputs_are_numbered_by_first_occurrence() {
    let mut n = MacroNumbering::new();
    let f1 = vec![(s("Pos"), s("p")), (s("Vel"), s("v"))];
    let f2 = vec![(s("Pos"), s("q"))];
    assert_eq!(n.entity(f1.clone()), (0, true));
    assert_eq!(n.entity(f2.clone()), (1, true));
    assert_eq!(n.entity(f1), (0, false));
    assert_eq!(n.signal(s("a")), (0, true));
    assert_eq!(n.signal(s("b")), (1, true));
    assert_eq!(n.signal(s("a")), (0, false));
    assert!(n.reset());
    assert!(!n.reset());
    assert_eq!(n.flags, 3);
    assert_eq!(n.entities.len(), 2);
}

#[test]
fn the_last_builder_call_gives_the_package() {
    let calls = vec![
        MacroCall { name: s("println"), tokens: vec![lit("x")] },
        MacroCall { name: s("corrosive_engine_builder"), tokens: vec![Token::Ident(s("path"), true), lit("./a")] },
        MacroCall { name: s("corrosive_engine_builder"), tokens: vec![Token::Ident(s("path"), true), lit("./b")] },
    ];
    let pkg = builder_package(&calls).unwrap();
    assert_eq!(pkg.path, "./b");
}

#[test]
fn no_builder_call_is_missing() {
    let calls = vec![MacroCall { name: s("println"), tokens: vec![] }];
    assert!(matches!(builder_package(&calls), Err(BuilderError::Missing)));
}

#[test]
fn an_unreadable_builder_call_stops_the_search() {
    let calls = vec![
        MacroCall { name: s("corrosive_engine_builder"), tokens: vec![Token::Ident(s("nonsense"), true)] },
        MacroCall { name: s("corrosive_engine_builder"), tokens: vec![] },
    ];
    assert!(matches!(builder_package(&calls), Err(BuilderError::Unreadable(_))));
}

#[test]
fn a_failed_sync_load_stays_loading() {
    let mut cache: CacheServer<u8> = CacheServer::new();
    let c = cache.add_sync(5, || -> Result<u8, String> { Err(s("missing")) });
    assert_eq!(c.id, 5);
    assert!(matches!(cache.values.get(&5), Some(AssetValue::NotReady)));
    let d = cache.get_or_add_sync(5, || -> Result<u8, String> { Ok(1) });
    assert_eq!(d.id, 5);
    assert!(matches!(cache.values.get(&5), Some(AssetValue::NotReady)));
}
