use sagacraft_rs::strmap::StrMap;
use sagacraft_rs::system_registry::{
    GameSystem, PlainBuilder, PlainSystem, SystemBuilder, SystemConfig, SystemFactory,
    SystemRegistry, SystemType,
};

struct DummySystem {
    config: SystemConfig,
    fails: bool,
}

impl GameSystem for DummySystem {
    fn id(&self) -> &str {
        &self.config.system_id
    }

    fn system_type(&self) -> SystemType {
        self.config.system_type
    }

    fn enabled(&self) -> bool {
        self.config.enabled
    }

    fn enable(&mut self) {
        self.config.enabled = true;
    }

    fn disable(&mut self) {
        self.config.enabled = false;
    }

    fn initialize(&mut self) -> Result<(), String> {
        if self.fails {
            Err(format!("{} is broken", self.config.system_id))
        } else {
            Ok(())
        }
    }

    fn validate(&self) -> bool {
        true
    }
}

struct DummyBuilder {
    fails: bool,
}

impl SystemBuilder<DummySystem> for DummyBuilder {
    fn build(&self, config: SystemConfig) -> DummySystem {
        DummySystem { config, fails: self.fails }
    }
}

fn registry() -> SystemRegistry<DummySystem, DummyBuilder> {
    SystemRegistry::new()
}

#[test]
fn initialize_all_respects_dependencies() {
    let mut r = registry();

    r.factory.register("a", DummyBuilder { fails: false });
    r.factory.register("b", DummyBuilder { fails: false });

    r.define_system("a", SystemType::Gameplay, true, 10, vec![], StrMap::new());
    r.define_system("b", SystemType::Gameplay, true, 9, vec!["a".to_string()], StrMap::new());

    // If we request b only, it should error because a not initialized.
    assert!(r.initialize_all(Some(vec!["b".to_string()])).is_err());

    // Initialize a then b works.
    r.shutdown_all();
    r.initialize_all(Some(vec!["a".to_string(), "b".to_string()])).unwrap();
    assert!(r.is_initialized());
    assert!(r.factory.has_system("a"));
    assert!(r.factory.has_system("b"));
}

#[test]
fn priority_decides_the_order() {
    let mut r = registry();
    for id in ["low", "high", "mid"] {
        r.factory.register(id, DummyBuilder { fails: false });
    }
    // high must come up before mid, and mid before low, whatever the order of the names
    r.define_system("low", SystemType::Content, true, 1, vec!["mid".to_string()], StrMap::new());
    r.define_system("mid", SystemType::Social, true, 5, vec!["high".to_string()], StrMap::new());
    r.define_system("high", SystemType::Gameplay, true, 9, vec![], StrMap::new());
    assert_eq!(r.initialize_all(None), Ok(()));
    assert!(r.is_initialized());
    assert_eq!(r.factory.get_all().len(), 3);
    assert!(r.validate_dependencies("low"));

    let mut r = registry();
    for id in ["low", "high"] {
        r.factory.register(id, DummyBuilder { fails: false });
    }
    // the other way round the dependency is not there yet
    r.define_system("low", SystemType::Content, true, 1, vec![], StrMap::new());
    r.define_system("high", SystemType::Gameplay, true, 9, vec!["low".to_string()], StrMap::new());
    assert_eq!(
        r.initialize_all(Some(vec!["low".to_string(), "high".to_string()])),
        Err("Dependency low not initialized for high".to_string())
    );
    assert!(!r.is_initialized());
    assert!(!r.factory.has_system("low"));
    assert!(!r.validate_dependencies("high"));
}

#[test]
fn equal_priorities_keep_their_order() {
    let mut r = registry();
    for id in ["x", "y"] {
        r.factory.register(id, DummyBuilder { fails: false });
    }
    r.define_system("x", SystemType::Content, true, 3, vec!["y".to_string()], StrMap::new());
    r.define_system("y", SystemType::Content, true, 3, vec![], StrMap::new());
    assert!(r.initialize_all(Some(vec!["y".to_string(), "x".to_string()])).is_ok());
    r.shutdown_all();
    assert!(!r.is_initialized());
    assert!(r.initialize_all(Some(vec!["x".to_string(), "y".to_string()])).is_err());
}

#[test]
fn disabled_systems_are_passed_over() {
    let mut r = registry();
    r.factory.register("a", DummyBuilder { fails: false });
    r.define_system("a", SystemType::Gameplay, false, 0, vec!["missing".to_string()], StrMap::new());
    assert!(!r.is_enabled("a"));
    assert!(!r.is_enabled("unknown"));
    assert_eq!(r.initialize_all(None), Ok(()));
    assert!(!r.factory.has_system("a"));
    assert!(r.is_initialized());
    r.enable_system("a");
    assert!(r.is_enabled("a"));
    assert_eq!(
        r.initialize_all(None),
        Err("Dependency missing not initialized for a".to_string())
    );
    r.disable_system("a");
    assert!(!r.is_enabled("a"));
    r.enable_system("unknown");
    assert!(!r.is_enabled("unknown"));
}

#[test]
fn failures_to_make_a_system_are_reported() {
    let mut r = registry();
    r.define_system("a", SystemType::Gameplay, true, 0, vec![], StrMap::new());
    assert_eq!(r.initialize_all(None), Err("system not registered: a".to_string()));
    assert_eq!(r.create_system("b"), Err("System b not configured".to_string()));
    r.factory.register("a", DummyBuilder { fails: true });
    assert_eq!(r.initialize_all(None), Err("a is broken".to_string()));
    assert!(!r.factory.has_system("a"));
    r.factory.register("a", DummyBuilder { fails: false });
    assert_eq!(r.create_system("a"), Ok(()));
    assert!(r.factory.has_system("a"));
    assert_eq!(r.factory.get("a").unwrap().id(), "a");
    // a system that is there is not made again
    r.factory.register("a", DummyBuilder { fails: true });
    assert_eq!(r.initialize_all(None), Ok(()));
}

#[test]
fn switches_reach_the_systems() {
    let mut r = registry();
    r.factory.register("a", DummyBuilder { fails: false });
    r.define_system("a", SystemType::Social, true, 0, vec![], StrMap::new());
    r.initialize_all(None).unwrap();
    assert!(r.factory.get("a").unwrap().enabled());
    r.disable_system("a");
    assert!(!r.factory.get("a").unwrap().enabled());
    assert!(!r.is_enabled("a"));
    r.enable_system("a");
    assert!(r.factory.get("a").unwrap().enabled());
    r.factory.get_mut("a").unwrap().disable();
    assert!(!r.factory.get("a").unwrap().enabled());
    assert!(r.factory.get("a").unwrap().validate());
}

#[test]
fn factory_finds_systems_by_type() {
    let mut f: SystemFactory<PlainSystem, PlainBuilder> = SystemFactory::new();
    f.register("a", PlainBuilder);
    f.register("b", PlainBuilder);
    f.register("c", PlainBuilder);
    assert_eq!(
        f.create("zzz", SystemConfig::new("zzz", SystemType::Content)),
        Err("system not registered: zzz".to_string())
    );
    f.create("c", SystemConfig::new("c", SystemType::Gameplay)).unwrap();
    f.create("a", SystemConfig::new("a", SystemType::Gameplay)).unwrap();
    f.create("b", SystemConfig::new("b", SystemType::Social)).unwrap();
    let gameplay: Vec<String> =
        f.get_by_type(SystemType::Gameplay).iter().map(|s| s.id().to_string()).collect();
    assert_eq!(gameplay, vec!["a".to_string(), "c".to_string()]);
    assert_eq!(f.get_by_type(SystemType::Infrastructure).len(), 0);
    let all: Vec<String> = f.get_all().into_iter().map(|(id, _)| id).collect();
    assert_eq!(all, vec!["a".to_string(), "b".to_string(), "c".to_string()]);
    assert!(f.has_system("b"));
    assert_eq!(f.get("b").unwrap().system_type(), SystemType::Social);
    f.shutdown_all();
    assert!(!f.has_system("b"));
    assert!(f.get("b").is_none());
}

#[test]
fn new_config_is_switched_on() {
    let c = SystemConfig::new("quests", SystemType::Progression);
    assert_eq!(c.system_id, "quests");
    assert_eq!(c.system_type, SystemType::Progression);
    assert!(c.enabled);
    assert_eq!(c.priority, 0);
    assert!(c.metadata.is_empty());
    assert_eq!(c.clone(), c);
}

#[test]
fn plain_systems_are_their_setup() {
    let mut config = SystemConfig::new("quests", SystemType::Progression);
    config.enabled = false;
    let mut system = PlainBuilder.build(config);
    assert_eq!(system.id(), "quests");
    assert_eq!(system.system_type(), SystemType::Progression);
    assert!(!system.enabled());
    assert!(system.validate());
    system.enable();
    assert!(system.enabled());
    system.disable();
    assert!(!system.enabled());
    assert_eq!(system.initialize(), Ok(()));
}
