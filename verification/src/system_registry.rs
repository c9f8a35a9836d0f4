//! The registry of optional game systems: what is defined, what is
//! switched on, and what has been brought up, in order of priority and
//! after what it depends on.

use vstd::prelude::*;
use crate::strmap::StrMap;
use crate::text::{concat2, concat3, texts};

verus! {

/// The part of the game that a system belongs to.
#[derive(Debug, Clone, Copy, PartialEq, Eq, Structural)]
pub enum SystemType {
    Progression,
    Gameplay,
    Social,
    Content,
    Infrastructure,
}

/// How a system is set up.
#[derive(Debug, PartialEq)]
pub struct SystemConfig {
    pub system_id: String,
    pub system_type: SystemType,
    pub enabled: bool,
    pub priority: i32,
    pub metadata: StrMap<serde_json::Value>,
}

/// Whether `a` and `b` say the same.
pub open spec fn same_config(a: SystemConfig, b: SystemConfig) -> bool {
    &&& a.system_id@ == b.system_id@
    &&& a.system_type == b.system_type
    &&& a.enabled == b.enabled
    &&& a.priority == b.priority
    &&& a.metadata@ == b.metadata@
}

impl Clone for SystemConfig {
    fn clone(&self) -> (r: Self)
        ensures
            self.metadata.wf() ==> r.metadata.wf() && same_config(*self, r),
    {
        let metadata = self.metadata.clone();
        proof {
            if self.metadata.wf() {
                assert(metadata.values() =~= self.metadata.values());
                metadata.lemma_same_entries(&self.metadata);
            }
        }
        SystemConfig {
            system_id: self.system_id.clone(),
            system_type: self.system_type,
            enabled: self.enabled,
            priority: self.priority,
            metadata,
        }
    }
}

impl SystemConfig {
    /// The setup of a system that is switched on, with priority 0 and
    /// without further data.
    pub fn new(system_id: &str, system_type: SystemType) -> (r: Self)
        ensures
            r.system_id@ == system_id@,
            r.system_type == system_type,
            r.enabled,
            r.priority == 0,
            r.metadata.wf(),
            r.metadata@ == Map::<Seq<char>, serde_json::Value>::empty(),
    {
        SystemConfig {
            system_id: String::from_str(system_id),
            system_type,
            enabled: true,
            priority: 0,
            metadata: StrMap::new(),
        }
    }
}

/// An optional system of the game.
pub trait GameSystem: Sized {
    /// Whether bringing the system up may turn it into `next` with the
    /// result `r`. A system that says nothing of itself may do anything.
    open spec fn initialized(&self, next: Self, r: Result<(), String>) -> bool {
        true
    }

    /// Whether the system may say that it is of the kind `kind`. A system
    /// that says nothing of itself may say anything.
    open spec fn is_kind(&self, kind: SystemType) -> bool {
        true
    }

    fn id(&self) -> &str;

    fn system_type(&self) -> (r: SystemType)
        ensures
            self.is_kind(r),
    ;

    /// Whether switching the system on or off, as `on` says, may turn it
    /// into `next`. A system that says nothing of itself may do anything.
    open spec fn switched(&self, on: bool, next: Self) -> bool {
        true
    }

    fn enabled(&self) -> bool;

    /// Switches the system on.
    fn enable(&mut self)
        ensures
            old(self).switched(true, *final(self)),
    ;

    /// Switches the system off.
    fn disable(&mut self)
        ensures
            old(self).switched(false, *final(self)),
    ;

    /// Brings the system up; the error says why it could not be.
    fn initialize(&mut self) -> (r: Result<(), String>)
        ensures
            old(self).initialized(*final(self), r),
    ;

    fn validate(&self) -> bool;
}

/// What makes a system from its setup.
pub trait SystemBuilder<G: GameSystem> {
    /// Whether the builder may make `made` from `config`. A builder that
    /// says nothing of itself may make anything.
    open spec fn builds(&self, config: SystemConfig, made: G) -> bool {
        true
    }

    /// Makes a system from its setup.
    fn build(&self, config: SystemConfig) -> (made: G)
        ensures
            self.builds(config, made),
    ;
}

/// A system that is nothing but its setup: it comes up without fail and is
/// switched on and off.
#[derive(Debug)]
pub struct PlainSystem {
    pub config: SystemConfig,
}

impl GameSystem for PlainSystem {
    open spec fn initialized(&self, next: Self, r: Result<(), String>) -> bool {
        next == *self && r is Ok
    }

    open spec fn is_kind(&self, kind: SystemType) -> bool {
        kind == self.config.system_type
    }

    open spec fn switched(&self, on: bool, next: Self) -> bool {
        next == (PlainSystem { config: SystemConfig { enabled: on, ..self.config } })
    }

    fn id(&self) -> (r: &str)
        ensures
            r@ == self.config.system_id@,
    {
        self.config.system_id.as_str()
    }

    fn system_type(&self) -> (r: SystemType) {
        self.config.system_type
    }

    fn enabled(&self) -> (r: bool)
        ensures
            r == self.config.enabled,
    {
        self.config.enabled
    }

    fn enable(&mut self) {
        self.config.enabled = true;
    }

    fn disable(&mut self) {
        self.config.enabled = false;
    }

    fn initialize(&mut self) -> (r: Result<(), String>) {
        Ok(())
    }

    fn validate(&self) -> (r: bool)
        ensures
            r,
    {
        true
    }
}

/// The builder of plain systems.
#[derive(Debug, Clone, Copy, PartialEq, Eq, Structural)]
pub struct PlainBuilder;

impl SystemBuilder<PlainSystem> for PlainBuilder {
    open spec fn builds(&self, config: SystemConfig, made: PlainSystem) -> bool {
        made.config == config
    }

    fn build(&self, config: SystemConfig) -> (made: PlainSystem) {
        PlainSystem { config }
    }
}

/// The values that the borrows of `v` lead to.
pub open spec fn derefs<G>(v: Seq<&G>) -> Seq<G> {
    Seq::new(v.len(), |k: int| *v[k])
}

/// Whether `out` holds those of `systems`, in order, that say they are of
/// the kind `kind`; the others say they are of another kind.
pub open spec fn picked<G: GameSystem>(systems: Seq<G>, kind: SystemType, out: Seq<G>) -> bool
    decreases systems.len(),
{
    if systems.len() == 0 {
        out.len() == 0
    } else {
        ||| (out.len() > 0 && out.last() == systems.last() && systems.last().is_kind(kind)
            && picked(systems.drop_last(), kind, out.drop_last()))
        ||| ((exists|other: SystemType| other != kind && #[trigger] systems.last().is_kind(other))
            && picked(systems.drop_last(), kind, out))
    }
}

/// The builders by system, and the systems that have been made.
#[derive(Debug)]
pub struct SystemFactory<G: GameSystem, B: SystemBuilder<G>> {
    pub ctors: StrMap<B>,
    pub systems: StrMap<G>,
}

impl<G: GameSystem, B: SystemBuilder<G>> SystemFactory<G, B> {
    /// The invariant of the maps the factory is made of.
    pub open spec fn wf(&self) -> bool {
        self.ctors.wf() && self.systems.wf()
    }

    /// A factory without builders and without systems.
    pub fn new() -> (r: Self)
        ensures
            r.wf(),
            r.ctors@ == Map::<Seq<char>, B>::empty(),
            r.systems@ == Map::<Seq<char>, G>::empty(),
    {
        SystemFactory { ctors: StrMap::new(), systems: StrMap::new() }
    }

    /// Files `ctor` as the builder of the system `system_id`.
    pub fn register(&mut self, system_id: &str, ctor: B)
        requires
            old(self).wf(),
        ensures
            final(self).wf(),
            final(self).ctors@ == old(self).ctors@.insert(system_id@, ctor),
            final(self).systems == old(self).systems,
    {
        let _ = self.ctors.insert(String::from_str(system_id), ctor);
    }

    /// Whether making the system `system_id` from `config` may turn the
    /// factory `self` into `after` with the result `r`. Without a builder
    /// for the system the error says so. With one, the system is built and
    /// brought up; if it comes up it is filed under its identifier, and if
    /// not, its error is the result and nothing is filed.
    pub open spec fn created(
        &self,
        system_id: Seq<char>,
        config: SystemConfig,
        after: Self,
        r: Result<(), String>,
    ) -> bool {
        if !self.ctors@.contains_key(system_id) {
            after == *self && r is Err && r->Err_0@ == "system not registered: "@ + system_id
        } else {
            exists|made: G, ready: G| #[trigger]
                self.ctors@[system_id].builds(config, made) && #[trigger] made.initialized(ready, r)
                    && after.ctors == self.ctors && if r is Ok {
                    after.systems@ == self.systems@.insert(system_id, ready)
                } else {
                    after.systems == self.systems
                }
        }
    }

    /// Makes the system `system_id` from `config` and brings it up.
    pub fn create(&mut self, system_id: &str, config: SystemConfig) -> (r: Result<(), String>)
        requires
            old(self).wf(),
        ensures
            final(self).wf(),
            old(self).created(system_id@, config, *final(self), r),
    {
        let mut sys = match self.ctors.get(system_id) {
            Some(ctor) => ctor.build(config),
            None => {
                return Err(concat2("system not registered: ", system_id));
            },
        };
        let ghost made = sys;
        let outcome = sys.initialize();
        assert(old(self).ctors@[system_id@].builds(config, made) && made.initialized(sys, outcome));
        if outcome.is_ok() {
            let _ = self.systems.insert(String::from_str(system_id), sys);
        }
        outcome
    }

    /// The system `system_id`, if it has been made.
    pub fn get(&self, system_id: &str) -> (r: Option<&G>)
        requires
            self.wf(),
        ensures
            r is Some == self.systems@.contains_key(system_id@),
            r is Some ==> *r->0 == self.systems@[system_id@],
    {
        self.systems.get(system_id)
    }

    /// A mutable borrow of the system `system_id`, if it has been made.
    pub fn get_mut(&mut self, system_id: &str) -> (r: Option<&mut G>)
        requires
            old(self).wf(),
        ensures
            r is Some == old(self).systems@.contains_key(system_id@),
            r is Some ==> *r->0 == old(self).systems@[system_id@],
            r is Some ==> final(self).systems@ == old(self).systems@.insert(
                system_id@,
                *final(r->0),
            ),
            r is None ==> *final(self) == *old(self),
            final(self).wf(),
            final(self).ctors == old(self).ctors,
    {
        self.systems.get_mut(system_id)
    }

    /// Forgets every system that has been made.
    pub fn shutdown_all(&mut self)
        requires
            old(self).wf(),
        ensures
            final(self).wf(),
            final(self).ctors == old(self).ctors,
            final(self).systems@ == Map::<Seq<char>, G>::empty(),
    {
        self.systems = StrMap::new();
    }

    /// The systems that say they are of the kind `system_type`, in ascending
    /// order of their identifiers.
    pub fn get_by_type(&self, system_type: SystemType) -> (r: Vec<&G>)
        requires
            self.wf(),
        ensures
            picked(self.systems.values(), system_type, derefs(r@)),
    {
        let mut out: Vec<&G> = Vec::new();
        let n = self.systems.len();
        let ghost all = self.systems.values();
        let mut i: usize = 0;
        proof {
            self.systems.lemma_entries();
            assert(all.subrange(0, 0) =~= Seq::empty());
            assert(derefs(out@) =~= Seq::<G>::empty());
            assert(picked(all.subrange(0, 0), system_type, derefs(out@)));
        }
        while i < n
            invariant
                i <= n,
                self.wf(),
                all == self.systems.values(),
                n == self.systems.keys().len(),
                n == all.len(),
                picked(all.subrange(0, i as int), system_type, derefs(out@)),
            decreases n - i,
        {
            let system = self.systems.value_at(i);
            let kind = system.system_type();
            let ghost was = derefs(out@);
            let ghost prefix = all.subrange(0, i + 1);
            proof {
                assert(prefix.drop_last() =~= all.subrange(0, i as int));
                assert(prefix.last() == *system);
            }
            if kind == system_type {
                out.push(system);
                proof {
                    let now = derefs(out@);
                    assert(now.drop_last() =~= was);
                    assert(now.last() == *system);
                    assert(picked(prefix, system_type, now));
                }
            } else {
                assert(kind != system_type && prefix.last().is_kind(kind));
                assert(picked(prefix, system_type, was));
            }
            i = i + 1;
        }
        assert(all.subrange(0, n as int) =~= all);
        out
    }

    /// Every system that has been made, with its identifier, in ascending
    /// order of the identifiers.
    pub fn get_all(&self) -> (r: Vec<(String, &G)>)
        requires
            self.wf(),
        ensures
            r@.len() == self.systems.keys().len(),
            forall|k: int|
                0 <= k < r@.len() ==> (#[trigger] r@[k]).0@ == self.systems.keys()[k] && *r@[k].1
                    == self.systems.values()[k],
    {
        let mut out: Vec<(String, &G)> = Vec::new();
        let n = self.systems.len();
        let mut i: usize = 0;
        proof {
            self.systems.lemma_entries();
        }
        while i < n
            invariant
                i <= n,
                self.wf(),
                n == self.systems.keys().len(),
                n == self.systems.values().len(),
                out@.len() == i,
                forall|k: int|
                    0 <= k < i ==> (#[trigger] out@[k]).0@ == self.systems.keys()[k] && *out@[k].1
                        == self.systems.values()[k],
            decreases n - i,
        {
            out.push((self.systems.key_at(i).clone(), self.systems.value_at(i)));
            i = i + 1;
        }
        out
    }

    /// Whether the system `system_id` has been made.
    pub fn has_system(&self, system_id: &str) -> (r: bool)
        requires
            self.wf(),
        ensures
            r == self.systems@.contains_key(system_id@),
    {
        self.systems.contains_key(system_id)
    }
}

/// A switch by which a system is turned on and off.
#[derive(Debug, Clone, PartialEq)]
pub struct FeatureFlag {
    pub name: String,
    pub enabled: bool,
    pub metadata: StrMap<serde_json::Value>,
}

/// The priority of the system `id`: that of its setup, and 0 without one.
pub open spec fn rank_of(configs: Map<Seq<char>, SystemConfig>, id: Seq<char>) -> int {
    if configs.contains_key(id) {
        configs[id].priority as int
    } else {
        0
    }
}

/// The first position at or after `i` whose system has a lower priority
/// than `id`, or the length of `list`.
pub open spec fn slot(
    list: Seq<Seq<char>>,
    configs: Map<Seq<char>, SystemConfig>,
    id: Seq<char>,
    i: int,
) -> int
    decreases list.len() - i,
{
    if i < 0 || i >= list.len() {
        list.len() as int
    } else if rank_of(configs, list[i]) < rank_of(configs, id) {
        i
    } else {
        slot(list, configs, id, i + 1)
    }
}

/// `ids` in descending order of priority; systems of one priority stay in
/// the order in which `ids` names them.
pub open spec fn ranked(ids: Seq<Seq<char>>, configs: Map<Seq<char>, SystemConfig>) -> Seq<
    Seq<char>,
>
    decreases ids.len(),
{
    if ids.len() == 0 {
        Seq::empty()
    } else {
        let head = ranked(ids.drop_last(), configs);
        head.insert(slot(head, configs, ids.last(), 0), ids.last())
    }
}

proof fn lemma_slot(
    list: Seq<Seq<char>>,
    configs: Map<Seq<char>, SystemConfig>,
    id: Seq<char>,
    i: int,
)
    requires
        0 <= i <= list.len(),
    ensures
        i <= slot(list, configs, id, i) <= list.len(),
    decreases list.len() - i,
{
    if i < list.len() && !(rank_of(configs, list[i]) < rank_of(configs, id)) {
        lemma_slot(list, configs, id, i + 1);
    }
}

/// The position of the first of `deps` at or after `i` that is no system
/// of `systems`, or the length of `deps`.
pub open spec fn first_missing<G>(deps: Seq<String>, systems: Map<Seq<char>, G>, i: int) -> int
    decreases deps.len() - i,
{
    if i < 0 || i >= deps.len() {
        deps.len() as int
    } else if !systems.contains_key(deps[i]@) {
        i
    } else {
        first_missing(deps, systems, i + 1)
    }
}

proof fn lemma_first_missing<G>(deps: Seq<String>, systems: Map<Seq<char>, G>, i: int)
    requires
        0 <= i <= deps.len(),
    ensures
        i <= first_missing(deps, systems, i) <= deps.len(),
        first_missing(deps, systems, i) == deps.len() <==> forall|k: int|
            i <= k < deps.len() ==> systems.contains_key(#[trigger] deps[k]@),
    decreases deps.len() - i,
{
    if i < deps.len() && systems.contains_key(deps[i]@) {
        lemma_first_missing(deps, systems, i + 1);
    }
}

/// What is defined of the systems, what is switched on, and what has been
/// brought up.
#[derive(Debug)]
pub struct SystemRegistry<G: GameSystem, B: SystemBuilder<G>> {
    pub factory: SystemFactory<G, B>,
    pub feature_flags: StrMap<FeatureFlag>,
    pub system_configs: StrMap<SystemConfig>,
    pub system_dependencies: StrMap<Vec<String>>,
    /// Whether the systems have been brought up since the last shutdown.
    pub initialized: bool,
}

impl<G: GameSystem, B: SystemBuilder<G>> SystemRegistry<G, B> {
    /// The invariant of the maps the registry is made of.
    pub open spec fn wf(&self) -> bool {
        &&& self.factory.wf()
        &&& self.feature_flags.wf()
        &&& self.system_configs.wf()
        &&& self.system_dependencies.wf()
        &&& forall|id: Seq<char>| #[trigger]
            self.system_configs@.contains_key(id) ==> self.system_configs@[id].metadata.wf()
    }

    /// A registry that knows of no system.
    pub fn new() -> (r: Self)
        ensures
            r.wf(),
            !r.initialized,
            r.factory.ctors@ == Map::<Seq<char>, B>::empty(),
            r.factory.systems@ == Map::<Seq<char>, G>::empty(),
            r.feature_flags@ == Map::<Seq<char>, FeatureFlag>::empty(),
            r.system_configs@ == Map::<Seq<char>, SystemConfig>::empty(),
            r.system_dependencies@ == Map::<Seq<char>, Vec<String>>::empty(),
    {
        SystemRegistry {
            factory: SystemFactory::new(),
            feature_flags: StrMap::new(),
            system_configs: StrMap::new(),
            system_dependencies: StrMap::new(),
            initialized: false,
        }
    }

    /// Defines the system `system_id`: its setup, what it depends on, and
    /// its switch, which starts as `enabled` says.
    pub fn define_system(
        &mut self,
        system_id: &str,
        system_type: SystemType,
        enabled: bool,
        priority: i32,
        dependencies: Vec<String>,
        metadata: StrMap<serde_json::Value>,
    )
        requires
            old(self).wf(),
            metadata.wf(),
        ensures
            final(self).wf(),
            final(self).factory == old(self).factory,
            final(self).initialized == old(self).initialized,
            final(self).system_configs@.dom() == old(self).system_configs@.dom().insert(system_id@),
            same_config(
                final(self).system_configs@[system_id@],
                SystemConfig {
                    system_id: final(self).system_configs@[system_id@].system_id,
                    system_type,
                    enabled,
                    priority,
                    metadata,
                },
            ),
            final(self).system_configs@[system_id@].system_id@ == system_id@,
            forall|id: Seq<char>|
                id != system_id@ && old(self).system_configs@.contains_key(id) ==> #[trigger] final(self).system_configs@[id] == old(self).system_configs@[id],
            final(self).system_dependencies@ == old(self).system_dependencies@.insert(
                system_id@,
                dependencies,
            ),
            final(self).feature_flags@.dom() == old(self).feature_flags@.dom().insert(system_id@),
            final(self).feature_flags@[system_id@].name@ == system_id@,
            final(self).feature_flags@[system_id@].enabled == enabled,
            final(self).feature_flags@[system_id@].metadata@ == Map::<
                Seq<char>,
                serde_json::Value,
            >::empty(),
            forall|id: Seq<char>|
                id != system_id@ && old(self).feature_flags@.contains_key(id) ==> #[trigger] final(self).feature_flags@[id] == old(self).feature_flags@[id],
    {
        let mut config = SystemConfig::new(system_id, system_type);
        config.enabled = enabled;
        config.priority = priority;
        config.metadata = metadata;
        let _ = self.system_configs.insert(String::from_str(system_id), config);
        let _ = self.system_dependencies.insert(String::from_str(system_id), dependencies);
        let _ = self.feature_flags.insert(
            String::from_str(system_id),
            FeatureFlag { name: String::from_str(system_id), enabled, metadata: StrMap::new() },
        );
        assert(self.system_configs@.dom() =~= old(self).system_configs@.dom().insert(system_id@));
        assert(self.feature_flags@.dom() =~= old(self).feature_flags@.dom().insert(system_id@));
    }

    /// Whether the switch of the system `system_id` is on; a system without
    /// a switch is off.
    pub open spec fn switched_on(&self, system_id: Seq<char>) -> bool {
        self.feature_flags@.contains_key(system_id) && self.feature_flags@[system_id].enabled
    }

    fn set_switch(&mut self, system_id: &str, on: bool)
        requires
            old(self).wf(),
        ensures
            final(self).wf(),
            final(self).initialized == old(self).initialized,
            final(self).system_configs == old(self).system_configs,
            final(self).system_dependencies == old(self).system_dependencies,
            final(self).factory == old(self).factory,
            final(self).feature_flags@ == if old(self).feature_flags@.contains_key(system_id@) {
                old(self).feature_flags@.insert(
                    system_id@,
                    FeatureFlag { enabled: on, ..old(self).feature_flags@[system_id@] },
                )
            } else {
                old(self).feature_flags@
            },
    {
        match self.feature_flags.get_mut(system_id) {
            Some(flag) => {
                flag.enabled = on;
            },
            None => {},
        }
    }

    /// Turns the switch of the system `system_id` on, if it has one, and
    /// tells the system itself, if it has been made.
    pub fn enable_system(&mut self, system_id: &str)
        requires
            old(self).wf(),
        ensures
            final(self).wf(),
            final(self).initialized == old(self).initialized,
            final(self).system_configs == old(self).system_configs,
            final(self).system_dependencies == old(self).system_dependencies,
            final(self).factory.ctors == old(self).factory.ctors,
            final(self).factory.systems@.dom() == old(self).factory.systems@.dom(),
            forall|id: Seq<char>|
                id != system_id@ && old(self).factory.systems@.contains_key(id) ==> #[trigger] final(self).factory.systems@[id] == old(self).factory.systems@[id],
            old(self).factory.systems@.contains_key(system_id@) ==> old(
                self,
            ).factory.systems@[system_id@].switched(true, final(self).factory.systems@[system_id@]),
            final(self).feature_flags@ == if old(self).feature_flags@.contains_key(system_id@) {
                old(self).feature_flags@.insert(
                    system_id@,
                    FeatureFlag { enabled: true, ..old(self).feature_flags@[system_id@] },
                )
            } else {
                old(self).feature_flags@
            },
    {
        self.set_switch(system_id, true);
        match self.factory.get_mut(system_id) {
            Some(sys) => {
                sys.enable();
            },
            None => {},
        }
        assert(self.factory.systems@.dom() =~= old(self).factory.systems@.dom());
    }

    /// Turns the switch of the system `system_id` off, if it has one, and
    /// tells the system itself, if it has been made.
    pub fn disable_system(&mut self, system_id: &str)
        requires
            old(self).wf(),
        ensures
            final(self).wf(),
            final(self).initialized == old(self).initialized,
            final(self).system_configs == old(self).system_configs,
            final(self).system_dependencies == old(self).system_dependencies,
            final(self).factory.ctors == old(self).factory.ctors,
            final(self).factory.systems@.dom() == old(self).factory.systems@.dom(),
            forall|id: Seq<char>|
                id != system_id@ && old(self).factory.systems@.contains_key(id) ==> #[trigger] final(self).factory.systems@[id] == old(self).factory.systems@[id],
            old(self).factory.systems@.contains_key(system_id@) ==> old(
                self,
            ).factory.systems@[system_id@].switched(false, final(self).factory.systems@[system_id@]),
            final(self).feature_flags@ == if old(self).feature_flags@.contains_key(system_id@) {
                old(self).feature_flags@.insert(
                    system_id@,
                    FeatureFlag { enabled: false, ..old(self).feature_flags@[system_id@] },
                )
            } else {
                old(self).feature_flags@
            },
    {
        self.set_switch(system_id, false);
        match self.factory.get_mut(system_id) {
            Some(sys) => {
                sys.disable();
            },
            None => {},
        }
        assert(self.factory.systems@.dom() =~= old(self).factory.systems@.dom());
    }

    /// Whether the switch of the system `system_id` is on.
    pub fn is_enabled(&self, system_id: &str) -> (r: bool)
        requires
            self.wf(),
        ensures
            r == self.switched_on(system_id@),
    {
        match self.feature_flags.get(system_id) {
            Some(flag) => flag.enabled,
            None => false,
        }
    }

    /// Whether making the system `system_id` from its setup may turn the
    /// factory `factory` into `after` with the result `r`. A system without
    /// a setup is not made, and the error says so.
    pub open spec fn set_up(
        &self,
        factory: SystemFactory<G, B>,
        system_id: Seq<char>,
        after: SystemFactory<G, B>,
        r: Result<(), String>,
    ) -> bool {
        if !self.system_configs@.contains_key(system_id) {
            after == factory && r is Err && r->Err_0@ == "System "@ + system_id
                + " not configured"@
        } else {
            exists|config: SystemConfig| #[trigger]
                same_config(config, self.system_configs@[system_id]) && factory.created(
                    system_id,
                    config,
                    after,
                    r,
                )
        }
    }

    /// Makes the system `system_id` from its setup and brings it up.
    pub fn create_system(&mut self, system_id: &str) -> (r: Result<(), String>)
        requires
            old(self).wf(),
        ensures
            final(self).wf(),
            old(self).set_up(old(self).factory, system_id@, final(self).factory, r),
            *final(self) == (SystemRegistry { factory: final(self).factory, ..*old(self) }),
    {
        let config = match self.system_configs.get(system_id) {
            Some(config) => config.clone(),
            None => {
                return Err(concat3("System ", system_id, " not configured"));
            },
        };
        let r = self.factory.create(system_id, config);
        assert(same_config(config, self.system_configs@[system_id@]));
        r
    }

    /// Forgets every system that has been made.
    pub fn shutdown_all(&mut self)
        requires
            old(self).wf(),
        ensures
            final(self).wf(),
            !final(self).initialized,
            final(self).factory.ctors == old(self).factory.ctors,
            final(self).factory.systems@ == Map::<Seq<char>, G>::empty(),
            final(self).feature_flags == old(self).feature_flags,
            final(self).system_configs == old(self).system_configs,
            final(self).system_dependencies == old(self).system_dependencies,
    {
        self.factory.shutdown_all();
        self.initialized = false;
    }

    /// What the system `system_id` depends on; nothing if nothing is known.
    pub open spec fn needs(&self, system_id: Seq<char>) -> Seq<String> {
        if self.system_dependencies@.contains_key(system_id) {
            self.system_dependencies@[system_id]@
        } else {
            Seq::empty()
        }
    }

    /// Whether every system that `system_id` depends on has been made.
    pub fn validate_dependencies(&self, system_id: &str) -> (r: bool)
        requires
            self.wf(),
        ensures
            r == forall|k: int|
                0 <= k < self.needs(system_id@).len() ==> self.factory.systems@.contains_key(
                    #[trigger] self.needs(system_id@)[k]@,
                ),
    {
        self.missing_dependency(system_id).is_none()
    }

    fn missing_dependency(&self, system_id: &str) -> (r: Option<String>)
        requires
            self.wf(),
        ensures
            ({
                let deps = self.needs(system_id@);
                let k = first_missing(deps, self.factory.systems@, 0);
                &&& r is Some <==> k < deps.len()
                &&& r is Some ==> r->0 == deps[k]
                &&& r is None <==> forall|j: int|
                    0 <= j < deps.len() ==> self.factory.systems@.contains_key(#[trigger] deps[j]@)
            }),
    {
        let ghost deps = self.needs(system_id@);
        proof {
            lemma_first_missing(deps, self.factory.systems@, 0);
        }
        match self.system_dependencies.get(system_id) {
            Some(list) => {
                let mut i: usize = 0;
                while i < list.len()
                    invariant
                        i <= list@.len(),
                        list@ == deps,
                        deps == self.needs(system_id@),
                        self.wf(),
                        first_missing(deps, self.factory.systems@, i as int) == first_missing(
                            deps,
                            self.factory.systems@,
                            0,
                        ),
                    decreases list@.len() - i,
                {
                    if !self.factory.has_system(list[i].as_str()) {
                        proof {
                            lemma_first_missing(deps, self.factory.systems@, 0);
                            assert(!self.factory.systems@.contains_key(deps[i as int]@));
                            assert(first_missing(deps, self.factory.systems@, i as int) == i);
                        }
                        return Some(list[i].clone());
                    }
                    i = i + 1;
                }
                proof {
                    lemma_first_missing(deps, self.factory.systems@, 0);
                }
                None
            },
            None => None,
        }
    }

    /// Whether bringing up the systems of `plan` from position `i` on, in
    /// order, may turn the factory `factory` into `factory_end` with the
    /// result `r`. A system that is switched off is passed over. A system
    /// that depends on one that has not been made stops the work, and the
    /// error names the first such. A system that has been made is left as
    /// it is; any other is made from its setup, and if that fails the work
    /// stops with its error.
    pub open spec fn brought_up(
        &self,
        factory: SystemFactory<G, B>,
        plan: Seq<Seq<char>>,
        i: int,
        factory_end: SystemFactory<G, B>,
        r: Result<(), String>,
    ) -> bool
        decreases plan.len() - i,
    {
        if i < 0 || i >= plan.len() {
            factory_end == factory && r is Ok
        } else {
            let id = plan[i];
            let deps = self.needs(id);
            let k = first_missing(deps, factory.systems@, 0);
            if !self.switched_on(id) {
                self.brought_up(factory, plan, i + 1, factory_end, r)
            } else if k < deps.len() {
                factory_end == factory && r is Err && r->Err_0@ == "Dependency "@ + deps[k]@
                    + " not initialized for "@ + id
            } else if factory.systems@.contains_key(id) {
                self.brought_up(factory, plan, i + 1, factory_end, r)
            } else {
                exists|mid: SystemFactory<G, B>, outcome: Result<(), String>| #[trigger]
                    self.set_up(factory, id, mid, outcome) && if outcome is Err {
                        factory_end == mid && r == outcome
                    } else {
                        self.brought_up(mid, plan, i + 1, factory_end, r)
                    }
            }
        }
    }

    fn rank(&self, system_id: &str) -> (r: i32)
        requires
            self.wf(),
        ensures
            r == rank_of(self.system_configs@, system_id@),
    {
        match self.system_configs.get(system_id) {
            Some(config) => config.priority,
            None => 0,
        }
    }

    fn rank_systems(&self, ids: Vec<String>) -> (r: Vec<String>)
        requires
            self.wf(),
        ensures
            texts(r@) == ranked(texts(ids@), self.system_configs@),
    {
        let mut out: Vec<String> = Vec::new();
        let ghost configs = self.system_configs@;
        let mut i: usize = 0;
        assert(texts(ids@).subrange(0, 0) =~= Seq::empty());
        assert(texts(out@) =~= Seq::empty());
        while i < ids.len()
            invariant
                i <= ids@.len(),
                self.wf(),
                configs == self.system_configs@,
                texts(out@) == ranked(texts(ids@).subrange(0, i as int), configs),
            decreases ids@.len() - i,
        {
            let id = ids[i].clone();
            let mine = self.rank(id.as_str());
            let ghost head = texts(out@);
            let mut j: usize = 0;
            proof {
                lemma_slot(head, configs, id@, 0);
            }
            while j < out.len() && self.rank(out[j].as_str()) >= mine
                invariant
                    j <= out@.len(),
                    self.wf(),
                    configs == self.system_configs@,
                    head == texts(out@),
                    mine == rank_of(configs, id@),
                    slot(head, configs, id@, j as int) == slot(head, configs, id@, 0),
                decreases out@.len() - j,
            {
                assert(head[j as int] == out@[j as int]@);
                j = j + 1;
            }
            proof {
                if j < out.len() {
                    assert(head[j as int] == out@[j as int]@);
                }
                let now = texts(ids@).subrange(0, i + 1);
                assert(now.drop_last() =~= texts(ids@).subrange(0, i as int));
                assert(now.last() == id@);
            }
            out.insert(j, id);
            assert(texts(out@) =~= head.insert(j as int, id@));
            i = i + 1;
        }
        assert(texts(ids@).subrange(0, ids@.len() as int) =~= texts(ids@));
        out
    }

    /// Brings up the systems `system_ids`, or every system that has a setup
    /// if none are named, in descending order of priority. On success the
    /// registry counts as brought up.
    pub fn initialize_all(&mut self, system_ids: Option<Vec<String>>) -> (r: Result<(), String>)
        requires
            old(self).wf(),
        ensures
            final(self).wf(),
            final(self).feature_flags == old(self).feature_flags,
            final(self).system_configs == old(self).system_configs,
            final(self).system_dependencies == old(self).system_dependencies,
            final(self).initialized == (r is Ok || old(self).initialized),
            old(self).brought_up(
                old(self).factory,
                ranked(
                    match system_ids {
                        Some(ids) => texts(ids@),
                        None => old(self).system_configs.keys(),
                    },
                    old(self).system_configs@,
                ),
                0,
                final(self).factory,
                r,
            ),
    {
        let ids = match system_ids {
            Some(ids) => ids,
            None => self.system_configs.key_list(),
        };
        let plan = self.rank_systems(ids);
        let ghost steps = texts(plan@);
        let ghost start = self.factory;
        let mut i: usize = 0;
        while i < plan.len()
            invariant
                i <= plan@.len(),
                steps == texts(plan@),
                steps == ranked(
                    match system_ids {
                        Some(ids) => texts(ids@),
                        None => old(self).system_configs.keys(),
                    },
                    old(self).system_configs@,
                ),
                start == old(self).factory,
                self.wf(),
                *self == (SystemRegistry { factory: self.factory, ..*old(self) }),
                forall|end: SystemFactory<G, B>, r: Result<(), String>| #[trigger]
                    old(self).brought_up(self.factory, steps, i as int, end, r) ==> old(
                        self,
                    ).brought_up(start, steps, 0, end, r),
            decreases plan@.len() - i,
        {
            let system_id = plan[i].as_str();
            assert(steps[i as int] == system_id@);
            let ghost factory = self.factory;
            if self.is_enabled(system_id) {
                match self.missing_dependency(system_id) {
                    Some(dep) => {
                        let r = Err(
                            String::from_str("Dependency ").concat(dep.as_str()).concat(
                                " not initialized for ",
                            ).concat(system_id),
                        );
                        assert(old(self).brought_up(factory, steps, i as int, factory, r));
                        return r;
                    },
                    None => {},
                }
                if !self.factory.has_system(system_id) {
                    let outcome = self.create_system(system_id);
                    assert(old(self).set_up(factory, system_id@, self.factory, outcome));
                    if outcome.is_err() {
                        assert(old(self).brought_up(factory, steps, i as int, self.factory, outcome));
                        return outcome;
                    }
                }
            }
            assert forall|end: SystemFactory<G, B>, r: Result<(), String>| #[trigger]
                old(self).brought_up(self.factory, steps, i + 1, end, r) implies old(
                self,
            ).brought_up(start, steps, 0, end, r) by {
                assert(old(self).brought_up(factory, steps, i as int, end, r));
            }
            i = i + 1;
        }
        self.initialized = true;
        let r = Ok(());
        assert(old(self).brought_up(self.factory, steps, i as int, self.factory, r));
        r
    }

    /// Whether the systems have been brought up since the last shutdown.
    pub fn is_initialized(&self) -> (r: bool)
        ensures
            r == self.initialized,
    {
        self.initialized
    }
}

} // verus!
