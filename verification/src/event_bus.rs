//! The event bus: publish and subscribe, ordered by priority and by
//! subscriber, with events that a handler may cancel.

use vstd::prelude::*;
use crate::priorities::Priority;
use crate::strmap::StrMap;
use crate::text::{
    lemma_lex_transitive, lemma_lex_trichotomy, lex_compare, lex_lt, str_equal, Lex,
};

verus! {

/// Something that happened, as the subscribers see it.
#[derive(Debug)]
pub struct Event {
    pub name: String,
    pub data: StrMap<serde_json::Value>,
    pub source: String,
    pub cancellable: bool,
    /// Whether a handler has asked for the event to be cancelled. Set by
    /// `cancel`; it counts only on an event that can be cancelled.
    pub cancelled: bool,
}

/// Whether `a` and `b` say the same: name, data, source and both flags.
pub open spec fn same_event(a: Event, b: Event) -> bool {
    &&& a.name@ == b.name@
    &&& a.data@ == b.data@
    &&& a.source@ == b.source@
    &&& a.cancellable == b.cancellable
    &&& a.cancelled == b.cancelled
}

impl Clone for Event {
    fn clone(&self) -> (r: Self)
        ensures
            self.data.wf() ==> r.data.wf() && same_event(*self, r),
    {
        let data = self.data.clone();
        proof {
            if self.data.wf() {
                assert(data.values() =~= self.data.values());
                data.lemma_same_entries(&self.data);
            }
        }
        Event {
            name: self.name.clone(),
            data,
            source: self.source.clone(),
            cancellable: self.cancellable,
            cancelled: self.cancelled,
        }
    }
}

impl Event {
    /// An event that has not been cancelled.
    pub fn new(name: &str, data: StrMap<serde_json::Value>, source: &str, cancellable: bool) -> (r:
        Self)
        ensures
            r.name@ == name@,
            r.data == data,
            r.source@ == source@,
            r.cancellable == cancellable,
            !r.cancelled,
    {
        Event {
            name: String::from_str(name),
            data,
            source: String::from_str(source),
            cancellable,
            cancelled: false,
        }
    }

    /// Cancels the event if it can be cancelled. An event that cannot be
    /// cancelled is left as it is.
    pub fn cancel(&mut self)
        ensures
            old(self).cancellable ==> *final(self) == (Event { cancelled: true, ..*old(self) }),
            !old(self).cancellable ==> *final(self) == *old(self),
    {
        if self.cancellable {
            self.cancelled = true;
        }
    }

    /// Whether the event is cancelled: it can be cancelled and a handler
    /// has asked for it.
    pub open spec fn stopped(&self) -> bool {
        self.cancellable && self.cancelled
    }

    /// Whether the event is cancelled. An event that cannot be cancelled
    /// never is, whatever a handler did to it.
    pub fn is_cancelled(&self) -> (r: bool)
        ensures
            r == self.stopped(),
    {
        self.cancellable && self.cancelled
    }
}

/// What reacts to events. A handler may change the event it is given, and
/// may keep a state of its own.
pub trait EventHandler: Sized {
    /// Whether the handler, given the event `before`, may become `next` and
    /// leave the event as `after`. A handler that says nothing of itself
    /// may do anything.
    open spec fn handles(&self, before: Event, next: Self, after: Event) -> bool {
        true
    }

    /// Reacts to `event`.
    fn handle(&mut self, event: &mut Event)
        ensures
            old(self).handles(*old(event), *final(self), *final(event)),
    ;
}

/// A handler that cancels every event it is given and counts them.
#[derive(Debug, Clone, Copy, PartialEq, Eq, Structural)]
pub struct Canceller {
    /// How many events the handler has been given; it stops at the largest
    /// number.
    pub seen: u64,
}

/// A handler that leaves the event alone and counts the events it is given.
#[derive(Debug, Clone, Copy, PartialEq, Eq, Structural)]
pub struct Counter {
    /// How many events the handler has been given; it stops at the largest
    /// number.
    pub seen: u64,
}

/// One more than `n`, or `n` where there is no larger number.
pub open spec fn counted(n: u64) -> u64 {
    if n < u64::MAX {
        (n + 1) as u64
    } else {
        n
    }
}

impl EventHandler for Canceller {
    open spec fn handles(&self, before: Event, next: Self, after: Event) -> bool {
        &&& next.seen == counted(self.seen)
        &&& before.cancellable ==> after == (Event { cancelled: true, ..before })
        &&& !before.cancellable ==> after == before
    }

    fn handle(&mut self, event: &mut Event) {
        if self.seen < u64::MAX {
            self.seen = self.seen + 1;
        }
        event.cancel();
    }
}

impl EventHandler for Counter {
    open spec fn handles(&self, before: Event, next: Self, after: Event) -> bool {
        next.seen == counted(self.seen) && after == before
    }

    fn handle(&mut self, event: &mut Event) {
        if self.seen < u64::MAX {
            self.seen = self.seen + 1;
        }
    }
}

/// A handler with the event it listens to, the subscriber it belongs to and
/// its priority.
#[derive(Debug)]
pub struct EventSubscription<H> {
    pub event_name: String,
    pub plugin_name: String,
    pub priority: Priority,
    pub handler: H,
}

/// Whether `a` must run before `b`: it has the lower rank, or the same rank
/// and the subscriber that comes first in lexicographic order.
pub open spec fn runs_before<H>(a: EventSubscription<H>, b: EventSubscription<H>) -> bool {
    a.priority.rank() < b.priority.rank() || (a.priority == b.priority && lex_lt(
        a.plugin_name@,
        b.plugin_name@,
    ))
}

/// Whether no subscription of `list` stands behind one that it must run
/// before.
pub open spec fn in_order<H>(list: Seq<EventSubscription<H>>) -> bool {
    forall|i: int, j: int|
        0 <= i < j < list.len() ==> !runs_before(#[trigger] list[j], #[trigger] list[i])
}

/// The first position at or after `i` whose subscription `sub` must run
/// before, or the length of `list`.
pub open spec fn insert_point<H>(
    list: Seq<EventSubscription<H>>,
    sub: EventSubscription<H>,
    i: int,
) -> int
    decreases list.len() - i,
{
    if i < 0 || i >= list.len() {
        list.len() as int
    } else if runs_before(sub, list[i]) {
        i
    } else {
        insert_point(list, sub, i + 1)
    }
}

/// `list` with `sub` put behind every subscription that it need not run
/// before: among equals, who subscribed first runs first.
pub open spec fn placed<H>(list: Seq<EventSubscription<H>>, sub: EventSubscription<H>) -> Seq<
    EventSubscription<H>,
> {
    list.insert(insert_point(list, sub, 0), sub)
}

proof fn lemma_insert_point<H>(list: Seq<EventSubscription<H>>, sub: EventSubscription<H>, i: int)
    requires
        0 <= i <= list.len(),
    ensures
        i <= insert_point(list, sub, i) <= list.len(),
        forall|j: int| i <= j < insert_point(list, sub, i) ==> !runs_before(sub, #[trigger] list[j]),
        insert_point(list, sub, i) < list.len() ==> runs_before(
            sub,
            list[insert_point(list, sub, i)],
        ),
    decreases list.len() - i,
{
    if i < list.len() && !runs_before(sub, list[i]) {
        lemma_insert_point(list, sub, i + 1);
    }
}

/// The order of subscriptions is transitive, and no two run before each
/// other.
pub proof fn lemma_runs_before<H>(
    a: EventSubscription<H>,
    b: EventSubscription<H>,
    c: EventSubscription<H>,
)
    ensures
        runs_before(a, b) && !runs_before(c, b) ==> runs_before(a, c),
        !(runs_before(a, b) && runs_before(b, a)),
{
    lemma_lex_trichotomy(a.plugin_name@, b.plugin_name@);
    lemma_lex_trichotomy(b.plugin_name@, c.plugin_name@);
    lemma_lex_trichotomy(a.plugin_name@, c.plugin_name@);
    if lex_lt(a.plugin_name@, b.plugin_name@) && lex_lt(b.plugin_name@, c.plugin_name@) {
        lemma_lex_transitive(a.plugin_name@, b.plugin_name@, c.plugin_name@);
    }
}

/// Placing a subscription keeps a list in order.
pub proof fn lemma_placed_in_order<H>(list: Seq<EventSubscription<H>>, sub: EventSubscription<H>)
    requires
        in_order(list),
    ensures
        in_order(placed(list, sub)),
{
    let p = insert_point(list, sub, 0);
    lemma_insert_point(list, sub, 0);
    let out = placed(list, sub);
    assert forall|i: int, j: int| 0 <= i < j < out.len() implies !runs_before(
        #[trigger] out[j],
        #[trigger] out[i],
    ) by {
        if i == p {
            // out[i] is sub, out[j] is list[j - 1], which stands at or behind list[p]
            if j - 1 > p {
                assert(!runs_before(list[j - 1], list[p]));
            }
            lemma_runs_before(sub, list[p], list[j - 1]);
            lemma_runs_before(sub, list[j - 1], sub);
        } else if j == p {
            assert(!runs_before(sub, list[i]));
        } else {
            let i0 = if i < p { i } else { i - 1 };
            let j0 = if j < p { j } else { j - 1 };
            assert(!runs_before(list[j0], list[i0]));
        }
    }
}

fn precedes<H>(a: &EventSubscription<H>, b: &EventSubscription<H>) -> (r: bool)
    ensures
        r == runs_before(*a, *b),
{
    let ra = a.priority.rank();
    let rb = b.priority.rank();
    if ra < rb {
        true
    } else if ra > rb {
        false
    } else {
        lex_compare(a.plugin_name.as_str(), b.plugin_name.as_str()) == Lex::Before
    }
}

fn place<H>(list: &mut Vec<EventSubscription<H>>, sub: EventSubscription<H>)
    requires
        in_order(old(list)@),
    ensures
        final(list)@ == placed(old(list)@, sub),
        in_order(final(list)@),
{
    let mut i: usize = 0;
    while i < list.len() && !precedes(&sub, &list[i])
        invariant
            i <= list@.len(),
            list@ == old(list)@,
            insert_point(list@, sub, i as int) == insert_point(list@, sub, 0),
        decreases list@.len() - i,
    {
        i = i + 1;
    }
    proof {
        lemma_placed_in_order(list@, sub);
    }
    list.insert(i, sub);
}

/// Whether `sub` is the subscription of `handler` to `event_name` for the
/// subscriber `plugin_name` with the priority `priority`.
pub open spec fn subscription_of<H>(
    sub: EventSubscription<H>,
    event_name: Seq<char>,
    plugin_name: Seq<char>,
    priority: Priority,
    handler: H,
) -> bool {
    &&& sub.event_name@ == event_name
    &&& sub.plugin_name@ == plugin_name
    &&& sub.priority == priority
    &&& sub.handler == handler
}

/// `sub` with the handler `h` in place of its own.
pub open spec fn with_handler<H>(sub: EventSubscription<H>, h: H) -> EventSubscription<H> {
    EventSubscription { handler: h, ..sub }
}

/// Whether, with `i` subscriptions to the event's own name and `j` to all
/// events already run, the next to run is one to the event's own name: it
/// is unless a subscription to all events must run before it.
pub open spec fn specific_turn<H>(
    specific: Seq<EventSubscription<H>>,
    wildcard: Seq<EventSubscription<H>>,
    i: int,
    j: int,
) -> bool {
    i < specific.len() && (j >= wildcard.len() || !runs_before(wildcard[j], specific[i]))
}

/// Whether running the subscriptions from positions `i` and `j` on, in the
/// order of rank and subscriber, may turn `event` into `end` and the
/// subscriptions into `specific_end` and `wildcard_end`. Each handler is
/// given the event as the one before it left it. Once an event that can be
/// cancelled is cancelled no further handler runs; an event that cannot be
/// cancelled goes to every handler.
pub open spec fn dispatched<H: EventHandler>(
    specific: Seq<EventSubscription<H>>,
    wildcard: Seq<EventSubscription<H>>,
    i: int,
    j: int,
    event: Event,
    specific_end: Seq<EventSubscription<H>>,
    wildcard_end: Seq<EventSubscription<H>>,
    end: Event,
) -> bool
    decreases specific.len() - i + wildcard.len() - j,
{
    if event.stopped() || i < 0 || j < 0 || i > specific.len() || j > wildcard.len() || (i
        >= specific.len() && j >= wildcard.len()) {
        specific_end == specific && wildcard_end == wildcard && end == event
    } else if specific_turn(specific, wildcard, i, j) {
        exists|h: H, e: Event| #[trigger]
            specific[i].handler.handles(event, h, e) && dispatched(
                specific.update(i, with_handler(specific[i], h)),
                wildcard,
                i + 1,
                j,
                e,
                specific_end,
                wildcard_end,
                end,
            )
    } else {
        exists|h: H, e: Event| #[trigger]
            wildcard[j].handler.handles(event, h, e) && dispatched(
                specific,
                wildcard.update(j, with_handler(wildcard[j], h)),
                i,
                j + 1,
                e,
                specific_end,
                wildcard_end,
                end,
            )
    }
}

/// The events of `log` that are called `name`, in order.
pub open spec fn named_events(log: Seq<Event>, name: Seq<char>) -> Seq<Event> {
    log.filter(|e: Event| e.name@ == name)
}

proof fn lemma_filter_push(log: Seq<Event>, e: Event, name: Seq<char>)
    ensures
        named_events(log.push(e), name) == if e.name@ == name {
            named_events(log, name).push(e)
        } else {
            named_events(log, name)
        },
{
    let keep = |x: Event| x.name@ == name;
    reveal(Seq::filter);
    assert(log.push(e).drop_last() =~= log);
}

/// The bus: the subscriptions by event name, the subscriptions to all
/// events, and the log of published events.
#[derive(Debug)]
pub struct EventBus<H: EventHandler> {
    subscriptions: StrMap<Vec<EventSubscription<H>>>,
    wildcard_subscriptions: Vec<EventSubscription<H>>,
    enable_history: bool,
    history: Vec<Event>,
}

impl<H: EventHandler> EventBus<H> {
    /// The subscriptions to the event `name`, in the order in which they run.
    pub closed spec fn subscribers(&self, name: Seq<char>) -> Seq<EventSubscription<H>> {
        if self.subscriptions@.contains_key(name) {
            self.subscriptions@[name]@
        } else {
            Seq::empty()
        }
    }

    /// The subscriptions to all events, in the order in which they run.
    pub closed spec fn wildcards(&self) -> Seq<EventSubscription<H>> {
        self.wildcard_subscriptions@
    }

    /// Whether published events are logged.
    pub closed spec fn history_enabled(&self) -> bool {
        self.enable_history
    }

    /// The published events that were logged, oldest first.
    pub closed spec fn log(&self) -> Seq<Event> {
        self.history@
    }

    /// The invariant of the bus: every list of subscriptions is in order.
    pub closed spec fn wf(&self) -> bool {
        &&& self.subscriptions.wf()
        &&& in_order(self.wildcard_subscriptions@)
        &&& forall|name: Seq<char>| #[trigger]
            self.subscriptions@.contains_key(name) ==> in_order(self.subscriptions@[name]@)
        &&& forall|k: int| 0 <= k < self.history@.len() ==> (#[trigger] self.history@[k]).data.wf()
    }

    /// What the invariant says of the lists of subscriptions and of the log.
    pub proof fn lemma_wf(&self)
        requires
            self.wf(),
        ensures
            in_order(self.wildcards()),
            forall|name: Seq<char>| in_order(#[trigger] self.subscribers(name)),
            forall|k: int| 0 <= k < self.log().len() ==> (#[trigger] self.log()[k]).data.wf(),
    {
    }

    /// A bus without subscriptions and with an empty log.
    pub fn new(enable_history: bool) -> (r: Self)
        ensures
            r.wf(),
            r.history_enabled() == enable_history,
            r.log().len() == 0,
            r.wildcards().len() == 0,
            forall|name: Seq<char>| (#[trigger] r.subscribers(name)).len() == 0,
    {
        EventBus {
            subscriptions: StrMap::new(),
            wildcard_subscriptions: Vec::new(),
            enable_history,
            history: Vec::new(),
        }
    }

    /// Subscribes `handler` to the event `event_name`, or to all events if
    /// the name is `*`. The subscription is placed by rank and subscriber;
    /// behind the subscriptions of the same rank and subscriber.
    pub fn subscribe(&mut self, event_name: &str, handler: H, priority: Priority, plugin_name: &str)
        requires
            old(self).wf(),
        ensures
            final(self).wf(),
            final(self).history_enabled() == old(self).history_enabled(),
            final(self).log() == old(self).log(),
            exists|sub: EventSubscription<H>|
                {
                    &&& #[trigger] subscription_of(sub, event_name@, plugin_name@, priority, handler)
                    &&& final(self).wildcards() == if event_name@ == "*"@ {
                        placed(old(self).wildcards(), sub)
                    } else {
                        old(self).wildcards()
                    }
                    &&& final(self).subscribers(event_name@) == if event_name@ == "*"@ {
                        old(self).subscribers(event_name@)
                    } else {
                        placed(old(self).subscribers(event_name@), sub)
                    }
                },
            forall|name: Seq<char>|
                name != event_name@ ==> #[trigger] final(self).subscribers(name) == old(
                    self,
                ).subscribers(name),
    {
        let sub = EventSubscription {
            event_name: String::from_str(event_name),
            plugin_name: String::from_str(plugin_name),
            priority,
            handler,
        };
        if str_equal(event_name, "*") {
            place(&mut self.wildcard_subscriptions, sub);
            assert(subscription_of(sub, event_name@, plugin_name@, priority, handler));
        } else {
            let mut list = match self.subscriptions.remove(event_name) {
                Some(list) => list,
                None => Vec::new(),
            };
            assert(list@ == old(self).subscribers(event_name@));
            place(&mut list, sub);
            let _ = self.subscriptions.insert(String::from_str(event_name), list);
            assert(subscription_of(sub, event_name@, plugin_name@, priority, handler));
        }
    }

    /// Publishes `event`: logs it if the log is on, then runs the
    /// subscriptions to its name and to all events, in one pass ordered by
    /// rank and subscriber, until they are through or the event is
    /// cancelled. Returns the event as the handlers left it.
    pub fn publish_event(&mut self, event: Event) -> (r: Event)
        requires
            old(self).wf(),
            event.data.wf(),
        ensures
            final(self).wf(),
            final(self).history_enabled() == old(self).history_enabled(),
            dispatched(
                old(self).subscribers(event.name@),
                old(self).wildcards(),
                0,
                0,
                event,
                final(self).subscribers(event.name@),
                final(self).wildcards(),
                r,
            ),
            forall|name: Seq<char>|
                name != event.name@ ==> #[trigger] final(self).subscribers(name) == old(
                    self,
                ).subscribers(name),
            !old(self).history_enabled() ==> final(self).log() == old(self).log(),
            old(self).history_enabled() ==> final(self).log().len() == old(self).log().len() + 1
                && final(self).log().drop_last() == old(self).log() && same_event(
                final(self).log().last(),
                event,
            ),
    {
        let mut event = event;
        if self.enable_history {
            self.history.push(event.clone());
            assert(self.history@.drop_last() =~= old(self).history@);
        }
        let name = event.name.clone();
        let taken = self.subscriptions.remove(name.as_str());
        let known = taken.is_some();
        let mut list: Vec<EventSubscription<H>> = match taken {
            Some(list) => list,
            None => Vec::new(),
        };
        let ghost event0 = event;
        let ghost list0 = list@;
        let ghost wild0 = self.wildcard_subscriptions@;
        assert(list0 == old(self).subscribers(event.name@));
        let n = list.len();
        let m = self.wildcard_subscriptions.len();
        let mut i: usize = 0;
        let mut j: usize = 0;
        while !event.is_cancelled() && (i < n || j < m)
            invariant
                i <= n,
                j <= m,
                n == list@.len(),
                m == self.wildcard_subscriptions@.len(),
                n == list0.len(),
                m == wild0.len(),
                forall|k: int|
                    0 <= k < n ==> (#[trigger] list@[k]).priority == list0[k].priority
                        && list@[k].plugin_name == list0[k].plugin_name,
                forall|k: int|
                    0 <= k < m ==> (#[trigger] self.wildcard_subscriptions@[k]).priority
                        == wild0[k].priority && self.wildcard_subscriptions@[k].plugin_name
                        == wild0[k].plugin_name,
                self.subscriptions.wf(),
                self.subscriptions@ == old(self).subscriptions@.remove(name@),
                self.enable_history == old(self).enable_history,
                self.history@.len() == old(self).history@.len() + if old(self).enable_history {
                    1int
                } else {
                    0int
                },
                forall|k: int| 0 <= k < self.history@.len() ==> (#[trigger] self.history@[k]).data.wf(),
                old(self).enable_history ==> self.history@.drop_last() == old(self).history@
                    && same_event(self.history@.last(), event0),
                !old(self).enable_history ==> self.history@ == old(self).history@,
                forall|s: Seq<EventSubscription<H>>, w: Seq<EventSubscription<H>>, e: Event| #[trigger]
                    dispatched(list@, self.wildcard_subscriptions@, i as int, j as int, event, s, w, e)
                        ==> dispatched(list0, wild0, 0, 0, event0, s, w, e),
            decreases n - i + m - j,
        {
            let ghost before = event;
            let ghost list1 = list@;
            let ghost wild1 = self.wildcard_subscriptions@;
            if i < n && (j >= m || !precedes(&self.wildcard_subscriptions[j], &list[i])) {
                list[i].handler.handle(&mut event);
                proof {
                    let h = list@[i as int].handler;
                    assert(list@ =~= list1.update(i as int, with_handler(list1[i as int], h)));
                    assert forall|s: Seq<EventSubscription<H>>, w: Seq<EventSubscription<H>>, e: Event| #[trigger]
                        dispatched(list@, wild1, i + 1, j as int, event, s, w, e) implies dispatched(
                        list0,
                        wild0,
                        0,
                        0,
                        event0,
                        s,
                        w,
                        e,
                    ) by {
                        assert(specific_turn(list1, wild1, i as int, j as int));
                        assert(list1[i as int].handler.handles(before, h, event));
                        assert(dispatched(list1, wild1, i as int, j as int, before, s, w, e));
                    }
                }
                i = i + 1;
            } else {
                self.wildcard_subscriptions[j].handler.handle(&mut event);
                proof {
                    let h = self.wildcard_subscriptions@[j as int].handler;
                    assert(self.wildcard_subscriptions@ =~= wild1.update(
                        j as int,
                        with_handler(wild1[j as int], h),
                    ));
                    assert forall|s: Seq<EventSubscription<H>>, w: Seq<EventSubscription<H>>, e: Event| #[trigger]
                        dispatched(list1, self.wildcard_subscriptions@, i as int, j + 1, event, s, w, e) implies dispatched(
                        list0,
                        wild0,
                        0,
                        0,
                        event0,
                        s,
                        w,
                        e,
                    ) by {
                        assert(!specific_turn(list1, wild1, i as int, j as int));
                        assert(wild1[j as int].handler.handles(before, h, event));
                        assert(dispatched(list1, wild1, i as int, j as int, before, s, w, e));
                    }
                }
                j = j + 1;
            }
        }
        proof {
            assert(dispatched(
                list@,
                self.wildcard_subscriptions@,
                i as int,
                j as int,
                event,
                list@,
                self.wildcard_subscriptions@,
                event,
            ));
            assert forall|a: int, b: int| 0 <= a < b < n implies !runs_before(
                #[trigger] list@[b],
                #[trigger] list@[a],
            ) by {
                assert(!runs_before(list0[b], list0[a]));
            }
            assert forall|a: int, b: int| 0 <= a < b < m implies !runs_before(
                #[trigger] self.wildcard_subscriptions@[b],
                #[trigger] self.wildcard_subscriptions@[a],
            ) by {
                assert(!runs_before(wild0[b], wild0[a]));
            }
        }
        if known {
            let _ = self.subscriptions.insert(name, list);
        } else {
            assert(list@ =~= Seq::<EventSubscription<H>>::empty());
        }
        event
    }

    /// Publishes a new event called `event_name`, with `data` or with no
    /// data, from `source`. Returns the event as the handlers left it.
    pub fn publish(
        &mut self,
        event_name: &str,
        data: Option<StrMap<serde_json::Value>>,
        source: &str,
        cancellable: bool,
    ) -> (r: Event)
        requires
            old(self).wf(),
            data is Some ==> data->0.wf(),
        ensures
            final(self).wf(),
            final(self).history_enabled() == old(self).history_enabled(),
            exists|event: Event|
                {
                    &&& event.name@ == event_name@
                    &&& event.source@ == source@
                    &&& event.cancellable == cancellable
                    &&& !event.cancelled
                    &&& event.data@ == match data {
                        Some(d) => d@,
                        None => Map::<Seq<char>, serde_json::Value>::empty(),
                    }
                    &&& #[trigger] dispatched(
                        old(self).subscribers(event_name@),
                        old(self).wildcards(),
                        0,
                        0,
                        event,
                        final(self).subscribers(event_name@),
                        final(self).wildcards(),
                        r,
                    )
                    &&& old(self).history_enabled() ==> final(self).log().len() == old(
                        self,
                    ).log().len() + 1 && final(self).log().drop_last() == old(self).log()
                        && same_event(final(self).log().last(), event)
                },
            forall|name: Seq<char>|
                name != event_name@ ==> #[trigger] final(self).subscribers(name) == old(
                    self,
                ).subscribers(name),
            !old(self).history_enabled() ==> final(self).log() == old(self).log(),
    {
        let data = match data {
            Some(d) => d,
            None => StrMap::new(),
        };
        let event = Event::new(event_name, data, source, cancellable);
        self.publish_event(event)
    }

    /// At most the last `limit` logged events, oldest first; of the events
    /// called `event_name` if a name is given. Nothing if the log is off.
    pub fn history(&self, event_name: Option<&str>, limit: usize) -> (r: Vec<Event>)
        requires
            self.wf(),
        ensures
            !self.history_enabled() ==> r@.len() == 0,
            self.history_enabled() ==> {
                let all = match event_name {
                    Some(name) => named_events(self.log(), name@),
                    None => self.log(),
                };
                let skip = if all.len() > limit {
                    all.len() - limit
                } else {
                    0
                };
                &&& r@.len() == all.len() - skip
                &&& forall|k: int| 0 <= k < r@.len() ==> same_event(#[trigger] r@[k], all[k + skip])
            },
    {
        let mut out: Vec<Event> = Vec::new();
        if !self.enable_history {
            return out;
        }
        let ghost wanted = match event_name {
            Some(name) => named_events(self.history@, name@),
            None => self.history@,
        };
        // The positions of the events that match, oldest first.
        let mut found: Vec<usize> = Vec::new();
        let mut i: usize = 0;
        while i < self.history.len()
            invariant
                i <= self.history@.len(),
                wanted == match event_name {
                    Some(name) => named_events(self.history@, name@),
                    None => self.history@,
                },
                found@.len() == (match event_name {
                    Some(name) => named_events(self.history@.subrange(0, i as int), name@),
                    None => self.history@.subrange(0, i as int),
                }).len(),
                forall|k: int| 0 <= k < found@.len() ==> (#[trigger] found@[k]) < i,
                forall|k: int|
                    0 <= k < found@.len() ==> self.history@[(#[trigger] found@[k]) as int] == (
                    match event_name {
                        Some(name) => named_events(self.history@.subrange(0, i as int), name@),
                        None => self.history@.subrange(0, i as int),
                    })[k],
            decreases self.history@.len() - i,
        {
            let matches = match event_name {
                Some(name) => str_equal(self.history[i].name.as_str(), name),
                None => true,
            };
            proof {
                let now = self.history@.subrange(0, i + 1);
                let was = self.history@.subrange(0, i as int);
                assert(now.drop_last() =~= was);
                assert(now =~= was.push(self.history@[i as int]));
                if event_name is Some {
                    let name = event_name->0;
                    lemma_filter_push(was, self.history@[i as int], name@);
                }
            }
            if matches {
                found.push(i);
            }
            i = i + 1;
        }
        proof {
            assert(self.history@.subrange(0, self.history@.len() as int) =~= self.history@);
        }
        let total = found.len();
        let skip: usize = if total > limit {
            total - limit
        } else {
            0
        };
        let mut k: usize = skip;
        while k < total
            invariant
                skip <= k <= total,
                total == found@.len(),
                total == wanted.len(),
                self.wf(),
                forall|q: int| 0 <= q < total ==> (#[trigger] found@[q]) < self.history@.len(),
                forall|q: int|
                    0 <= q < total ==> self.history@[(#[trigger] found@[q]) as int] == wanted[q],
                out@.len() == k - skip,
                forall|q: int| 0 <= q < out@.len() ==> same_event(#[trigger] out@[q], wanted[q + skip]),
            decreases total - k,
        {
            out.push(self.history[found[k]].clone());
            k = k + 1;
        }
        out
    }

    /// Forgets the logged events.
    pub fn clear_history(&mut self)
        requires
            old(self).wf(),
        ensures
            final(self).wf(),
            final(self).log().len() == 0,
            final(self).history_enabled() == old(self).history_enabled(),
            final(self).wildcards() == old(self).wildcards(),
            forall|name: Seq<char>| #[trigger]
                final(self).subscribers(name) == old(self).subscribers(name),
    {
        self.history.clear();
    }

    /// Forgets every subscription.
    pub fn clear_all_subscriptions(&mut self)
        requires
            old(self).wf(),
        ensures
            final(self).wf(),
            final(self).log() == old(self).log(),
            final(self).history_enabled() == old(self).history_enabled(),
            final(self).wildcards().len() == 0,
            forall|name: Seq<char>| (#[trigger] final(self).subscribers(name)).len() == 0,
    {
        self.subscriptions = StrMap::new();
        self.wildcard_subscriptions.clear();
    }
}

/// Two subscriptions of which the first must run before the second stand
/// in that order, whichever of them subscribed first.
pub proof fn law_order_ignores_registration<H>(a: EventSubscription<H>, b: EventSubscription<H>)
    requires
        runs_before(a, b),
    ensures
        placed(placed(Seq::empty(), a), b) == seq![a, b],
        placed(placed(Seq::empty(), b), a) == seq![a, b],
{
    let none = Seq::<EventSubscription<H>>::empty();
    lemma_runs_before(a, b, a);
    assert(placed(none, a) =~= seq![a]);
    assert(placed(none, b) =~= seq![b]);
    lemma_insert_point(seq![a], b, 0);
    lemma_insert_point(seq![b], a, 0);
    assert(insert_point(seq![a], b, 1) == 1);
    assert(placed(seq![a], b) =~= seq![a, b]);
    assert(placed(seq![b], a) =~= seq![a, b]);
}

/// Once an event that can be cancelled is cancelled no handler runs: the
/// event and every subscription stay as they are.
pub proof fn law_cancelled_event_stops<H: EventHandler>(
    specific: Seq<EventSubscription<H>>,
    wildcard: Seq<EventSubscription<H>>,
    i: int,
    j: int,
    event: Event,
    specific_end: Seq<EventSubscription<H>>,
    wildcard_end: Seq<EventSubscription<H>>,
    end: Event,
)
    requires
        event.stopped(),
        dispatched(specific, wildcard, i, j, event, specific_end, wildcard_end, end),
    ensures
        end == event,
        specific_end == specific,
        wildcard_end == wildcard,
{
}

/// A handler that cancels the event it is given, an event that can be
/// cancelled, keeps every handler behind it from running, those for the
/// event's own name and those for all events: the subscriptions behind it
/// stay as they are, and the event ends cancelled.
pub proof fn law_cancel_skips_the_rest<H: EventHandler>(
    specific: Seq<EventSubscription<H>>,
    wildcard: Seq<EventSubscription<H>>,
    i: int,
    j: int,
    event: Event,
    specific_end: Seq<EventSubscription<H>>,
    wildcard_end: Seq<EventSubscription<H>>,
    end: Event,
)
    requires
        0 <= i <= specific.len(),
        0 <= j <= wildcard.len(),
        i < specific.len() || j < wildcard.len(),
        !event.stopped(),
        dispatched(specific, wildcard, i, j, event, specific_end, wildcard_end, end),
        specific_turn(specific, wildcard, i, j) ==> forall|h: H, e: Event| #[trigger]
            specific[i].handler.handles(event, h, e) ==> e.stopped(),
        !specific_turn(specific, wildcard, i, j) ==> forall|h: H, e: Event| #[trigger]
            wildcard[j].handler.handles(event, h, e) ==> e.stopped(),
    ensures
        end.stopped(),
        specific_end.len() == specific.len(),
        wildcard_end.len() == wildcard.len(),
        forall|k: int|
            0 <= k < specific.len() && !(specific_turn(specific, wildcard, i, j) && k == i)
                ==> specific_end[k] == specific[k],
        forall|k: int|
            0 <= k < wildcard.len() && !(!specific_turn(specific, wildcard, i, j) && k == j)
                ==> wildcard_end[k] == wildcard[k],
{
    if specific_turn(specific, wildcard, i, j) {
        let (h, e) = choose|h: H, e: Event| #[trigger]
            specific[i].handler.handles(event, h, e) && dispatched(
                specific.update(i, with_handler(specific[i], h)),
                wildcard,
                i + 1,
                j,
                e,
                specific_end,
                wildcard_end,
                end,
            );
        law_cancelled_event_stops(
            specific.update(i, with_handler(specific[i], h)),
            wildcard,
            i + 1,
            j,
            e,
            specific_end,
            wildcard_end,
            end,
        );
    } else {
        let (h, e) = choose|h: H, e: Event| #[trigger]
            wildcard[j].handler.handles(event, h, e) && dispatched(
                specific,
                wildcard.update(j, with_handler(wildcard[j], h)),
                i,
                j + 1,
                e,
                specific_end,
                wildcard_end,
                end,
            );
        law_cancelled_event_stops(
            specific,
            wildcard.update(j, with_handler(wildcard[j], h)),
            i,
            j + 1,
            e,
            specific_end,
            wildcard_end,
            end,
        );
    }
}

/// An event that cannot be cancelled is not stopped: while subscriptions
/// are left, the one whose turn it is runs on the event, whatever the
/// handlers before it did, and the others follow on what it left.
pub proof fn law_open_event_goes_on<H: EventHandler>(
    specific: Seq<EventSubscription<H>>,
    wildcard: Seq<EventSubscription<H>>,
    i: int,
    j: int,
    event: Event,
    specific_end: Seq<EventSubscription<H>>,
    wildcard_end: Seq<EventSubscription<H>>,
    end: Event,
)
    requires
        0 <= i <= specific.len(),
        0 <= j <= wildcard.len(),
        i < specific.len() || j < wildcard.len(),
        !event.cancellable,
        dispatched(specific, wildcard, i, j, event, specific_end, wildcard_end, end),
    ensures
        specific_turn(specific, wildcard, i, j) ==> exists|h: H, e: Event| #[trigger]
            specific[i].handler.handles(event, h, e) && dispatched(
                specific.update(i, with_handler(specific[i], h)),
                wildcard,
                i + 1,
                j,
                e,
                specific_end,
                wildcard_end,
                end,
            ),
        !specific_turn(specific, wildcard, i, j) ==> exists|h: H, e: Event| #[trigger]
            wildcard[j].handler.handles(event, h, e) && dispatched(
                specific,
                wildcard.update(j, with_handler(wildcard[j], h)),
                i,
                j + 1,
                e,
                specific_end,
                wildcard_end,
                end,
            ),
{
}

} // verus!
