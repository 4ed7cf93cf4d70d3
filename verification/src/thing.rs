//! The Thing Description model.
//!
//! A Thing names its properties, actions and events; each of those exposes
//! one or more [`Form`]s, a protocol-specific access point.  Every structural
//! position — the Thing root, each affordance kind, the interaction, the
//! form, the expected response and the data-schema kinds — carries a
//! capability [`Registry`] so that independent protocol-binding modules can
//! each attach their own data everywhere without a central definition
//! knowing about them.
//!
//! The HTTP binding module owns capability kind [`SERVIENT_KIND`]: at the
//! root it contributes the [`ServientExtension`] (bind address, thing type,
//! CORS policy), and on every form an [`HttpBinding`] (the verb→handler
//! table that the route compiler mounts).

use vstd::prelude::*;

use crate::advertise::ThingType;
use crate::registry::{lookup_slots, Registry, Slot};

verus! {

/// The capability kind owned by the HTTP binding module.
pub const SERVIENT_KIND: u64 = 1;

/// An HTTP verb a handler can be bound to.
#[derive(Debug, Clone, Copy, PartialEq, Eq, PartialOrd, Ord, Structural)]
pub enum Verb {
    /// GET
    Get,
    /// PUT
    Put,
    /// POST
    Post,
    /// PATCH
    Patch,
    /// DELETE
    Delete,
}

/// The operation a form declares, as the Thing Description defines them.
#[derive(Debug, Clone, Copy, PartialEq, Eq, Structural)]
pub enum FormOperation {
    /// Read a property.
    ReadProperty,
    /// Write a property.
    WriteProperty,
    /// Observe a property.
    ObserveProperty,
    /// Stop observing a property.
    UnobserveProperty,
    /// Invoke an action.
    InvokeAction,
    /// Query the status of an action.
    QueryAction,
    /// Cancel an action.
    CancelAction,
    /// Subscribe to an event.
    SubscribeEvent,
    /// Unsubscribe from an event.
    UnsubscribeEvent,
    /// Read all properties at once.
    ReadAllProperties,
    /// Write all properties at once.
    WriteAllProperties,
    /// Read several properties at once.
    ReadMultipleProperties,
    /// Write several properties at once.
    WriteMultipleProperties,
    /// Observe all properties.
    ObserveAllProperties,
    /// Stop observing all properties.
    UnobserveAllProperties,
    /// Subscribe to all events.
    SubscribeAllEvents,
    /// Unsubscribe from all events.
    UnsubscribeAllEvents,
    /// Query the status of all actions.
    QueryAllActions,
}

/// The socket address the HTTP server binds to.
#[derive(Debug, Clone, Copy, PartialEq, Eq)]
pub struct HttpAddr {
    /// IPv4 address.
    pub ip: crate::advertise::Ipv4,
    /// TCP port.
    pub port: u16,
}

/// The HTTP binding module's contribution to the Thing root: how the
/// compiled servient binds, advertises and answers cross-origin requests.
#[derive(Debug, Clone, Copy, PartialEq, Eq)]
pub struct ServientExtension {
    /// Listening address; all interfaces on the default port when absent.
    pub addr: Option<HttpAddr>,
    /// The type of Thing to advertise.
    pub thing_type: ThingType,
    /// Whether every route answers any origin and method; on by default.
    pub permissive_cors: bool,
}

impl Default for ServientExtension {
    /// No explicit address, a plain Thing, permissive CORS on.
    fn default() -> (r: Self)
        ensures
            r.addr is None,
            r.thing_type is Thing,
            r.permissive_cors,
    {
        ServientExtension { addr: None, thing_type: ThingType::Thing, permissive_cors: true }
    }
}

/// One verb bound to one handler.
pub struct VerbHandler<H> {
    /// The bound verb.
    pub verb: Verb,
    /// The handler the embedding application supplied for it.
    pub handler: H,
}

/// The HTTP binding module's contribution to a form: the verb→handler table
/// and the method name the form declares.
pub struct HttpBinding<H> {
    /// The verb the form declares as its method.
    pub method: Option<Verb>,
    /// The verb→handler table; at most one handler per verb.
    pub handlers: Vec<VerbHandler<H>>,
}

/// The verb→handler table as a map; a later binding of a verb replaces an
/// earlier one.
pub open spec fn verb_map<H>(handlers: Seq<VerbHandler<H>>) -> Map<Verb, H>
    decreases handlers.len(),
{
    if handlers.len() == 0 {
        Map::empty()
    } else {
        verb_map(handlers.drop_last()).insert(handlers.last().verb, handlers.last().handler)
    }
}

/// No verb is bound twice.
pub open spec fn distinct_verbs<H>(handlers: Seq<VerbHandler<H>>) -> bool {
    forall|i: int, j: int|
        0 <= i < j < handlers.len() ==> handlers[i].verb != handlers[j].verb
}

/// The set of verbs bound in a table.
pub open spec fn verb_set<H>(handlers: Seq<VerbHandler<H>>) -> Set<Verb> {
    Set::new(|v: Verb| exists|i: int| 0 <= i < handlers.len() && handlers[i].verb == v)
}

/// Binding one more verb extends the map by exactly that entry.
pub proof fn lemma_verb_map_push<H>(handlers: Seq<VerbHandler<H>>, x: VerbHandler<H>)
    ensures
        verb_map(handlers.push(x)) == verb_map(handlers).insert(x.verb, x.handler),
{
    assert(handlers.push(x).drop_last() =~= handlers);
    assert(handlers.push(x).last() == x);
}

/// Rebinding the unique occurrence of a verb replaces exactly that entry.
pub proof fn lemma_verb_map_update<H>(handlers: Seq<VerbHandler<H>>, i: int, x: VerbHandler<H>)
    requires
        0 <= i < handlers.len(),
        handlers[i].verb == x.verb,
        distinct_verbs(handlers),
    ensures
        verb_map(handlers.update(i, x)) == verb_map(handlers).insert(x.verb, x.handler),
    decreases handlers.len(),
{
    let updated = handlers.update(i, x);
    if i == handlers.len() - 1 {
        assert(updated.last() == x);
        assert(updated.drop_last() =~= handlers.drop_last());
        assert(verb_map(handlers).insert(x.verb, x.handler) =~= verb_map(
            handlers.drop_last(),
        ).insert(handlers.last().verb, handlers.last().handler).insert(x.verb, x.handler));
        assert(verb_map(updated) =~= verb_map(handlers).insert(x.verb, x.handler));
    } else {
        let rest = handlers.drop_last();
        let lasth = handlers.last();
        assert(updated.last() == lasth);
        assert(updated.drop_last() =~= rest.update(i, x));
        assert(rest[i] == handlers[i]);
        assert forall|a: int, b: int| 0 <= a < b < rest.len() implies rest[a].verb
            != rest[b].verb by {
            assert(rest[a] == handlers[a]);
            assert(rest[b] == handlers[b]);
        }
        lemma_verb_map_update(rest, i, x);
        // The last verb differs from the rebound one, so the inserts commute.
        assert(lasth.verb != x.verb);
        assert(verb_map(updated) == verb_map(rest).insert(x.verb, x.handler).insert(
            lasth.verb,
            lasth.handler,
        ));
        assert(verb_map(rest).insert(x.verb, x.handler).insert(lasth.verb, lasth.handler)
            =~= verb_map(rest).insert(lasth.verb, lasth.handler).insert(x.verb, x.handler));
    }
}

/// A contribution of one binding module to one structural position.
pub enum Capability<H> {
    /// The HTTP binding module's root contribution.
    Servient(ServientExtension),
    /// The HTTP binding module's form contribution.
    Http(HttpBinding<H>),
    /// A contribution carrying no data at this position.
    Inert,
}

/// What a module contributes to a position before anything is bound there:
/// the seed from which the position's starting value is made.
#[derive(Debug, Clone, Copy, PartialEq, Eq)]
pub enum SeedCapability {
    /// Seed of a [`Capability::Servient`] contribution.
    Servient(ServientExtension),
    /// Seed of an empty [`Capability::Http`] contribution.
    Http,
    /// Seed of a [`Capability::Inert`] contribution.
    Inert,
}

/// Whether `c` is the starting value grown from seed `s`.
pub open spec fn seed_matches<H>(s: SeedCapability, c: Capability<H>) -> bool {
    match s {
        SeedCapability::Servient(e) => c matches Capability::Servient(e2) && e2 == e,
        SeedCapability::Http => c matches Capability::Http(b) && b.method is None
            && b.handlers@.len() == 0,
        SeedCapability::Inert => c is Inert,
    }
}

/// The starting value a seed stands for.
pub fn instantiate_seed<H>(s: SeedCapability) -> (c: Capability<H>)
    ensures
        seed_matches(s, c),
{
    match s {
        SeedCapability::Servient(e) => Capability::Servient(e),
        SeedCapability::Http => Capability::Http(HttpBinding { method: None, handlers: Vec::new() }),
        SeedCapability::Inert => Capability::Inert,
    }
}

/// Looking a kind up in two pointwise-matching chains gives matching
/// results.
proof fn lemma_lookup_seed_related<H>(s1: Seq<Slot<SeedCapability>>, s2: Seq<Slot<Capability<H>>>)
    requires
        s1.len() == s2.len(),
        forall|i: int|
            0 <= i < s1.len() ==> s1[i].kind == s2[i].kind && seed_matches(
                s1[i].value,
                s2[i].value,
            ),
    ensures
        forall|k: u64|
            #![trigger lookup_slots(s2, k)]
            match (lookup_slots(s1, k), lookup_slots(s2, k)) {
                (Some(s), Some(c)) => seed_matches(s, c),
                (None, None) => true,
                _ => false,
            },
    decreases s1.len(),
{
    if s1.len() > 0 {
        let r1 = s1.drop_first();
        let r2 = s2.drop_first();
        assert forall|i: int|
            0 <= i < r1.len() implies r1[i].kind == r2[i].kind && seed_matches(
            r1[i].value,
            r2[i].value,
        ) by {
            assert(r1[i] == s1[i + 1]);
            assert(r2[i] == s2[i + 1]);
        }
        lemma_lookup_seed_related(r1, r2);
        assert forall|k: u64|
            #![trigger lookup_slots(s2, k)]
            match (lookup_slots(s1, k), lookup_slots(s2, k)) {
                (Some(s), Some(c)) => seed_matches(s, c),
                (None, None) => true,
                _ => false,
            } by {
            if s1[0].kind != k {
                assert(lookup_slots(s1, k) == lookup_slots(r1, k));
                assert(lookup_slots(s2, k) == lookup_slots(r2, k));
            }
        }
    }
}

/// Whether `r` is the position registry grown from `seeds`: the same kinds,
/// each holding its seed's starting value.
pub open spec fn registry_from_seeds<H>(
    seeds: Registry<SeedCapability>,
    r: Registry<Capability<H>>,
) -> bool {
    &&& r.wf()
    &&& r.kinds() == seeds.kinds()
    &&& forall|k: u64|
        #![trigger r.spec_lookup(k)]
        match (seeds.spec_lookup(k), r.spec_lookup(k)) {
            (Some(s), Some(c)) => seed_matches(s, c),
            (None, None) => true,
            _ => false,
        }
}

/// The starting registry of a freshly created position: every registered
/// module's seed, instantiated, under that module's kind.
pub fn instantiate_registry<H>(seeds: &Registry<SeedCapability>) -> (r: Registry<Capability<H>>)
    requires
        seeds.wf(),
    ensures
        registry_from_seeds(*seeds, r),
{
    let n = seeds.slots.len();
    let mut slots: Vec<Slot<Capability<H>>> = Vec::new();
    let mut i: usize = 0;
    while i < n
        invariant
            i <= n == seeds.slots@.len(),
            slots@.len() == i,
            forall|j: int|
                0 <= j < i ==> slots@[j].kind == seeds.slots@[j].kind && seed_matches(
                    seeds.slots@[j].value,
                    slots@[j].value,
                ),
        decreases n - i,
    {
        let s = &seeds.slots[i];
        let value = instantiate_seed(s.value);
        slots.push(Slot { kind: s.kind, value });
        i = i + 1;
    }
    let r = Registry { slots };
    proof {
        assert(r.kinds() =~= seeds.kinds());
        assert forall|x: int, y: int|
            0 <= x < y < r.slots@.len() implies r.slots@[x].kind != r.slots@[y].kind by {
            assert(r.slots@[x].kind == seeds.slots@[x].kind);
            assert(r.slots@[y].kind == seeds.slots@[y].kind);
        }
        lemma_lookup_seed_related(seeds.slots@, r.slots@);
    }
    r
}

/// A copy of a seed registry, slot for slot.
pub fn dup_seed_registry(r: &Registry<SeedCapability>) -> (o: Registry<SeedCapability>)
    ensures
        o.slots@ == r.slots@,
        o.kinds() == r.kinds(),
        r.wf() ==> o.wf(),
        forall|k: u64| #![trigger o.spec_lookup(k)] o.spec_lookup(k) == r.spec_lookup(k),
{
    let n = r.slots.len();
    let mut slots: Vec<Slot<SeedCapability>> = Vec::new();
    let mut i: usize = 0;
    while i < n
        invariant
            i <= n == r.slots@.len(),
            slots@ == r.slots@.take(i as int),
        decreases n - i,
    {
        let s = &r.slots[i];
        slots.push(Slot { kind: s.kind, value: s.value });
        proof {
            assert(r.slots@[i as int] == Slot { kind: r.slots@[i as int].kind, value: r.slots@[i as int].value });
            assert(slots@ =~= r.slots@.take(i + 1));
        }
        i = i + 1;
    }
    proof {
        assert(slots@ =~= r.slots@);
    }
    Registry { slots }
}

/// How a data schema is typed.
#[derive(Debug, Clone, Copy, PartialEq, Eq, Structural)]
pub enum DataKind {
    /// The null type.
    Null,
    /// A boolean.
    Boolean,
    /// An integer.
    Integer,
    /// A number.
    Number,
    /// A character string.
    Text,
    /// An object of named subschemas.
    Object,
    /// An array of items.
    Array,
}

/// An affordance's data schema, with the three schema-level capability
/// positions: the schema itself, its object facet and its array facet.
pub struct DataSchema<H> {
    /// How the data is typed.
    pub kind: DataKind,
    /// Contributions to the data-schema position.
    pub ext: Registry<Capability<H>>,
    /// Contributions to the object-schema position.
    pub object_ext: Registry<Capability<H>>,
    /// Contributions to the array-schema position.
    pub array_ext: Registry<Capability<H>>,
}

/// A form: one protocol-specific access point of an affordance or of the
/// Thing itself.
pub struct Form<H> {
    /// Where the access point lives, as a URI Template.
    pub href: String,
    /// The operations the form declares.
    pub ops: Vec<FormOperation>,
    /// The content type served, when one is declared.
    pub content_type: Option<String>,
    /// The security definitions that must be satisfied.
    pub security: Vec<String>,
    /// The authorization scope identifiers.
    pub scopes: Vec<String>,
    /// Contributions to the form position; the HTTP binding keeps its
    /// verb→handler table here.
    pub ext: Registry<Capability<H>>,
    /// Contributions to the expected-response position.
    pub response_ext: Registry<Capability<H>>,
}

impl<H> Form<H> {
    /// The verb→handler table the HTTP binding contributed to this form.
    pub open spec fn binding(self) -> Seq<VerbHandler<H>> {
        match self.ext.spec_lookup(SERVIENT_KIND) {
            Some(Capability::Http(b)) => b.handlers@,
            _ => Seq::empty(),
        }
    }

    /// The method the form declares.
    pub open spec fn method(self) -> Option<Verb> {
        match self.ext.spec_lookup(SERVIENT_KIND) {
            Some(Capability::Http(b)) => b.method,
            _ => None,
        }
    }
}

/// What a property, action or event shares: its forms and the interaction
/// position's contributions.
pub struct Interaction<H> {
    /// The affordance's forms, in declaration order.
    pub forms: Vec<Form<H>>,
    /// Contributions to the interaction-affordance position.
    pub ext: Registry<Capability<H>>,
}

/// A property, action or event of a Thing.
pub struct Affordance<H> {
    /// The interaction: forms and interaction-position contributions.
    pub interaction: Interaction<H>,
    /// Contributions to this affordance kind's position.
    pub ext: Registry<Capability<H>>,
    /// The affordance's data schema, when one is declared.
    pub data_schema: Option<DataSchema<H>>,
}

/// A Thing Description: the finalized schema the route compiler consumes.
pub struct Thing<H> {
    /// The Thing's title.
    pub title: String,
    /// The base URI that the forms' relative hrefs resolve against, when
    /// one is declared.
    pub base: Option<String>,
    /// The properties, by name, in declaration order.
    pub properties: Vec<(String, Affordance<H>)>,
    /// The actions, by name, in declaration order.
    pub actions: Vec<(String, Affordance<H>)>,
    /// The events, by name, in declaration order.
    pub events: Vec<(String, Affordance<H>)>,
    /// The Thing's own top-level forms.
    pub forms: Vec<Form<H>>,
    /// Contributions to the Thing root; the HTTP binding keeps the
    /// [`ServientExtension`] here.
    pub other: Registry<Capability<H>>,
}

/// The forms of a sequence of named affordances, flattened in order.
pub open spec fn affordance_forms<H>(entries: Seq<(String, Affordance<H>)>) -> Seq<Form<H>>
    decreases entries.len(),
{
    if entries.len() == 0 {
        Seq::empty()
    } else {
        affordance_forms(entries.drop_last()) + entries.last().1.interaction.forms@
    }
}

impl<H> Thing<H> {
    /// Every form of the Thing, flattened: the top-level forms, then the
    /// forms of each property, action and event, in declaration order.
    pub open spec fn all_forms(self) -> Seq<Form<H>> {
        self.forms@ + affordance_forms(self.properties@) + affordance_forms(self.actions@)
            + affordance_forms(self.events@)
    }

    /// The HTTP binding's root contribution, when present.
    pub open spec fn servient_ext(self) -> Option<ServientExtension> {
        match self.other.spec_lookup(SERVIENT_KIND) {
            Some(Capability::Servient(e)) => Some(e),
            _ => None,
        }
    }
}

/// A handler the route compiler can copy.
///
/// Handlers are supplied entirely by the embedding application; the library
/// only stores, merges and mounts them.  Mounting needs a copy of each
/// handler, so the handler type says how to make one that is equal.
pub trait CloneHandler: Sized {
    /// An equal copy of the handler.
    fn clone_handler(&self) -> (r: Self)
        ensures
            r == *self,
    ;
}

impl CloneHandler for String {
    fn clone_handler(&self) -> (r: Self)
        ensures
            r == *self,
    {
        self.clone()
    }
}

} // verus!
