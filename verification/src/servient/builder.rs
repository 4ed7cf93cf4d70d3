//! Assembling a servient.
//!
//! The schema is assembled through an open → extend → finalize pipeline.
//! While open, protocol-binding modules register themselves ([`Extension`]):
//! registering one propagates a seed of its contribution into every
//! structural position, through the one registry mechanism, so that every
//! form, affordance and schema node created afterwards carries that module's
//! slot.  The HTTP binding module is registered by [`Servient::builder`]
//! itself; its form slots are filled by the `http_get` … `http_delete`
//! methods of the [`FormBuilder`].
//!
//! [`ThingBuilder::build_servient`] then compiles the finalized schema:
//! every form's href is translated into a route path, the verb→handler
//! tables of forms sharing a path are merged, the canonical document and
//! discovery redirect are mounted, and the advertisement is prepared.

use vstd::prelude::*;

use crate::advertise::{Advertiser, Ipv4};
use crate::registry::{lemma_contains_lookup, Registry};
use crate::template::{spec_translate, uritemplate_to_axum, TemplateError};
use crate::thing::{
    distinct_verbs, verb_set, instantiate_registry, instantiate_seed, registry_from_seeds,
    seed_matches, verb_map, Affordance, Capability, CloneHandler, DataKind, DataSchema, Form,
    FormOperation, HttpAddr, HttpBinding, Interaction, SeedCapability, ServientExtension, Thing,
    Verb, VerbHandler, SERVIENT_KIND,
};

use super::{
    map_of_entries, target_model, BuildError, RouteEntry, RouteTable, RouteTarget, SchemaBuildError,
    Servient, TargetModel,
};

verus! {

/// What one protocol-binding module contributes: its capability kind and one
/// seed for every structural position of the schema.
#[derive(Debug, Clone, Copy, PartialEq, Eq)]
pub struct Extension {
    /// The module's capability kind.
    pub kind: u64,
    /// The seed contributed to the Thing root.
    pub root: SeedCapability,
    /// The seed contributed to every property affordance.
    pub property: SeedCapability,
    /// The seed contributed to every action affordance.
    pub action: SeedCapability,
    /// The seed contributed to every event affordance.
    pub event: SeedCapability,
    /// The seed contributed to every interaction affordance.
    pub interaction: SeedCapability,
    /// The seed contributed to every form.
    pub form: SeedCapability,
    /// The seed contributed to every expected response.
    pub response: SeedCapability,
    /// The seed contributed to every data schema.
    pub data_schema: SeedCapability,
    /// The seed contributed to every object schema.
    pub object_schema: SeedCapability,
    /// The seed contributed to every array schema.
    pub array_schema: SeedCapability,
}

impl Extension {
    /// A module that contributes no data anywhere: the smallest well-formed
    /// extension, useful to reserve a capability kind.
    pub fn inert(kind: u64) -> (e: Extension)
        ensures
            e.kind == kind,
            e.root is Inert && e.property is Inert && e.action is Inert && e.event is Inert
                && e.interaction is Inert && e.form is Inert && e.response is Inert
                && e.data_schema is Inert && e.object_schema is Inert && e.array_schema is Inert,
    {
        Extension {
            kind,
            root: SeedCapability::Inert,
            property: SeedCapability::Inert,
            action: SeedCapability::Inert,
            event: SeedCapability::Inert,
            interaction: SeedCapability::Inert,
            form: SeedCapability::Inert,
            response: SeedCapability::Inert,
            data_schema: SeedCapability::Inert,
            object_schema: SeedCapability::Inert,
            array_schema: SeedCapability::Inert,
        }
    }

    /// The HTTP binding module: the servient configuration at the root, a
    /// verb→handler table on every form, nothing anywhere else.
    pub fn servient() -> (e: Extension)
        ensures
            e.kind == SERVIENT_KIND,
            e.root matches SeedCapability::Servient(x) && x.addr is None && x.thing_type is Thing
                && x.permissive_cors,
            e.form is Http,
            e.property is Inert && e.action is Inert && e.event is Inert && e.interaction is Inert
                && e.response is Inert && e.data_schema is Inert && e.object_schema is Inert
                && e.array_schema is Inert,
    {
        Extension {
            kind: SERVIENT_KIND,
            root: SeedCapability::Servient(ServientExtension::default()),
            form: SeedCapability::Http,
            ..Extension::inert(SERVIENT_KIND)
        }
    }
}

/// The per-position seed registries: what each structural position starts
/// with when it is created during assembly.
pub struct PositionSeeds {
    /// Seeds for property affordances.
    pub property: Registry<SeedCapability>,
    /// Seeds for action affordances.
    pub action: Registry<SeedCapability>,
    /// Seeds for event affordances.
    pub event: Registry<SeedCapability>,
    /// Seeds for interaction affordances.
    pub interaction: Registry<SeedCapability>,
    /// Seeds for forms.
    pub form: Registry<SeedCapability>,
    /// Seeds for expected responses.
    pub response: Registry<SeedCapability>,
    /// Seeds for data schemas.
    pub data_schema: Registry<SeedCapability>,
    /// Seeds for object schemas.
    pub object_schema: Registry<SeedCapability>,
    /// Seeds for array schemas.
    pub array_schema: Registry<SeedCapability>,
}

/// Every position holds every registered module's seed: same kinds as the
/// root, everywhere, in the same order.
pub open spec fn seeds_wf(s: PositionSeeds, kinds: Seq<u64>) -> bool {
    &&& s.property.wf() && s.property.kinds() == kinds
    &&& s.action.wf() && s.action.kinds() == kinds
    &&& s.event.wf() && s.event.kinds() == kinds
    &&& s.interaction.wf() && s.interaction.kinds() == kinds
    &&& s.form.wf() && s.form.kinds() == kinds
    &&& s.response.wf() && s.response.kinds() == kinds
    &&& s.data_schema.wf() && s.data_schema.kinds() == kinds
    &&& s.object_schema.wf() && s.object_schema.kinds() == kinds
    &&& s.array_schema.wf() && s.array_schema.kinds() == kinds
}

/// A registry holding one contribution.
fn singleton_registry<V>(kind: u64, value: V) -> (r: Registry<V>)
    ensures
        r.wf(),
        r.kinds() == seq![kind],
        r.spec_lookup(kind) == Some(value),
        forall|k: u64| k != kind ==> r.spec_lookup(k) is None,
        r.spec_contains(kind),
{
    let e: Registry<V> = Registry::empty();
    match e.extend(kind, value) {
        Ok(r) => {
            proof {
                assert(r.kinds() =~= seq![kind]);
                lemma_contains_lookup(r, kind);
            }
            r
        },
        Err(_) => {
            proof {
                assert(false);
            }
            Registry::empty()
        },
    }
}

/// Builder for a [`Thing`] and the [`Servient`] that serves it.
///
/// Created by [`Servient::builder`]; modules register with
/// [`ThingBuilder::ext`] until [`ThingBuilder::finish_extend`], then content
/// is added and [`ThingBuilder::build_servient`] compiles the result.
pub struct ThingBuilder<H> {
    /// The schema as assembled so far.
    pub thing: Thing<H>,
    /// The seed registries for positions created later.
    pub seeds: PositionSeeds,
    /// Whether the extension phase is finished.
    pub extended: bool,
}

impl<H> ThingBuilder<H> {
    /// The builder's invariant: an unambiguous root registry, every seed
    /// position shaped like the root, and the HTTP binding module present.
    pub open spec fn wf(self) -> bool {
        &&& self.thing.other.wf()
        &&& seeds_wf(self.seeds, self.thing.other.kinds())
        &&& self.thing.servient_ext() is Some
        &&& self.seeds.form.spec_lookup(SERVIENT_KIND) == Some(SeedCapability::Http)
    }
}

impl<H> Servient<H> {
    /// Instantiate a ThingBuilder with its Form augmented with the
    /// `http_get` … `http_delete` methods.
    ///
    /// By default it sets the CORS headers to allow any origin; disable
    /// that by calling [`ThingBuilder::http_disable_permissive_cors`].
    pub fn builder(title: &str) -> (b: ThingBuilder<H>)
        ensures
            b.wf(),
            !b.extended,
            b.thing.title@ == title@,
            b.thing.base is None,
            b.thing.properties@.len() == 0,
            b.thing.actions@.len() == 0,
            b.thing.events@.len() == 0,
            b.thing.forms@.len() == 0,
            b.thing.other.kinds() == seq![SERVIENT_KIND],
            b.thing.servient_ext() matches Some(e) && e.addr is None && e.thing_type is Thing
                && e.permissive_cors,
    {
        let e = Extension::servient();
        let b = ThingBuilder {
            thing: Thing {
                title: title.to_owned(),
                base: None,
                properties: Vec::new(),
                actions: Vec::new(),
                events: Vec::new(),
                forms: Vec::new(),
                other: singleton_registry(e.kind, instantiate_seed(e.root)),
            },
            seeds: PositionSeeds {
                property: singleton_registry(e.kind, e.property),
                action: singleton_registry(e.kind, e.action),
                event: singleton_registry(e.kind, e.event),
                interaction: singleton_registry(e.kind, e.interaction),
                form: singleton_registry(e.kind, e.form),
                response: singleton_registry(e.kind, e.response),
                data_schema: singleton_registry(e.kind, e.data_schema),
                object_schema: singleton_registry(e.kind, e.object_schema),
                array_schema: singleton_registry(e.kind, e.array_schema),
            },
            extended: false,
        };
        b
    }
}

/// Two registries over the same kinds hold the same kinds.
proof fn lemma_contains_same_kinds<A, B>(x: Registry<A>, y: Registry<B>, k: u64)
    requires
        x.kinds() == y.kinds(),
    ensures
        x.spec_contains(k) == y.spec_contains(k),
{
    assert(x.kinds().len() == x.slots@.len());
    assert(y.kinds().len() == y.slots@.len());
    if x.spec_contains(k) {
        let i = choose|i: int| 0 <= i < x.slots@.len() && x.slots@[i].kind == k;
        assert(x.kinds()[i] == k);
        assert(y.slots@[i].kind == k);
    }
    if y.spec_contains(k) {
        let i = choose|i: int| 0 <= i < y.slots@.len() && y.slots@[i].kind == k;
        assert(y.kinds()[i] == k);
        assert(x.slots@[i].kind == k);
    }
}

impl<H> ThingBuilder<H> {
    /// Register one more protocol-binding module.
    ///
    /// One uniform step extends the root and every position's seed registry
    /// with the module's contribution, so every structural position created
    /// from here on carries the module's slot.  Registering a kind twice is
    /// a construction-time error, as is registering once the extension
    /// phase is finished.
    pub fn ext(self, e: Extension) -> (r: Result<ThingBuilder<H>, SchemaBuildError>)
        requires
            self.wf(),
        ensures
            self.extended ==> r matches Err(SchemaBuildError::ExtendAfterFinish),
            !self.extended && self.thing.other.spec_contains(e.kind) ==> r matches Err(
                SchemaBuildError::DuplicateCapability,
            ),
            !self.extended && !self.thing.other.spec_contains(e.kind) ==> (r matches Ok(b) && {
                &&& b.wf()
                &&& !b.extended
                &&& b.thing.title == self.thing.title
                &&& b.thing.base == self.thing.base
                &&& b.thing.properties == self.thing.properties
                &&& b.thing.actions == self.thing.actions
                &&& b.thing.events == self.thing.events
                &&& b.thing.forms == self.thing.forms
                &&& b.thing.other.kinds() == self.thing.other.kinds().push(e.kind)
                &&& (b.thing.other.spec_lookup(e.kind) matches Some(c) && seed_matches(e.root, c))
                &&& forall|k: u64|
                    k != e.kind ==> b.thing.other.spec_lookup(k) == self.thing.other.spec_lookup(k)
                &&& b.seeds.form.spec_lookup(e.kind) == Some(e.form)
                &&& b.seeds.property.spec_lookup(e.kind) == Some(e.property)
                &&& b.seeds.action.spec_lookup(e.kind) == Some(e.action)
                &&& b.seeds.event.spec_lookup(e.kind) == Some(e.event)
                &&& b.seeds.interaction.spec_lookup(e.kind) == Some(e.interaction)
                &&& b.seeds.response.spec_lookup(e.kind) == Some(e.response)
                &&& b.seeds.data_schema.spec_lookup(e.kind) == Some(e.data_schema)
                &&& b.seeds.object_schema.spec_lookup(e.kind) == Some(e.object_schema)
                &&& b.seeds.array_schema.spec_lookup(e.kind) == Some(e.array_schema)
            }),
    {
        if self.extended {
            return Err(SchemaBuildError::ExtendAfterFinish);
        }
        if self.thing.other.contains(e.kind) {
            return Err(SchemaBuildError::DuplicateCapability);
        }
        proof {
            lemma_contains_lookup(self.thing.other, SERVIENT_KIND);
            lemma_contains_same_kinds(self.thing.other, self.seeds.property, e.kind);
            lemma_contains_same_kinds(self.thing.other, self.seeds.action, e.kind);
            lemma_contains_same_kinds(self.thing.other, self.seeds.event, e.kind);
            lemma_contains_same_kinds(self.thing.other, self.seeds.interaction, e.kind);
            lemma_contains_same_kinds(self.thing.other, self.seeds.form, e.kind);
            lemma_contains_same_kinds(self.thing.other, self.seeds.response, e.kind);
            lemma_contains_same_kinds(self.thing.other, self.seeds.data_schema, e.kind);
            lemma_contains_same_kinds(self.thing.other, self.seeds.object_schema, e.kind);
            lemma_contains_same_kinds(self.thing.other, self.seeds.array_schema, e.kind);
        }
        let ThingBuilder { thing, seeds, extended } = self;
        let Thing { title, base, properties, actions, events, forms, other } = thing;
        let other = extend_or_same(other, e.kind, instantiate_seed(e.root));
        let seeds = PositionSeeds {
            property: extend_or_same(seeds.property, e.kind, e.property),
            action: extend_or_same(seeds.action, e.kind, e.action),
            event: extend_or_same(seeds.event, e.kind, e.event),
            interaction: extend_or_same(seeds.interaction, e.kind, e.interaction),
            form: extend_or_same(seeds.form, e.kind, e.form),
            response: extend_or_same(seeds.response, e.kind, e.response),
            data_schema: extend_or_same(seeds.data_schema, e.kind, e.data_schema),
            object_schema: extend_or_same(seeds.object_schema, e.kind, e.object_schema),
            array_schema: extend_or_same(seeds.array_schema, e.kind, e.array_schema),
        };
        proof {
            lemma_contains_lookup(other, SERVIENT_KIND);
        }
        Ok(
            ThingBuilder {
                thing: Thing { title, base, properties, actions, events, forms, other },
                seeds,
                extended,
            },
        )
    }

    /// Close the extension phase: no module can register afterwards, so the
    /// capability chain's shape is fixed from here on.
    pub fn finish_extend(self) -> (r: ThingBuilder<H>)
        ensures
            r == (ThingBuilder { extended: true, ..self }),
    {
        ThingBuilder { extended: true, ..self }
    }

    /// Declare the base URI that the forms' relative hrefs resolve against.
    pub fn base(self, value: &str) -> (r: ThingBuilder<H>)
        ensures
            r.thing.base matches Some(b) && b@ == value@,
            r.thing.title == self.thing.title && r.thing.properties == self.thing.properties
                && r.thing.actions == self.thing.actions && r.thing.events == self.thing.events
                && r.thing.forms == self.thing.forms && r.thing.other == self.thing.other,
            r.seeds == self.seeds && r.extended == self.extended,
            self.wf() ==> r.wf(),
    {
        let ThingBuilder { thing, seeds, extended } = self;
        ThingBuilder { thing: Thing { base: Some(value.to_owned()), ..thing }, seeds, extended }
    }
}

/// The views of a sequence of strings.
pub open spec fn str_views(s: Seq<String>) -> Seq<Seq<char>> {
    s.map_values(|x: String| x@)
}

/// Builder for one [`Form`].
///
/// Created seeded by [`ThingBuilder::form_builder`], so it already carries
/// every registered module's slot; handed back through
/// [`ThingBuilder::form`] or [`AffordanceBuilder::form`].
pub struct FormBuilder<H> {
    /// The href, a URI Template; a form without one cannot be built.
    pub href: Option<String>,
    /// The declared operations.
    pub ops: Vec<FormOperation>,
    /// The declared content type.
    pub content_type: Option<String>,
    /// The security definitions that must be satisfied.
    pub security: Vec<String>,
    /// The authorization scope identifiers.
    pub scopes: Vec<String>,
    /// The verb the form declares as its method.
    pub method: Option<Verb>,
    /// The verb→handler table bound so far.
    pub handlers: Vec<VerbHandler<H>>,
    /// The form position's capability registry.
    pub ext: Registry<Capability<H>>,
    /// The expected-response position's capability registry.
    pub response_ext: Registry<Capability<H>>,
}

impl<H> FormBuilder<H> {
    /// The draft's invariant: unambiguous registries, at most one handler
    /// per verb, and the HTTP binding's slot present on the form.
    pub open spec fn wf(self) -> bool {
        &&& self.ext.wf()
        &&& self.response_ext.wf()
        &&& distinct_verbs(self.handlers@)
        &&& self.ext.spec_contains(SERVIENT_KIND)
    }

    /// Everything but the named fields is unchanged.
    pub open spec fn same_but_href(self, o: FormBuilder<H>) -> bool {
        self.ops == o.ops && self.content_type == o.content_type && self.security == o.security
            && self.scopes == o.scopes && self.method == o.method && self.handlers == o.handlers
            && self.ext == o.ext && self.response_ext == o.response_ext
    }

    /// Set the href.
    pub fn href(self, value: &str) -> (r: FormBuilder<H>)
        ensures
            r.href matches Some(h) && h@ == value@,
            r.same_but_href(self),
            self.wf() ==> r.wf(),
    {
        FormBuilder { href: Some(value.to_owned()), ..self }
    }

    /// Declare one more operation for the form.
    pub fn op(self, new_op: FormOperation) -> (r: FormBuilder<H>)
        ensures
            r.ops@ == self.ops@.push(new_op),
            r.href == self.href && r.content_type == self.content_type && r.security
                == self.security && r.scopes == self.scopes && r.method == self.method
                && r.handlers == self.handlers && r.ext == self.ext && r.response_ext
                == self.response_ext,
            self.wf() ==> r.wf(),
    {
        let mut ops = self.ops;
        ops.push(new_op);
        FormBuilder { ops, ..self }
    }

    /// Add a security definition that must be satisfied to access the
    /// resource.
    pub fn security(self, value: &str) -> (r: FormBuilder<H>)
        ensures
            str_views(r.security@) == str_views(self.security@).push(value@),
            r.href == self.href && r.ops == self.ops && r.content_type == self.content_type
                && r.scopes == self.scopes && r.method == self.method && r.handlers
                == self.handlers && r.ext == self.ext && r.response_ext == self.response_ext,
            self.wf() ==> r.wf(),
    {
        let mut security = self.security;
        security.push(value.to_owned());
        proof {
            assert(str_views(security@) =~= str_views(self.security@).push(value@));
        }
        FormBuilder { security, ..self }
    }

    /// Add an authorization scope identifier.
    pub fn scope(self, value: &str) -> (r: FormBuilder<H>)
        ensures
            str_views(r.scopes@) == str_views(self.scopes@).push(value@),
            r.href == self.href && r.ops == self.ops && r.content_type == self.content_type
                && r.security == self.security && r.method == self.method && r.handlers
                == self.handlers && r.ext == self.ext && r.response_ext == self.response_ext,
            self.wf() ==> r.wf(),
    {
        let mut scopes = self.scopes;
        scopes.push(value.to_owned());
        proof {
            assert(str_views(scopes@) =~= str_views(self.scopes@).push(value@));
        }
        FormBuilder { scopes, ..self }
    }

    /// Declare the content type the form serves.
    pub fn content_type(self, value: &str) -> (r: FormBuilder<H>)
        ensures
            r.content_type matches Some(c) && c@ == value@,
            r.href == self.href && r.ops == self.ops && r.security == self.security && r.scopes
                == self.scopes && r.method == self.method && r.handlers == self.handlers && r.ext
                == self.ext && r.response_ext == self.response_ext,
            self.wf() ==> r.wf(),
    {
        FormBuilder { content_type: Some(value.to_owned()), ..self }
    }

    /// Replace another module's contribution on this form.
    ///
    /// The HTTP binding's own slot is managed by the `http_*` methods.
    pub fn ext(self, kind: u64, value: Capability<H>) -> (r: FormBuilder<H>)
        requires
            self.wf(),
            kind != SERVIENT_KIND,
        ensures
            r.wf(),
            r.ext.kinds() == self.ext.kinds(),
            self.ext.spec_contains(kind) ==> r.ext.spec_lookup(kind) == Some(value),
            !self.ext.spec_contains(kind) ==> r.ext == self.ext,
            forall|k: u64| k != kind ==> r.ext.spec_lookup(k) == self.ext.spec_lookup(k),
            r.href == self.href && r.ops == self.ops && r.content_type == self.content_type
                && r.security == self.security && r.scopes == self.scopes && r.method
                == self.method && r.handlers == self.handlers && r.response_ext
                == self.response_ext,
    {
        let mut ext = self.ext;
        let found = ext.set_value(kind, value);
        proof {
            if !found {
                assert(ext == self.ext);
            }
            lemma_contains_lookup(self.ext, SERVIENT_KIND);
            lemma_contains_lookup(ext, SERVIENT_KIND);
            lemma_contains_same_kinds(ext, self.ext, SERVIENT_KIND);
        }
        FormBuilder { ext, ..self }
    }

    /// Bind a handler to a verb and declare that verb as the form's method.
    fn bind_http(self, verb: Verb, handler: H) -> (r: FormBuilder<H>)
        requires
            self.wf(),
        ensures
            r.wf(),
            r.method == Some(verb),
            verb_map(r.handlers@) == verb_map(self.handlers@).insert(verb, handler),
            r.href == self.href && r.ops == self.ops && r.content_type == self.content_type
                && r.security == self.security && r.scopes == self.scopes && r.ext == self.ext
                && r.response_ext == self.response_ext,
    {
        let mut handlers = self.handlers;
        upsert_handler(&mut handlers, verb, handler);
        FormBuilder { method: Some(verb), handlers, ..self }
    }

    /// Route GET requests to the given handler.
    pub fn http_get(self, handler: H) -> (r: FormBuilder<H>)
        requires
            self.wf(),
        ensures
            r.wf(),
            r.method == Some(Verb::Get),
            verb_map(r.handlers@) == verb_map(self.handlers@).insert(Verb::Get, handler),
            r.href == self.href && r.ops == self.ops && r.content_type == self.content_type
                && r.security == self.security && r.scopes == self.scopes && r.ext == self.ext
                && r.response_ext == self.response_ext,
    {
        self.bind_http(Verb::Get, handler)
    }

    /// Route PUT requests to the given handler.
    pub fn http_put(self, handler: H) -> (r: FormBuilder<H>)
        requires
            self.wf(),
        ensures
            r.wf(),
            r.method == Some(Verb::Put),
            verb_map(r.handlers@) == verb_map(self.handlers@).insert(Verb::Put, handler),
            r.href == self.href && r.ops == self.ops && r.content_type == self.content_type
                && r.security == self.security && r.scopes == self.scopes && r.ext == self.ext
                && r.response_ext == self.response_ext,
    {
        self.bind_http(Verb::Put, handler)
    }

    /// Route POST requests to the given handler.
    pub fn http_post(self, handler: H) -> (r: FormBuilder<H>)
        requires
            self.wf(),
        ensures
            r.wf(),
            r.method == Some(Verb::Post),
            verb_map(r.handlers@) == verb_map(self.handlers@).insert(Verb::Post, handler),
            r.href == self.href && r.ops == self.ops && r.content_type == self.content_type
                && r.security == self.security && r.scopes == self.scopes && r.ext == self.ext
                && r.response_ext == self.response_ext,
    {
        self.bind_http(Verb::Post, handler)
    }

    /// Route PATCH requests to the given handler.
    pub fn http_patch(self, handler: H) -> (r: FormBuilder<H>)
        requires
            self.wf(),
        ensures
            r.wf(),
            r.method == Some(Verb::Patch),
            verb_map(r.handlers@) == verb_map(self.handlers@).insert(Verb::Patch, handler),
            r.href == self.href && r.ops == self.ops && r.content_type == self.content_type
                && r.security == self.security && r.scopes == self.scopes && r.ext == self.ext
                && r.response_ext == self.response_ext,
    {
        self.bind_http(Verb::Patch, handler)
    }

    /// Route DELETE requests to the given handler.
    pub fn http_delete(self, handler: H) -> (r: FormBuilder<H>)
        requires
            self.wf(),
        ensures
            r.wf(),
            r.method == Some(Verb::Delete),
            verb_map(r.handlers@) == verb_map(self.handlers@).insert(Verb::Delete, handler),
            r.href == self.href && r.ops == self.ops && r.content_type == self.content_type
                && r.security == self.security && r.scopes == self.scopes && r.ext == self.ext
                && r.response_ext == self.response_ext,
    {
        self.bind_http(Verb::Delete, handler)
    }
}

/// Bind a verb, replacing an earlier binding of the same verb.
#[verifier::loop_isolation(false)]
fn upsert_handler<H>(handlers: &mut Vec<VerbHandler<H>>, verb: Verb, handler: H)
    requires
        distinct_verbs(old(handlers)@),
    ensures
        distinct_verbs(final(handlers)@),
        verb_map(final(handlers)@) == verb_map(old(handlers)@).insert(verb, handler),
{
    let n = handlers.len();
    let mut i: usize = 0;
    while i < n
        invariant
            i <= n == handlers@.len(),
            *handlers == *old(handlers),
            forall|j: int| 0 <= j < i ==> handlers@[j].verb != verb,
        decreases n - i,
    {
        if handlers[i].verb == verb {
            let ghost before = handlers@;
            let h = &mut handlers[i];
            h.handler = handler;
            proof {
                assert(handlers@ == before.update(i as int, VerbHandler { verb, handler }));
                crate::thing::lemma_verb_map_update(
                    before,
                    i as int,
                    VerbHandler { verb, handler },
                );
                assert forall|x: int, y: int|
                    0 <= x < y < handlers@.len() implies handlers@[x].verb
                    != handlers@[y].verb by {
                    assert(handlers@[x].verb == before[x].verb);
                    assert(handlers@[y].verb == before[y].verb);
                }
            }
            return ;
        }
        i = i + 1;
    }
    let ghost before = handlers@;
    handlers.push(VerbHandler { verb, handler });
    proof {
        crate::thing::lemma_verb_map_push(before, VerbHandler { verb, handler });
        assert forall|x: int, y: int|
            0 <= x < y < handlers@.len() implies handlers@[x].verb != handlers@[y].verb by {
            if y < before.len() {
                assert(handlers@[x] == before[x]);
                assert(handlers@[y] == before[y]);
            } else {
                assert(handlers@[x] == before[x]);
                assert(handlers@[y].verb == verb);
            }
        }
    }
}

/// Builder for one [`Affordance`]: a property, action or event.
///
/// Created seeded by [`ThingBuilder::affordance_builder`]; which affordance
/// kind it becomes is decided when it is attached with
/// [`ThingBuilder::property`], [`ThingBuilder::action`] or
/// [`ThingBuilder::event`].
pub struct AffordanceBuilder<H> {
    /// The interaction position's capability registry.
    pub interaction_ext: Registry<Capability<H>>,
    /// The data schema, when one is declared.
    pub data_schema: Option<DataSchema<H>>,
    /// The affordance's form drafts, in declaration order.
    pub forms: Vec<FormBuilder<H>>,
    /// Seeds for a data schema declared later.
    pub data_schema_seeds: Registry<SeedCapability>,
    /// Seeds for its object facet.
    pub object_schema_seeds: Registry<SeedCapability>,
    /// Seeds for its array facet.
    pub array_schema_seeds: Registry<SeedCapability>,
}

impl<H> AffordanceBuilder<H> {
    /// The draft's invariant: well-formed drafts and registries.
    pub open spec fn wf(self) -> bool {
        &&& self.interaction_ext.wf()
        &&& forall|i: int| 0 <= i < self.forms@.len() ==> self.forms@[i].wf()
        &&& self.data_schema_seeds.wf()
        &&& self.object_schema_seeds.wf()
        &&& self.array_schema_seeds.wf()
    }

    /// Add a form to the affordance.
    pub fn form(self, f: FormBuilder<H>) -> (r: AffordanceBuilder<H>)
        ensures
            r.forms@ == self.forms@.push(f),
            r.interaction_ext == self.interaction_ext && r.data_schema == self.data_schema
                && r.data_schema_seeds == self.data_schema_seeds && r.object_schema_seeds
                == self.object_schema_seeds && r.array_schema_seeds == self.array_schema_seeds,
            self.wf() && f.wf() ==> r.wf(),
    {
        let mut forms = self.forms;
        forms.push(f);
        proof {
            if self.wf() && f.wf() {
                assert forall|i: int| 0 <= i < forms@.len() implies forms@[i].wf() by {
                    if i < self.forms@.len() {
                        assert(forms@[i] == self.forms@[i]);
                    }
                }
            }
        }
        AffordanceBuilder { forms, ..self }
    }

    /// Declare the affordance's data schema, typed `kind`, its three
    /// capability positions seeded from the registered modules.
    pub fn schema(self, kind: DataKind) -> (r: AffordanceBuilder<H>)
        requires
            self.wf(),
        ensures
            r.wf(),
            r.data_schema matches Some(d) && {
                &&& d.kind == kind
                &&& registry_from_seeds(self.data_schema_seeds, d.ext)
                &&& registry_from_seeds(self.object_schema_seeds, d.object_ext)
                &&& registry_from_seeds(self.array_schema_seeds, d.array_ext)
            },
            r.interaction_ext == self.interaction_ext && r.forms == self.forms
                && r.data_schema_seeds == self.data_schema_seeds && r.object_schema_seeds
                == self.object_schema_seeds && r.array_schema_seeds == self.array_schema_seeds,
    {
        let d = DataSchema {
            kind,
            ext: instantiate_registry(&self.data_schema_seeds),
            object_ext: instantiate_registry(&self.object_schema_seeds),
            array_ext: instantiate_registry(&self.array_schema_seeds),
        };
        AffordanceBuilder { data_schema: Some(d), ..self }
    }
}

/// Whether `f` is the form packed from draft `fb`: same declared data, and
/// the draft's verb→handler table stored as the HTTP binding's form
/// contribution.
pub open spec fn packed_form_rel<H>(fb: FormBuilder<H>, f: Form<H>) -> bool {
    &&& fb.href matches Some(h) && f.href == h
    &&& f.ops == fb.ops
    &&& f.content_type == fb.content_type
    &&& f.security == fb.security
    &&& f.scopes == fb.scopes
    &&& f.response_ext == fb.response_ext
    &&& f.ext.wf()
    &&& f.ext.kinds() == fb.ext.kinds()
    &&& (f.ext.spec_lookup(SERVIENT_KIND) matches Some(c) && (c matches Capability::Http(b)
        && b.method == fb.method && b.handlers == fb.handlers))
    &&& forall|k: u64| k != SERVIENT_KIND ==> f.ext.spec_lookup(k) == fb.ext.spec_lookup(k)
}

/// Why a draft cannot be packed, if it cannot: no href, or a capability
/// chain shaped before the last module was registered.
pub open spec fn spec_pack_err<H>(fb: FormBuilder<H>, kinds: Seq<u64>) -> Option<
    SchemaBuildError,
> {
    if fb.href is None {
        Some(SchemaBuildError::MissingFormHref)
    } else if fb.ext.kinds() != kinds || fb.response_ext.kinds() != kinds {
        Some(SchemaBuildError::CapabilityShapeMismatch)
    } else {
        None
    }
}

/// Whether two registries hold the same kinds in the same order.
fn kinds_eq<A, B>(x: &Registry<A>, y: &Registry<B>) -> (r: bool)
    ensures
        r == (x.kinds() == y.kinds()),
{
    let n = x.slots.len();
    if n != y.slots.len() {
        proof {
            assert(x.kinds().len() != y.kinds().len());
        }
        return false;
    }
    let mut i: usize = 0;
    while i < n
        invariant
            i <= n == x.slots@.len(),
            n == y.slots@.len(),
            forall|j: int| 0 <= j < i ==> x.kinds()[j] == y.kinds()[j],
        decreases n - i,
    {
        if x.slots[i].kind != y.slots[i].kind {
            proof {
                assert(x.kinds()[i as int] != y.kinds()[i as int]);
            }
            return false;
        }
        proof {
            assert(x.kinds()[i as int] == x.slots@[i as int].kind);
            assert(y.kinds()[i as int] == y.slots@[i as int].kind);
        }
        i = i + 1;
    }
    proof {
        assert(x.kinds() =~= y.kinds());
    }
    true
}

/// Pack one form draft against the root's capability shape.
fn pack_form<H>(fb: FormBuilder<H>, root: &Registry<Capability<H>>) -> (r: Result<
    Form<H>,
    SchemaBuildError,
>)
    requires
        fb.wf(),
    ensures
        match spec_pack_err(fb, root.kinds()) {
            Some(e) => r matches Err(e2) && e2 == e,
            None => r matches Ok(f) && packed_form_rel(fb, f),
        },
{
    let FormBuilder { href, ops, content_type, security, scopes, method, handlers, ext, response_ext } =
        fb;
    let href = match href {
        Some(h) => h,
        None => {
            return Err(SchemaBuildError::MissingFormHref);
        },
    };
    if !kinds_eq(&ext, root) || !kinds_eq(&response_ext, root) {
        return Err(SchemaBuildError::CapabilityShapeMismatch);
    }
    let mut ext = ext;
    let found = ext.set_value(SERVIENT_KIND, Capability::Http(HttpBinding { method, handlers }));
    proof {
        lemma_contains_lookup(fb.ext, SERVIENT_KIND);
        assert(found);
        lemma_contains_same_kinds(ext, fb.ext, SERVIENT_KIND);
    }
    Ok(Form { href, ops, content_type, security, scopes, ext, response_ext })
}

/// The first reason some draft of a sequence cannot be packed, if any.
pub open spec fn spec_first_form_err<H>(drafts: Seq<FormBuilder<H>>, kinds: Seq<u64>) -> Option<
    SchemaBuildError,
>
    decreases drafts.len(),
{
    if drafts.len() == 0 {
        None
    } else {
        match spec_pack_err(drafts.first(), kinds) {
            Some(e) => Some(e),
            None => spec_first_form_err(drafts.drop_first(), kinds),
        }
    }
}

/// A scan that packed every draft before `i`, and stopped on an error at
/// `i` or at the end, determines the first error.
proof fn lemma_first_form_err_at<H>(drafts: Seq<FormBuilder<H>>, kinds: Seq<u64>, i: int)
    requires
        0 <= i <= drafts.len(),
        forall|j: int| 0 <= j < i ==> spec_pack_err(#[trigger] drafts[j], kinds) is None,
        i < drafts.len() ==> spec_pack_err(drafts[i], kinds) is Some,
    ensures
        spec_first_form_err(drafts, kinds) == if i < drafts.len() {
            spec_pack_err(drafts[i], kinds)
        } else {
            None::<SchemaBuildError>
        },
    decreases i,
{
    if i == 0 {
        if drafts.len() > 0 {
            assert(drafts.first() == drafts[0]);
        }
    } else {
        let rest = drafts.drop_first();
        assert(spec_pack_err(drafts[0], kinds) is None);
        assert forall|j: int| 0 <= j < i - 1 implies spec_pack_err(
            #[trigger] rest[j],
            kinds,
        ) is None by {
            assert(rest[j] == drafts[j + 1]);
        }
        if i < drafts.len() {
            assert(rest[i - 1] == drafts[i]);
        }
        lemma_first_form_err_at(rest, kinds, i - 1);
    }
}

/// Whether `aff` is the affordance packed from draft `a`, its own position
/// seeded from `seeds`.
pub open spec fn affordance_rel<H>(
    a: AffordanceBuilder<H>,
    seeds: Registry<SeedCapability>,
    aff: Affordance<H>,
) -> bool {
    &&& aff.interaction.forms@.len() == a.forms@.len()
    &&& forall|j: int|
        0 <= j < a.forms@.len() ==> packed_form_rel(a.forms@[j], aff.interaction.forms@[j])
    &&& aff.interaction.ext == a.interaction_ext
    &&& aff.data_schema == a.data_schema
    &&& registry_from_seeds(seeds, aff.ext)
}

/// Pack one affordance draft: every form against the root's shape, and the
/// affordance position seeded for its kind.
#[verifier::loop_isolation(false)]
fn pack_affordance<H>(
    a: AffordanceBuilder<H>,
    root: &Registry<Capability<H>>,
    kind_seeds: &Registry<SeedCapability>,
) -> (r: Result<Affordance<H>, SchemaBuildError>)
    requires
        a.wf(),
        kind_seeds.wf(),
    ensures
        match spec_first_form_err(a.forms@, root.kinds()) {
            Some(e) => r matches Err(e2) && e2 == e,
            None => r matches Ok(aff) && affordance_rel(a, *kind_seeds, aff),
        },
{
    let ghost drafts = a.forms@;
    let AffordanceBuilder { interaction_ext, data_schema, forms, .. } = a;
    let mut forms = forms;
    let mut packed: Vec<Form<H>> = Vec::new();
    let ghost mut i: int = 0;
    let ghost n = drafts.len();
    while forms.len() > 0
        invariant
            0 <= i,
            i + forms@.len() == n,
            forms@ == drafts.skip(i),
            packed@.len() == i,
            forall|j: int| 0 <= j < i ==> spec_pack_err(#[trigger] drafts[j], root.kinds()) is None,
            forall|j: int| 0 <= j < i ==> packed_form_rel(drafts[j], packed@[j]),
            forall|j: int| 0 <= j < drafts.len() ==> (#[trigger] drafts[j]).wf(),
        decreases forms@.len(),
    {
        let ghost before = forms@;
        let fb = forms.remove(0);
        proof {
            assert(before[0] == drafts.skip(i)[0]);
            assert(drafts.skip(i)[0] == drafts[i]);
            assert forall|j: int| 0 <= j < forms@.len() implies forms@[j] == drafts.skip(i + 1)[j] by {
                assert(forms@[j] == before.remove(0)[j]);
                assert(before.remove(0)[j] == before[j + 1]);
                assert(before[j + 1] == drafts.skip(i)[j + 1]);
                assert(drafts.skip(i)[j + 1] == drafts[i + 1 + j]);
                assert(drafts.skip(i + 1)[j] == drafts[i + 1 + j]);
            }
            assert(forms@ =~= drafts.skip(i + 1));
        }
        match pack_form(fb, root) {
            Ok(f) => {
                packed.push(f);
            },
            Err(e) => {
                proof {
                    lemma_first_form_err_at(drafts, root.kinds(), i);
                }
                return Err(e);
            },
        }
        proof {
            i = i + 1;
        }
    }
    proof {
        lemma_first_form_err_at(drafts, root.kinds(), n as int);
    }
    Ok(
        Affordance {
            interaction: Interaction { forms: packed, ext: interaction_ext },
            ext: instantiate_registry(kind_seeds),
            data_schema,
        },
    )
}

/// Whether `entries` holds an affordance named `n`.
pub open spec fn names_contain<H>(entries: Seq<(String, Affordance<H>)>, n: Seq<char>) -> bool {
    exists|i: int| 0 <= i < entries.len() && entries[i].0@ == n
}

/// Whether `entries` holds an affordance named `name`.
fn contains_name<H>(entries: &Vec<(String, Affordance<H>)>, name: &String) -> (r: bool)
    ensures
        r == names_contain(entries@, name@),
{
    let n = entries.len();
    let mut i: usize = 0;
    while i < n
        invariant
            i <= n == entries@.len(),
            forall|j: int| 0 <= j < i ==> entries@[j].0@ != name@,
        decreases n - i,
    {
        if entries[i].0 == *name {
            return true;
        }
        i = i + 1;
    }
    false
}

impl<H> ThingBuilder<H> {
    /// A fresh form draft, seeded with every registered module's form and
    /// expected-response contribution.
    pub fn form_builder(&self) -> (f: FormBuilder<H>)
        requires
            self.wf(),
        ensures
            f.wf(),
            f.href is None,
            f.ops@.len() == 0,
            f.content_type is None,
            f.security@.len() == 0,
            f.scopes@.len() == 0,
            f.method is None,
            f.handlers@.len() == 0,
            registry_from_seeds(self.seeds.form, f.ext),
            registry_from_seeds(self.seeds.response, f.response_ext),
    {
        let ext = instantiate_registry(&self.seeds.form);
        proof {
            lemma_contains_lookup(ext, SERVIENT_KIND);
        }
        FormBuilder {
            href: None,
            ops: Vec::new(),
            content_type: None,
            security: Vec::new(),
            scopes: Vec::new(),
            method: None,
            handlers: Vec::new(),
            ext,
            response_ext: instantiate_registry(&self.seeds.response),
        }
    }

    /// A fresh affordance draft, its interaction position seeded, carrying
    /// the schema seeds for a data schema declared later.
    pub fn affordance_builder(&self) -> (a: AffordanceBuilder<H>)
        requires
            self.wf(),
        ensures
            a.wf(),
            a.forms@.len() == 0,
            a.data_schema is None,
            registry_from_seeds(self.seeds.interaction, a.interaction_ext),
            a.data_schema_seeds.slots@ == self.seeds.data_schema.slots@,
            a.object_schema_seeds.slots@ == self.seeds.object_schema.slots@,
            a.array_schema_seeds.slots@ == self.seeds.array_schema.slots@,
    {
        AffordanceBuilder {
            interaction_ext: instantiate_registry(&self.seeds.interaction),
            data_schema: None,
            forms: Vec::new(),
            data_schema_seeds: crate::thing::dup_seed_registry(&self.seeds.data_schema),
            object_schema_seeds: crate::thing::dup_seed_registry(&self.seeds.object_schema),
            array_schema_seeds: crate::thing::dup_seed_registry(&self.seeds.array_schema),
        }
    }

    /// Nothing of the builder changed but the thing's content sequences.
    pub open spec fn same_shape(self, o: ThingBuilder<H>) -> bool {
        &&& o.thing.title == self.thing.title
        &&& o.thing.base == self.thing.base
        &&& o.thing.other == self.thing.other
        &&& o.seeds == self.seeds
        &&& o.extended == self.extended
    }

    /// Add a top-level form to the Thing.
    pub fn form(self, f: FormBuilder<H>) -> (r: Result<ThingBuilder<H>, SchemaBuildError>)
        requires
            self.wf(),
            f.wf(),
        ensures
            match spec_pack_err(f, self.thing.other.kinds()) {
                Some(e) => r matches Err(e2) && e2 == e,
                None => r matches Ok(b) && {
                    &&& b.wf()
                    &&& b.same_shape(self)
                    &&& b.thing.properties == self.thing.properties
                    &&& b.thing.actions == self.thing.actions
                    &&& b.thing.events == self.thing.events
                    &&& b.thing.forms@.len() == self.thing.forms@.len() + 1
                    &&& b.thing.forms@.drop_last() == self.thing.forms@
                    &&& packed_form_rel(f, b.thing.forms@.last())
                },
            },
    {
        let packed = match pack_form(f, &self.thing.other) {
            Ok(p) => p,
            Err(e) => {
                return Err(e);
            },
        };
        let ThingBuilder { thing, seeds, extended } = self;
        let Thing { title, base, properties, actions, events, forms, other } = thing;
        let mut forms = forms;
        forms.push(packed);
        proof {
            assert(forms@.drop_last() =~= self.thing.forms@);
        }
        Ok(
            ThingBuilder {
                thing: Thing { title, base, properties, actions, events, forms, other },
                seeds,
                extended,
            },
        )
    }

    /// Add a property affordance under `name`.
    ///
    /// A name used twice is a construction-time error.
    pub fn property(self, name: &str, a: AffordanceBuilder<H>) -> (r: Result<
        ThingBuilder<H>,
        SchemaBuildError,
    >)
        requires
            self.wf(),
            a.wf(),
        ensures
            names_contain(self.thing.properties@, name@) ==> r matches Err(
                SchemaBuildError::DuplicateAffordance,
            ),
            !names_contain(self.thing.properties@, name@) ==> match spec_first_form_err(
                a.forms@,
                self.thing.other.kinds(),
            ) {
                Some(e) => r matches Err(e2) && e2 == e,
                None => r matches Ok(b) && {
                    &&& b.wf()
                    &&& b.same_shape(self)
                    &&& b.thing.actions == self.thing.actions
                    &&& b.thing.events == self.thing.events
                    &&& b.thing.forms == self.thing.forms
                    &&& b.thing.properties@.len() == self.thing.properties@.len() + 1
                    &&& b.thing.properties@.drop_last() == self.thing.properties@
                    &&& b.thing.properties@.last().0@ == name@
                    &&& affordance_rel(a, self.seeds.property, b.thing.properties@.last().1)
                },
            },
    {
        let owned = name.to_owned();
        if contains_name(&self.thing.properties, &owned) {
            return Err(SchemaBuildError::DuplicateAffordance);
        }
        let aff = match pack_affordance(a, &self.thing.other, &self.seeds.property) {
            Ok(x) => x,
            Err(e) => {
                return Err(e);
            },
        };
        let ThingBuilder { thing, seeds, extended } = self;
        let Thing { title, base, properties, actions, events, forms, other } = thing;
        let mut properties = properties;
        properties.push((owned, aff));
        proof {
            assert(properties@.drop_last() =~= self.thing.properties@);
        }
        Ok(
            ThingBuilder {
                thing: Thing { title, base, properties, actions, events, forms, other },
                seeds,
                extended,
            },
        )
    }

    /// Add an action affordance under `name`.
    ///
    /// A name used twice is a construction-time error.
    pub fn action(self, name: &str, a: AffordanceBuilder<H>) -> (r: Result<
        ThingBuilder<H>,
        SchemaBuildError,
    >)
        requires
            self.wf(),
            a.wf(),
        ensures
            names_contain(self.thing.actions@, name@) ==> r matches Err(
                SchemaBuildError::DuplicateAffordance,
            ),
            !names_contain(self.thing.actions@, name@) ==> match spec_first_form_err(
                a.forms@,
                self.thing.other.kinds(),
            ) {
                Some(e) => r matches Err(e2) && e2 == e,
                None => r matches Ok(b) && {
                    &&& b.wf()
                    &&& b.same_shape(self)
                    &&& b.thing.properties == self.thing.properties
                    &&& b.thing.events == self.thing.events
                    &&& b.thing.forms == self.thing.forms
                    &&& b.thing.actions@.len() == self.thing.actions@.len() + 1
                    &&& b.thing.actions@.drop_last() == self.thing.actions@
                    &&& b.thing.actions@.last().0@ == name@
                    &&& affordance_rel(a, self.seeds.action, b.thing.actions@.last().1)
                },
            },
    {
        let owned = name.to_owned();
        if contains_name(&self.thing.actions, &owned) {
            return Err(SchemaBuildError::DuplicateAffordance);
        }
        let aff = match pack_affordance(a, &self.thing.other, &self.seeds.action) {
            Ok(x) => x,
            Err(e) => {
                return Err(e);
            },
        };
        let ThingBuilder { thing, seeds, extended } = self;
        let Thing { title, base, properties, actions, events, forms, other } = thing;
        let mut actions = actions;
        actions.push((owned, aff));
        proof {
            assert(actions@.drop_last() =~= self.thing.actions@);
        }
        Ok(
            ThingBuilder {
                thing: Thing { title, base, properties, actions, events, forms, other },
                seeds,
                extended,
            },
        )
    }

    /// Add an event affordance under `name`.
    ///
    /// A name used twice is a construction-time error.
    pub fn event(self, name: &str, a: AffordanceBuilder<H>) -> (r: Result<
        ThingBuilder<H>,
        SchemaBuildError,
    >)
        requires
            self.wf(),
            a.wf(),
        ensures
            names_contain(self.thing.events@, name@) ==> r matches Err(
                SchemaBuildError::DuplicateAffordance,
            ),
            !names_contain(self.thing.events@, name@) ==> match spec_first_form_err(
                a.forms@,
                self.thing.other.kinds(),
            ) {
                Some(e) => r matches Err(e2) && e2 == e,
                None => r matches Ok(b) && {
                    &&& b.wf()
                    &&& b.same_shape(self)
                    &&& b.thing.properties == self.thing.properties
                    &&& b.thing.actions == self.thing.actions
                    &&& b.thing.forms == self.thing.forms
                    &&& b.thing.events@.len() == self.thing.events@.len() + 1
                    &&& b.thing.events@.drop_last() == self.thing.events@
                    &&& b.thing.events@.last().0@ == name@
                    &&& affordance_rel(a, self.seeds.event, b.thing.events@.last().1)
                },
            },
    {
        let owned = name.to_owned();
        if contains_name(&self.thing.events, &owned) {
            return Err(SchemaBuildError::DuplicateAffordance);
        }
        let aff = match pack_affordance(a, &self.thing.other, &self.seeds.event) {
            Ok(x) => x,
            Err(e) => {
                return Err(e);
            },
        };
        let ThingBuilder { thing, seeds, extended } = self;
        let Thing { title, base, properties, actions, events, forms, other } = thing;
        let mut events = events;
        events.push((owned, aff));
        proof {
            assert(events@.drop_last() =~= self.thing.events@);
        }
        Ok(
            ThingBuilder {
                thing: Thing { title, base, properties, actions, events, forms, other },
                seeds,
                extended,
            },
        )
    }

    /// The HTTP binding's current root contribution.
    fn current_servient(&self) -> (e: ServientExtension)
        requires
            self.wf(),
        ensures
            self.thing.servient_ext() == Some(e),
    {
        match self.thing.other.lookup(SERVIENT_KIND) {
            Some(c) => match c {
                Capability::Servient(e) => *e,
                _ => {
                    proof {
                        assert(false);
                    }
                    ServientExtension::default()
                },
            },
            None => {
                proof {
                    assert(false);
                }
                ServientExtension::default()
            },
        }
    }

    /// Replace the HTTP binding's root contribution.
    fn update_servient(self, e: ServientExtension) -> (r: ThingBuilder<H>)
        requires
            self.wf(),
        ensures
            r.wf(),
            r.thing.servient_ext() == Some(e),
            r.thing.other.kinds() == self.thing.other.kinds(),
            forall|k: u64|
                k != SERVIENT_KIND ==> r.thing.other.spec_lookup(k) == self.thing.other.spec_lookup(
                    k,
                ),
            r.thing.title == self.thing.title && r.thing.base == self.thing.base
                && r.thing.properties == self.thing.properties && r.thing.actions
                == self.thing.actions && r.thing.events == self.thing.events && r.thing.forms
                == self.thing.forms,
            r.seeds == self.seeds && r.extended == self.extended,
    {
        let ThingBuilder { thing, seeds, extended } = self;
        let Thing { title, base, properties, actions, events, forms, other } = thing;
        let mut other = other;
        proof {
            lemma_contains_lookup(other, SERVIENT_KIND);
        }
        let found = other.set_value(SERVIENT_KIND, Capability::Servient(e));
        proof {
            assert(found);
        }
        ThingBuilder {
            thing: Thing { title, base, properties, actions, events, forms, other },
            seeds,
            extended,
        }
    }

    /// Bind the http server to `addr`.
    pub fn http_bind(self, addr: HttpAddr) -> (r: ThingBuilder<H>)
        requires
            self.wf(),
        ensures
            r.wf(),
            (match (self.thing.servient_ext(), r.thing.servient_ext()) {
                (Some(o), Some(n)) => n.addr == Some(addr) && n.thing_type == o.thing_type
                    && n.permissive_cors == o.permissive_cors,
                _ => false,
            }),
            r.thing.other.kinds() == self.thing.other.kinds(),
            forall|k: u64|
                k != SERVIENT_KIND ==> r.thing.other.spec_lookup(k) == self.thing.other.spec_lookup(
                    k,
                ),
            r.thing.title == self.thing.title && r.thing.base == self.thing.base
                && r.thing.properties == self.thing.properties && r.thing.actions
                == self.thing.actions && r.thing.events == self.thing.events && r.thing.forms
                == self.thing.forms,
            r.seeds == self.seeds && r.extended == self.extended,
    {
        let mut e = self.current_servient();
        e.addr = Some(addr);
        self.update_servient(e)
    }

    /// Set the thing type to be advertised.
    pub fn thing_type(self, ty: crate::advertise::ThingType) -> (r: ThingBuilder<H>)
        requires
            self.wf(),
        ensures
            r.wf(),
            (match (self.thing.servient_ext(), r.thing.servient_ext()) {
                (Some(o), Some(n)) => n.thing_type == ty && n.addr == o.addr && n.permissive_cors
                    == o.permissive_cors,
                _ => false,
            }),
            r.thing.other.kinds() == self.thing.other.kinds(),
            forall|k: u64|
                k != SERVIENT_KIND ==> r.thing.other.spec_lookup(k) == self.thing.other.spec_lookup(
                    k,
                ),
            r.thing.title == self.thing.title && r.thing.base == self.thing.base
                && r.thing.properties == self.thing.properties && r.thing.actions
                == self.thing.actions && r.thing.events == self.thing.events && r.thing.forms
                == self.thing.forms,
            r.seeds == self.seeds && r.extended == self.extended,
    {
        let mut e = self.current_servient();
        e.thing_type = ty;
        self.update_servient(e)
    }

    /// Disable the default permissive CORS settings.
    pub fn http_disable_permissive_cors(self) -> (r: ThingBuilder<H>)
        requires
            self.wf(),
        ensures
            r.wf(),
            (match (self.thing.servient_ext(), r.thing.servient_ext()) {
                (Some(o), Some(n)) => !n.permissive_cors && n.addr == o.addr && n.thing_type
                    == o.thing_type,
                _ => false,
            }),
            r.thing.other.kinds() == self.thing.other.kinds(),
            forall|k: u64|
                k != SERVIENT_KIND ==> r.thing.other.spec_lookup(k) == self.thing.other.spec_lookup(
                    k,
                ),
            r.thing.title == self.thing.title && r.thing.base == self.thing.base
                && r.thing.properties == self.thing.properties && r.thing.actions
                == self.thing.actions && r.thing.events == self.thing.events && r.thing.forms
                == self.thing.forms,
            r.seeds == self.seeds && r.extended == self.extended,
    {
        let mut e = self.current_servient();
        e.permissive_cors = false;
        self.update_servient(e)
    }
}

/// One path's verb→handler table after merging in a form's bindings, later
/// bindings of a verb replacing earlier ones.
pub open spec fn merge_into<H>(vm: Map<Verb, H>, handlers: Seq<VerbHandler<H>>) -> Map<Verb, H>
    decreases handlers.len(),
{
    if handlers.len() == 0 {
        vm
    } else {
        merge_into(vm, handlers.drop_last()).insert(
            handlers.last().verb,
            handlers.last().handler,
        )
    }
}

/// The route map compiled from a sequence of forms: each form's href
/// translated, and its verb→handler table merged into the entry for that
/// path; the first untranslatable href fails the whole compilation.
pub open spec fn spec_route_map<H>(forms: Seq<Form<H>>) -> Result<
    Map<Seq<char>, Map<Verb, H>>,
    TemplateError,
>
    decreases forms.len(),
{
    if forms.len() == 0 {
        Ok(Map::empty())
    } else {
        match spec_route_map(forms.drop_last()) {
            Err(e) => Err(e),
            Ok(m) => match spec_translate(forms.last().href@) {
                Err(e) => Err(e),
                Ok(path) => Ok(
                    m.insert(
                        path,
                        merge_into(
                            if m.dom().contains(path) {
                                m[path]
                            } else {
                                Map::empty()
                            },
                            forms.last().binding(),
                        ),
                    ),
                ),
            },
        }
    }
}

/// A failed prefix fails the whole compilation, with the same error.
proof fn lemma_route_map_err<H>(forms: Seq<Form<H>>, k: int)
    requires
        0 <= k <= forms.len(),
        spec_route_map(forms.take(k)) is Err,
    ensures
        spec_route_map(forms) == spec_route_map(forms.take(k)),
    decreases forms.len() - k,
{
    if k < forms.len() {
        assert(forms.take(k + 1).drop_last() =~= forms.take(k));
        lemma_route_map_err(forms, k + 1);
    } else {
        assert(forms.take(k) =~= forms);
    }
}

/// One route while it is being compiled: a path and its table so far.
pub struct RouteDraft<H> {
    /// The translated path.
    pub path: String,
    /// The merged verb→handler table so far.
    pub handlers: Vec<VerbHandler<H>>,
}

/// Paths distinct, every table with at most one handler per verb.
pub open spec fn drafts_wf<H>(s: Seq<RouteDraft<H>>) -> bool {
    &&& forall|i: int, j: int| 0 <= i < j < s.len() ==> s[i].path@ != s[j].path@
    &&& forall|i: int| 0 <= i < s.len() ==> distinct_verbs((#[trigger] s[i]).handlers@)
}

/// The map a sequence of route drafts stands for.
pub open spec fn draft_map<H>(s: Seq<RouteDraft<H>>) -> Map<Seq<char>, Map<Verb, H>>
    decreases s.len(),
{
    if s.len() == 0 {
        Map::empty()
    } else {
        draft_map(s.drop_last()).insert(s.last().path@, verb_map(s.last().handlers@))
    }
}

/// With distinct paths, the draft map is read off the drafts pointwise.
proof fn lemma_draft_map_props<H>(s: Seq<RouteDraft<H>>)
    requires
        forall|i: int, j: int| 0 <= i < j < s.len() ==> s[i].path@ != s[j].path@,
    ensures
        forall|p: Seq<char>|
            #[trigger] draft_map(s).dom().contains(p) <==> exists|i: int|
                0 <= i < s.len() && (#[trigger] s[i]).path@ == p,
        forall|i: int|
            0 <= i < s.len() ==> draft_map(s)[(#[trigger] s[i]).path@] == verb_map(s[i].handlers@),
    decreases s.len(),
{
    if s.len() > 0 {
        let rest = s.drop_last();
        assert forall|i: int, j: int| 0 <= i < j < rest.len() implies rest[i].path@
            != rest[j].path@ by {
            assert(rest[i] == s[i]);
            assert(rest[j] == s[j]);
        }
        lemma_draft_map_props(rest);
        assert forall|p: Seq<char>| #[trigger]
            draft_map(s).dom().contains(p) implies exists|i: int|
            0 <= i < s.len() && (#[trigger] s[i]).path@ == p by {
            if p != s.last().path@ {
                assert(draft_map(rest).dom().contains(p));
                assert(exists|i: int| 0 <= i < rest.len() && (#[trigger] rest[i]).path@ == p);
                let i = choose|i: int| 0 <= i < rest.len() && (#[trigger] rest[i]).path@ == p;
                assert(rest[i] == s[i]);
                assert(s[i].path@ == p);
            } else {
                assert(s[s.len() - 1].path@ == p);
            }
        }
        assert forall|p: Seq<char>|
            (exists|i: int| 0 <= i < s.len() && (#[trigger] s[i]).path@ == p) implies #[trigger]
            draft_map(s).dom().contains(p) by {
            let i = choose|i: int| 0 <= i < s.len() && (#[trigger] s[i]).path@ == p;
            if i < s.len() - 1 {
                assert(rest[i] == s[i]);
                assert(draft_map(rest).dom().contains(p));
            }
        }
        assert forall|i: int| 0 <= i < s.len() implies draft_map(s)[(#[trigger] s[i]).path@]
            == verb_map(s[i].handlers@) by {
            if i < s.len() - 1 {
                assert(rest[i] == s[i]);
                assert(s[i].path@ != s.last().path@);
                assert(draft_map(rest)[rest[i].path@] == verb_map(rest[i].handlers@));
            }
        }
    }
}

/// Replacing the draft of a path changes only that path's table.
proof fn lemma_draft_map_update<H>(s: Seq<RouteDraft<H>>, i: int, d: RouteDraft<H>)
    requires
        0 <= i < s.len(),
        s[i].path@ == d.path@,
        forall|x: int, y: int| 0 <= x < y < s.len() ==> s[x].path@ != s[y].path@,
    ensures
        draft_map(s.update(i, d)) == draft_map(s).insert(d.path@, verb_map(d.handlers@)),
    decreases s.len(),
{
    let updated = s.update(i, d);
    if i == s.len() - 1 {
        assert(updated.last() == d);
        assert(updated.drop_last() =~= s.drop_last());
        assert(draft_map(s).insert(d.path@, verb_map(d.handlers@)) =~= draft_map(
            s.drop_last(),
        ).insert(s.last().path@, verb_map(s.last().handlers@)).insert(
            d.path@,
            verb_map(d.handlers@),
        ));
        assert(draft_map(updated) =~= draft_map(s).insert(d.path@, verb_map(d.handlers@)));
    } else {
        let rest = s.drop_last();
        let lastd = s.last();
        assert(updated.last() == lastd);
        assert(updated.drop_last() =~= rest.update(i, d));
        assert(rest[i] == s[i]);
        assert forall|x: int, y: int| 0 <= x < y < rest.len() implies rest[x].path@
            != rest[y].path@ by {
            assert(rest[x] == s[x]);
            assert(rest[y] == s[y]);
        }
        lemma_draft_map_update(rest, i, d);
        assert(lastd.path@ != d.path@);
        assert(draft_map(updated) == draft_map(rest).insert(d.path@, verb_map(d.handlers@)).insert(
            lastd.path@,
            verb_map(lastd.handlers@),
        ));
        assert(draft_map(rest).insert(d.path@, verb_map(d.handlers@)).insert(
            lastd.path@,
            verb_map(lastd.handlers@),
        ) =~= draft_map(rest).insert(lastd.path@, verb_map(lastd.handlers@)).insert(
            d.path@,
            verb_map(d.handlers@),
        ));
    }
}

/// Find the draft holding `path`.
fn find_path<H>(drafts: &Vec<RouteDraft<H>>, path: &String) -> (r: Option<usize>)
    ensures
        match r {
            Some(i) => i < drafts@.len() && drafts@[i as int].path@ == path@,
            None => forall|i: int| 0 <= i < drafts@.len() ==> drafts@[i].path@ != path@,
        },
{
    let n = drafts.len();
    let mut i: usize = 0;
    while i < n
        invariant
            i <= n == drafts@.len(),
            forall|j: int| 0 <= j < i ==> drafts@[j].path@ != path@,
        decreases n - i,
    {
        if drafts[i].path == *path {
            return Some(i);
        }
        i = i + 1;
    }
    None
}

/// Merge `handlers` into `table`, replacing earlier bindings verb by verb.
#[verifier::loop_isolation(false)]
fn merge_handlers<H: CloneHandler>(table: &mut Vec<VerbHandler<H>>, handlers: &Vec<VerbHandler<H>>)
    requires
        distinct_verbs(old(table)@),
    ensures
        distinct_verbs(final(table)@),
        verb_map(final(table)@) == merge_into(verb_map(old(table)@), handlers@),
{
    let n = handlers.len();
    let mut k: usize = 0;
    while k < n
        invariant
            k <= n == handlers@.len(),
            distinct_verbs(table@),
            verb_map(table@) == merge_into(verb_map(old(table)@), handlers@.take(k as int)),
        decreases n - k,
    {
        let vh = &handlers[k];
        let copy = vh.handler.clone_handler();
        upsert_handler(table, vh.verb, copy);
        proof {
            let t = handlers@.take(k + 1);
            assert(t.drop_last() =~= handlers@.take(k as int));
            assert(t.last() == handlers@[k as int]);
        }
        k = k + 1;
    }
    proof {
        assert(handlers@.take(n as int) =~= handlers@);
    }
}

/// Merge one form's table into the route drafts, under its translated path.
#[verifier::loop_isolation(false)]
fn route_form<H: CloneHandler>(drafts: &mut Vec<RouteDraft<H>>, path: String, form: &Form<H>)
    requires
        drafts_wf(old(drafts)@),
    ensures
        drafts_wf(final(drafts)@),
        draft_map(final(drafts)@) == draft_map(old(drafts)@).insert(
            path@,
            merge_into(
                if draft_map(old(drafts)@).dom().contains(path@) {
                    draft_map(old(drafts)@)[path@]
                } else {
                    Map::empty()
                },
                form.binding(),
            ),
        ),
{
    proof {
        lemma_draft_map_props(drafts@);
    }
    // The form's verb→handler table, as the HTTP binding contributed it.
    let binding: &Vec<VerbHandler<H>> = match form.ext.lookup(SERVIENT_KIND) {
        Some(c) => match c {
            Capability::Http(b) => &b.handlers,
            _ => {
                return route_form_untabled(drafts, path, form);
            },
        },
        None => {
            return route_form_untabled(drafts, path, form);
        },
    };
    proof {
        assert(binding@ == form.binding());
    }
    match find_path(drafts, &path) {
        Some(i) => {
            let ghost before = drafts@;
            let d = &mut drafts[i];
            merge_handlers(&mut d.handlers, binding);
            proof {
                assert(drafts@ == before.update(
                    i as int,
                    RouteDraft { path: before[i as int].path, handlers: drafts@[i as int].handlers },
                ));
                lemma_draft_map_update(
                    before,
                    i as int,
                    RouteDraft { path: before[i as int].path, handlers: drafts@[i as int].handlers },
                );
                assert(draft_map(before).dom().contains(path@));
                assert(draft_map(before)[path@] == verb_map(before[i as int].handlers@));
                assert forall|x: int, y: int|
                    0 <= x < y < drafts@.len() implies drafts@[x].path@ != drafts@[y].path@ by {
                    assert(drafts@[x].path@ == before[x].path@);
                    assert(drafts@[y].path@ == before[y].path@);
                }
                assert forall|x: int|
                    0 <= x < drafts@.len() implies distinct_verbs(
                    (#[trigger] drafts@[x]).handlers@,
                ) by {
                    if x != i {
                        assert(drafts@[x] == before[x]);
                    }
                }
            }
        },
        None => {
            let mut table: Vec<VerbHandler<H>> = Vec::new();
            merge_handlers(&mut table, binding);
            let ghost before = drafts@;
            drafts.push(RouteDraft { path, handlers: table });
            proof {
                lemma_draft_map_props(before);
                assert(!draft_map(before).dom().contains(path@));
                assert(drafts@.drop_last() =~= before);
                assert(verb_map(Seq::<VerbHandler<H>>::empty()) =~= Map::<Verb, H>::empty());
                assert forall|x: int, y: int|
                    0 <= x < y < drafts@.len() implies drafts@[x].path@ != drafts@[y].path@ by {
                    if y < before.len() {
                        assert(drafts@[x] == before[x]);
                        assert(drafts@[y] == before[y]);
                    } else {
                        assert(drafts@[x] == before[x]);
                    }
                }
                assert forall|x: int|
                    0 <= x < drafts@.len() implies distinct_verbs(
                    (#[trigger] drafts@[x]).handlers@,
                ) by {
                    if x < before.len() {
                        assert(drafts@[x] == before[x]);
                    }
                }
            }
        },
    }
}

/// As [`route_form`], for a form carrying no verb→handler table.
#[verifier::loop_isolation(false)]
fn route_form_untabled<H: CloneHandler>(drafts: &mut Vec<RouteDraft<H>>, path: String, form: &Form<H>)
    requires
        drafts_wf(old(drafts)@),
        form.binding() == Seq::<VerbHandler<H>>::empty(),
    ensures
        drafts_wf(final(drafts)@),
        draft_map(final(drafts)@) == draft_map(old(drafts)@).insert(
            path@,
            merge_into(
                if draft_map(old(drafts)@).dom().contains(path@) {
                    draft_map(old(drafts)@)[path@]
                } else {
                    Map::empty()
                },
                form.binding(),
            ),
        ),
{
    proof {
        lemma_draft_map_props(drafts@);
    }
    match find_path(drafts, &path) {
        Some(i) => {
            let ghost before = drafts@;
            proof {
                assert(draft_map(before).dom().contains(path@));
                assert(draft_map(before)[path@] == verb_map(before[i as int].handlers@));
                assert(draft_map(before).insert(path@, draft_map(before)[path@]) =~= draft_map(
                    before,
                ));
            }
        },
        None => {
            let ghost before = drafts@;
            drafts.push(RouteDraft { path, handlers: Vec::new() });
            proof {
                assert(!draft_map(before).dom().contains(path@));
                assert(drafts@.drop_last() =~= before);
                assert(verb_map(Seq::<VerbHandler<H>>::empty()) =~= Map::<Verb, H>::empty());
                assert forall|x: int, y: int|
                    0 <= x < y < drafts@.len() implies drafts@[x].path@ != drafts@[y].path@ by {
                    if y < before.len() {
                        assert(drafts@[x] == before[x]);
                        assert(drafts@[y] == before[y]);
                    } else {
                        assert(drafts@[x] == before[x]);
                    }
                }
                assert forall|x: int|
                    0 <= x < drafts@.len() implies distinct_verbs(
                    (#[trigger] drafts@[x]).handlers@,
                ) by {
                    if x < before.len() {
                        assert(drafts@[x] == before[x]);
                    }
                }
            }
        },
    }
}

/// The dereferenced forms of a sequence of form references.
pub open spec fn derefs<H>(fs: Seq<&Form<H>>) -> Seq<Form<H>> {
    fs.map_values(|f: &Form<H>| *f)
}

/// Collect references to the forms of a sequence of named affordances.
#[verifier::loop_isolation(false)]
fn collect_affordance_forms<'a, H>(
    fs: &mut Vec<&'a Form<H>>,
    entries: &'a Vec<(String, Affordance<H>)>,
)
    ensures
        derefs(final(fs)@) == derefs(old(fs)@) + crate::thing::affordance_forms(entries@),
{
    let n = entries.len();
    let mut i: usize = 0;
    proof {
        assert(derefs(fs@) =~= derefs(old(fs)@) + crate::thing::affordance_forms(
            entries@.take(0),
        ));
    }
    while i < n
        invariant
            i <= n == entries@.len(),
            derefs(fs@) == derefs(old(fs)@) + crate::thing::affordance_forms(entries@.take(i as int)),
        decreases n - i,
    {
        let forms: &Vec<Form<H>> = &entries[i].1.interaction.forms;
        let m = forms.len();
        let mut j: usize = 0;
        while j < m
            invariant
                j <= m == forms@.len(),
                forms@ == entries@[i as int].1.interaction.forms@,
                i < n == entries@.len(),
                derefs(fs@) == derefs(old(fs)@) + crate::thing::affordance_forms(
                    entries@.take(i as int),
                ) + forms@.take(j as int),
            decreases m - j,
        {
            let ghost pre = fs@;
            fs.push(&forms[j]);
            proof {
                assert(derefs(fs@) =~= derefs(pre).push(forms@[j as int]));
                assert(derefs(fs@) =~= derefs(old(fs)@) + crate::thing::affordance_forms(
                    entries@.take(i as int),
                ) + forms@.take(j + 1));
            }
            j = j + 1;
        }
        proof {
            let t = entries@.take(i + 1);
            assert(t.drop_last() =~= entries@.take(i as int));
            assert(t.last() == entries@[i as int]);
            assert(forms@.take(m as int) =~= forms@);
            assert(crate::thing::affordance_forms(t) == crate::thing::affordance_forms(
                entries@.take(i as int),
            ) + forms@);
            assert(derefs(fs@) =~= derefs(old(fs)@) + crate::thing::affordance_forms(
                entries@.take(i + 1),
            ));
        }
        i = i + 1;
    }
    proof {
        assert(entries@.take(n as int) =~= entries@);
    }
}

/// Collect references to every form of the Thing, in compilation order:
/// top-level forms, then the forms of each property, action and event.
#[verifier::loop_isolation(false)]
fn collect_forms<'a, H>(thing: &'a Thing<H>) -> (fs: Vec<&'a Form<H>>)
    ensures
        derefs(fs@) == thing.all_forms(),
{
    let mut fs: Vec<&'a Form<H>> = Vec::new();
    let n = thing.forms.len();
    let mut i: usize = 0;
    proof {
        assert(derefs(fs@) =~= thing.forms@.take(0));
    }
    while i < n
        invariant
            i <= n == thing.forms@.len(),
            derefs(fs@) == thing.forms@.take(i as int),
        decreases n - i,
    {
        let ghost pre = fs@;
        fs.push(&thing.forms[i]);
        proof {
            assert(derefs(fs@) =~= derefs(pre).push(thing.forms@[i as int]));
            assert(derefs(fs@) =~= thing.forms@.take(i + 1));
        }
        i = i + 1;
    }
    proof {
        assert(thing.forms@.take(n as int) =~= thing.forms@);
    }
    collect_affordance_forms(&mut fs, &thing.properties);
    collect_affordance_forms(&mut fs, &thing.actions);
    collect_affordance_forms(&mut fs, &thing.events);
    proof {
        assert(derefs(fs@) =~= thing.all_forms());
    }
    fs
}

/// Compile the route drafts of a Thing: translate every form's href and
/// merge the verb→handler tables of forms sharing a path, in order.
#[verifier::loop_isolation(false)]
fn compile_routes<H: CloneHandler>(thing: &Thing<H>) -> (r: Result<
    Vec<RouteDraft<H>>,
    TemplateError,
>)
    ensures
        match spec_route_map(thing.all_forms()) {
            Ok(m) => r matches Ok(ds) && drafts_wf(ds@) && draft_map(ds@) == m,
            Err(e) => r matches Err(e2) && e2 == e,
        },
{
    let ghost afs = thing.all_forms();
    let fs = collect_forms(thing);
    let n = fs.len();
    let mut drafts: Vec<RouteDraft<H>> = Vec::new();
    let mut k: usize = 0;
    proof {
        assert(afs.take(0) =~= Seq::<Form<H>>::empty());
        assert(spec_route_map(afs.take(0)) == Ok::<Map<Seq<char>, Map<Verb, H>>, TemplateError>(
            Map::empty(),
        ));
    }
    while k < n
        invariant
            k <= n == fs@.len(),
            drafts_wf(drafts@),
            spec_route_map(afs.take(k as int)) == Ok::<Map<Seq<char>, Map<Verb, H>>, TemplateError>(
                draft_map(drafts@),
            ),
        decreases n - k,
    {
        let f: &Form<H> = fs[k];
        proof {
            assert(derefs(fs@)[k as int] == afs[k as int]);
            assert(*f == afs[k as int]);
        }
        let ghost t = afs.take(k + 1);
        proof {
            assert(t.drop_last() =~= afs.take(k as int));
            assert(t.last() == afs[k as int]);
        }
        match uritemplate_to_axum(f.href.as_str()) {
            Err(e) => {
                proof {
                    assert(spec_translate(afs[k as int].href@) == Err::<Seq<char>, TemplateError>(
                        e,
                    ));
                    assert(spec_route_map(t) == Err::<Map<Seq<char>, Map<Verb, H>>, TemplateError>(
                        e,
                    ));
                    lemma_route_map_err(afs, k + 1);
                }
                return Err(e);
            },
            Ok(path) => {
                proof {
                    assert(spec_translate(afs[k as int].href@) matches Ok(p) && p == path@);
                }
                route_form(&mut drafts, path, f);
            },
        }
        k = k + 1;
    }
    proof {
        assert(afs.take(n as int) =~= afs);
    }
    Ok(drafts)
}

/// Entries made pointwise from drafts stand for the same map, read as
/// handler targets.
proof fn lemma_entries_of_drafts<H>(ds: Seq<RouteDraft<H>>, es: Seq<RouteEntry<H>>)
    requires
        ds.len() == es.len(),
        forall|i: int|
            0 <= i < ds.len() ==> (#[trigger] es[i]).path@ == ds[i].path@ && target_model(
                es[i].target,
            ) == TargetModel::Handlers(verb_map(ds[i].handlers@)),
    ensures
        map_of_entries(es).dom() == draft_map(ds).dom(),
        forall|p: Seq<char>|
            #[trigger] draft_map(ds).dom().contains(p) ==> map_of_entries(es)[p]
                == TargetModel::Handlers(draft_map(ds)[p]),
    decreases ds.len(),
{
    if ds.len() > 0 {
        let dr = ds.drop_last();
        let er = es.drop_last();
        assert forall|i: int|
            0 <= i < dr.len() implies (#[trigger] er[i]).path@ == dr[i].path@ && target_model(
            er[i].target,
        ) == TargetModel::Handlers(verb_map(dr[i].handlers@)) by {
            assert(er[i] == es[i]);
            assert(dr[i] == ds[i]);
        }
        lemma_entries_of_drafts(dr, er);
        assert(es.last() == es[es.len() - 1]);
        assert(ds.last() == ds[ds.len() - 1]);
        assert(map_of_entries(es).dom() =~= draft_map(ds).dom());
        assert forall|p: Seq<char>| #[trigger]
            draft_map(ds).dom().contains(p) implies map_of_entries(es)[p] == TargetModel::Handlers(
            draft_map(ds)[p],
        ) by {
            if p != ds.last().path@ {
                assert(draft_map(dr).dom().contains(p));
            }
        }
    }
}

/// With distinct paths, the route map is read off the entries pointwise.
proof fn lemma_map_of_entries_props<H>(s: Seq<RouteEntry<H>>)
    requires
        forall|i: int, j: int| 0 <= i < j < s.len() ==> s[i].path@ != s[j].path@,
    ensures
        forall|p: Seq<char>|
            #[trigger] map_of_entries(s).dom().contains(p) <==> exists|i: int|
                0 <= i < s.len() && (#[trigger] s[i]).path@ == p,
        forall|i: int|
            0 <= i < s.len() ==> map_of_entries(s)[(#[trigger] s[i]).path@] == target_model(
                s[i].target,
            ),
    decreases s.len(),
{
    if s.len() > 0 {
        let rest = s.drop_last();
        assert forall|i: int, j: int| 0 <= i < j < rest.len() implies rest[i].path@
            != rest[j].path@ by {
            assert(rest[i] == s[i]);
            assert(rest[j] == s[j]);
        }
        lemma_map_of_entries_props(rest);
        assert forall|p: Seq<char>| #[trigger]
            map_of_entries(s).dom().contains(p) implies exists|i: int|
            0 <= i < s.len() && (#[trigger] s[i]).path@ == p by {
            if p != s.last().path@ {
                assert(map_of_entries(rest).dom().contains(p));
                assert(exists|i: int| 0 <= i < rest.len() && (#[trigger] rest[i]).path@ == p);
                let i = choose|i: int| 0 <= i < rest.len() && (#[trigger] rest[i]).path@ == p;
                assert(rest[i] == s[i]);
                assert(s[i].path@ == p);
            } else {
                assert(s[s.len() - 1].path@ == p);
            }
        }
        assert forall|p: Seq<char>|
            (exists|i: int| 0 <= i < s.len() && (#[trigger] s[i]).path@ == p) implies #[trigger]
            map_of_entries(s).dom().contains(p) by {
            let i = choose|i: int| 0 <= i < s.len() && (#[trigger] s[i]).path@ == p;
            if i < s.len() - 1 {
                assert(rest[i] == s[i]);
                assert(map_of_entries(rest).dom().contains(p));
            }
        }
        assert forall|i: int| 0 <= i < s.len() implies map_of_entries(s)[(#[trigger] s[i]).path@]
            == target_model(s[i].target) by {
            if i < s.len() - 1 {
                assert(rest[i] == s[i]);
                assert(s[i].path@ != s.last().path@);
                assert(map_of_entries(rest)[rest[i].path@] == target_model(rest[i].target));
            }
        }
    }
}

/// Replacing the entry of a path changes only that path's target.
proof fn lemma_map_of_entries_update<H>(s: Seq<RouteEntry<H>>, i: int, e: RouteEntry<H>)
    requires
        0 <= i < s.len(),
        s[i].path@ == e.path@,
        forall|x: int, y: int| 0 <= x < y < s.len() ==> s[x].path@ != s[y].path@,
    ensures
        map_of_entries(s.update(i, e)) == map_of_entries(s).insert(e.path@, target_model(e.target)),
    decreases s.len(),
{
    let updated = s.update(i, e);
    if i == s.len() - 1 {
        assert(updated.last() == e);
        assert(updated.drop_last() =~= s.drop_last());
        assert(map_of_entries(s).insert(e.path@, target_model(e.target)) =~= map_of_entries(
            s.drop_last(),
        ).insert(s.last().path@, target_model(s.last().target)).insert(
            e.path@,
            target_model(e.target),
        ));
        assert(map_of_entries(updated) =~= map_of_entries(s).insert(
            e.path@,
            target_model(e.target),
        ));
    } else {
        let rest = s.drop_last();
        let laste = s.last();
        assert(updated.last() == laste);
        assert(updated.drop_last() =~= rest.update(i, e));
        assert(rest[i] == s[i]);
        assert forall|x: int, y: int| 0 <= x < y < rest.len() implies rest[x].path@
            != rest[y].path@ by {
            assert(rest[x] == s[x]);
            assert(rest[y] == s[y]);
        }
        lemma_map_of_entries_update(rest, i, e);
        assert(laste.path@ != e.path@);
        assert(map_of_entries(updated) == map_of_entries(rest).insert(
            e.path@,
            target_model(e.target),
        ).insert(laste.path@, target_model(laste.target)));
        assert(map_of_entries(rest).insert(e.path@, target_model(e.target)).insert(
            laste.path@,
            target_model(laste.target),
        ) =~= map_of_entries(rest).insert(laste.path@, target_model(laste.target)).insert(
            e.path@,
            target_model(e.target),
        ));
    }
}

/// Mount `target` at `path`, replacing whatever the path served before.
#[verifier::loop_isolation(false)]
fn mount<H>(entries: &mut Vec<RouteEntry<H>>, path: &str, target: RouteTarget<H>)
    requires
        forall|i: int, j: int|
            0 <= i < j < old(entries)@.len() ==> old(entries)@[i].path@ != old(entries)@[j].path@,
    ensures
        forall|i: int, j: int|
            0 <= i < j < final(entries)@.len() ==> final(entries)@[i].path@
                != final(entries)@[j].path@,
        map_of_entries(final(entries)@) == map_of_entries(old(entries)@).insert(
            path@,
            target_model(target),
        ),
{
    proof {
        lemma_map_of_entries_props(entries@);
    }
    let n = entries.len();
    let mut i: usize = 0;
    while i < n
        invariant
            i <= n == entries@.len(),
            *entries == *old(entries),
            forall|j: int| 0 <= j < i ==> entries@[j].path@ != path@,
        decreases n - i,
    {
        if str_eq(entries[i].path.as_str(), path) {
            let ghost before = entries@;
            let e = &mut entries[i];
            e.target = target;
            proof {
                assert(entries@ == before.update(
                    i as int,
                    RouteEntry { path: before[i as int].path, target: entries@[i as int].target },
                ));
                lemma_map_of_entries_update(
                    before,
                    i as int,
                    RouteEntry { path: before[i as int].path, target: entries@[i as int].target },
                );
                assert forall|x: int, y: int|
                    0 <= x < y < entries@.len() implies entries@[x].path@ != entries@[y].path@ by {
                    assert(entries@[x].path@ == before[x].path@);
                    assert(entries@[y].path@ == before[y].path@);
                }
            }
            return ;
        }
        i = i + 1;
    }
    let ghost before = entries@;
    entries.push(RouteEntry { path: path.to_owned(), target });
    proof {
        assert(entries@.drop_last() =~= before);
        assert forall|x: int, y: int|
            0 <= x < y < entries@.len() implies entries@[x].path@ != entries@[y].path@ by {
            if y < before.len() {
                assert(entries@[x] == before[x]);
                assert(entries@[y] == before[y]);
            } else {
                assert(entries@[x] == before[x]);
            }
        }
    }
}

/// Whether two strings hold the same characters.
fn str_eq(a: &str, b: &str) -> (r: bool)
    ensures
        r == (a@ == b@),
{
    let n = a.unicode_len();
    let m = b.unicode_len();
    if n != m {
        return false;
    }
    let mut i: usize = 0;
    while i < n
        invariant
            i <= n == a@.len(),
            n == m == b@.len(),
            forall|j: int| 0 <= j < i ==> a@[j] == b@[j],
        decreases n - i,
    {
        if a.get_char(i) != b.get_char(i) {
            return false;
        }
        i = i + 1;
    }
    proof {
        assert(a@ =~= b@);
    }
    true
}

/// Whether a character counts as whitespace between title words.
pub open spec fn spec_is_space(c: char) -> bool {
    let u = c as u32;
    u == 0x09 || u == 0x0A || u == 0x0B || u == 0x0C || u == 0x0D || u == 0x20 || u == 0x85 || u
        == 0xA0 || u == 0x1680 || (0x2000 <= u && u <= 0x200A) || u == 0x2028 || u == 0x2029 || u
        == 0x202F || u == 0x205F || u == 0x3000
}

/// Whether a character counts as whitespace between title words.
fn is_space(c: char) -> (r: bool)
    ensures
        r == spec_is_space(c),
{
    let u = c as u32;
    u == 0x09 || u == 0x0A || u == 0x0B || u == 0x0C || u == 0x0D || u == 0x20 || u == 0x85 || u
        == 0xA0 || u == 0x1680 || (0x2000 <= u && u <= 0x200A) || u == 0x2028 || u == 0x2029 || u
        == 0x202F || u == 0x205F || u == 0x3000
}

/// `s` without its leading whitespace.
pub open spec fn skip_spaces(s: Seq<char>) -> Seq<char>
    decreases s.len(),
{
    if s.len() == 0 {
        s
    } else if spec_is_space(s[0]) {
        skip_spaces(s.drop_first())
    } else {
        s
    }
}

/// How many characters the leading whitespace-free run of `s` has.
pub open spec fn token_len(s: Seq<char>) -> int
    decreases s.len(),
{
    if s.len() == 0 || spec_is_space(s[0]) {
        0
    } else {
        1 + token_len(s.drop_first())
    }
}

/// The first whitespace-delimited word of `s`; empty when there is none.
pub open spec fn spec_first_token(s: Seq<char>) -> Seq<char> {
    skip_spaces(s).take(token_len(skip_spaces(s)))
}

/// A scan over the leading whitespace determines `skip_spaces`.
proof fn lemma_skip_spaces_at(s: Seq<char>, i: int)
    requires
        0 <= i <= s.len(),
        forall|j: int| 0 <= j < i ==> spec_is_space(s[j]),
        i < s.len() ==> !spec_is_space(s[i]),
    ensures
        skip_spaces(s) == s.skip(i),
    decreases i,
{
    if i == 0 {
        if s.len() == 0 || !spec_is_space(s[0]) {
            assert(s.skip(0) =~= s);
        }
    } else {
        let rest = s.drop_first();
        assert(spec_is_space(s[0]));
        assert forall|j: int| 0 <= j < i - 1 implies spec_is_space(rest[j]) by {
            assert(rest[j] == s[j + 1]);
        }
        if i < s.len() {
            assert(rest[i - 1] == s[i]);
        }
        lemma_skip_spaces_at(rest, i - 1);
        assert(rest.skip(i - 1) =~= s.skip(i));
    }
}

/// A scan over the leading word determines `token_len`.
proof fn lemma_token_len_at(s: Seq<char>, i: int)
    requires
        0 <= i <= s.len(),
        forall|j: int| 0 <= j < i ==> !spec_is_space(s[j]),
        i < s.len() ==> spec_is_space(s[i]),
    ensures
        token_len(s) == i,
    decreases i,
{
    if i > 0 {
        let rest = s.drop_first();
        assert(!spec_is_space(s[0]));
        assert forall|j: int| 0 <= j < i - 1 implies !spec_is_space(rest[j]) by {
            assert(rest[j] == s[j + 1]);
        }
        if i < s.len() {
            assert(rest[i - 1] == s[i]);
        }
        lemma_token_len_at(rest, i - 1);
    }
}

/// The first whitespace-delimited word of `title`.
fn first_token(title: &str) -> (r: String)
    ensures
        r@ == spec_first_token(title@),
{
    let cs = crate::template::to_char_vec(title);
    let n = cs.len();
    let mut i: usize = 0;
    while i < n && is_space(cs[i])
        invariant
            i <= n == cs@.len(),
            cs@ == title@,
            forall|j: int| 0 <= j < i ==> spec_is_space(cs@[j]),
        decreases n - i,
    {
        i = i + 1;
    }
    proof {
        lemma_skip_spaces_at(cs@, i as int);
    }
    let mut j = i;
    while j < n && !is_space(cs[j])
        invariant
            i <= j <= n == cs@.len(),
            cs@ == title@,
            forall|k: int| i <= k < j ==> !spec_is_space(cs@[k]),
        decreases n - j,
    {
        j = j + 1;
    }
    proof {
        let t = cs@.skip(i as int);
        assert forall|k: int| 0 <= k < j - i implies !spec_is_space(t[k]) by {
            assert(t[k] == cs@[i + k]);
        }
        if j < n {
            assert(t[j - i] == cs@[j as int]);
        }
        lemma_token_len_at(t, j - i);
        assert(t.take(j - i) =~= cs@.subrange(i as int, j as int));
    }
    let mut out: Vec<char> = Vec::new();
    crate::template::push_range(&mut out, &cs, i, j);
    proof {
        assert(out@ =~= cs@.subrange(i as int, j as int));
    }
    crate::template::chars_to_string(out)
}

/// The lowercase form of a sequence of characters, as Unicode defines it.
pub uninterp spec fn lower_of(s: Seq<char>) -> Seq<char>;

/// Relies on `str::to_lowercase`: the result depends on the characters
/// alone.
#[verifier::external_body]
fn lowercase(s: &str) -> (r: String)
    ensures
        r@ == lower_of(s@),
{
    s.to_lowercase()
}

/// Relies on `uuid::Uuid::new_v4` and its simple format: a fresh random
/// identifier, printed as 32 hexadecimal digits; nothing is promised about
/// which digits come out.
#[verifier::external_body]
fn random_id() -> (r: String)
    ensures
        r@.len() == 32,
{
    uuid::Uuid::new_v4().as_simple().to_string()
}

/// The advertised instance name: the lowercased first word of the title,
/// followed by the given identifier.
fn instance_name(title: &str, id: &str) -> (r: String)
    ensures
        r@ == lower_of(spec_first_token(title@)) + id@,
{
    let tok = first_token(title);
    let mut low = lowercase(tok.as_str());
    low.append(id);
    low
}

/// The default bind address: all interfaces on port 8080.
pub open spec fn spec_default_addr() -> HttpAddr {
    HttpAddr { ip: Ipv4 { a: 0, b: 0, c: 0, d: 0 }, port: 8080 }
}

/// What a successfully built servient is, in terms of the builder that
/// produced it.
///
/// - The servient serves exactly the Thing that was assembled.
/// - Its route table maps each translated href to the merged verb→handler
///   table of the forms declared against it, the canonical document sits at
///   `/`, and the discovery path redirects to `/`.
/// - The advertised type, the CORS policy and the bind address come from
///   the HTTP binding's root contribution, the address defaulting to all
///   interfaces on port 8080.
/// - The instance name is the lowercased first word of the title followed
///   by a fresh 32-character identifier.
pub open spec fn built_servient_rel<H>(b: ThingBuilder<H>, s: Servient<H>) -> bool {
    &&& s.thing == b.thing
    &&& s.router.wf()
    &&& (spec_route_map(b.thing.all_forms()) matches Ok(m) && {
        &&& forall|p: Seq<char>|
            #[trigger] s.router.route_map().dom().contains(p) <==> (m.dom().contains(p) || p
                == "/"@ || p == "/.well-known/wot"@)
        &&& forall|p: Seq<char>|
            #[trigger] m.dom().contains(p) && p != "/"@ && p != "/.well-known/wot"@
                ==> s.router.route_map()[p] == TargetModel::Handlers(m[p])
        &&& s.router.route_map()["/"@] == TargetModel::Document::<H>
        &&& s.router.route_map()["/.well-known/wot"@] == TargetModel::RedirectToRoot::<H>
    })
    &&& (b.thing.servient_ext() matches Some(e) && {
        &&& s.permissive_cors == e.permissive_cors
        &&& s.thing_type == e.thing_type
        &&& s.http_addr == (match e.addr {
            Some(a) => a,
            None => spec_default_addr(),
        })
    })
    &&& exists|id: Seq<char>|
        s.name@ == lower_of(spec_first_token(b.thing.title@)) + id && id.len() == 32
}

impl<H: CloneHandler> ThingBuilder<H> {
    /// Build the configured servient.
    ///
    /// Compiles the assembled Thing into its route table, mounts the
    /// canonical document at `/` and the discovery redirect, resolves the
    /// bind address, starts the advertiser and derives a unique instance
    /// name.  All-or-nothing: on any failure no servient is produced.
    #[verifier::loop_isolation(false)]
    pub fn build_servient(self) -> (r: Result<Servient<H>, BuildError>)
        requires
            self.wf(),
        ensures
            match r {
                Ok(s) => built_servient_rel(self, s),
                Err(BuildError::Template(e)) => spec_route_map(self.thing.all_forms()) == Err::<
                    Map<Seq<char>, Map<Verb, H>>,
                    TemplateError,
                >(e),
                Err(BuildError::Advertisement(_)) => spec_route_map(self.thing.all_forms()) is Ok,
            },
    {
        let ghost afs = self.thing.all_forms();
        let drafts = match compile_routes(&self.thing) {
            Ok(d) => d,
            Err(e) => {
                return Err(BuildError::Template(e));
            },
        };
        let ghost dseq = drafts@;
        let ghost m = draft_map(dseq);
        // Wrap the drafts into route entries.
        let mut drafts = drafts;
        let mut entries: Vec<RouteEntry<H>> = Vec::new();
        let ghost mut i: int = 0;
        let ghost n = dseq.len();
        while drafts.len() > 0
            invariant
                0 <= i,
                i + drafts@.len() == n,
                drafts@ == dseq.skip(i),
                entries@.len() == i,
                forall|j: int|
                    0 <= j < i ==> (#[trigger] entries@[j]).path@ == dseq[j].path@ && target_model(
                        entries@[j].target,
                    ) == TargetModel::Handlers(verb_map(dseq[j].handlers@)),
            decreases drafts@.len(),
        {
            let ghost before = drafts@;
            let d = drafts.remove(0);
            proof {
                assert(before[0] == dseq.skip(i)[0]);
                assert(dseq.skip(i)[0] == dseq[i]);
                assert forall|j: int|
                    0 <= j < drafts@.len() implies drafts@[j] == dseq.skip(i + 1)[j] by {
                    assert(drafts@[j] == before.remove(0)[j]);
                    assert(before.remove(0)[j] == before[j + 1]);
                    assert(before[j + 1] == dseq.skip(i)[j + 1]);
                    assert(dseq.skip(i)[j + 1] == dseq[i + 1 + j]);
                    assert(dseq.skip(i + 1)[j] == dseq[i + 1 + j]);
                }
                assert(drafts@ =~= dseq.skip(i + 1));
            }
            entries.push(RouteEntry { path: d.path, target: RouteTarget::Handlers(d.handlers) });
            proof {
                i = i + 1;
            }
        }
        proof {
            assert(entries@.len() == dseq.len());
            lemma_entries_of_drafts(dseq, entries@);
            lemma_draft_map_props(dseq);
            assert forall|x: int, y: int|
                0 <= x < y < entries@.len() implies entries@[x].path@ != entries@[y].path@ by {
                assert(entries@[x].path@ == dseq[x].path@);
                assert(entries@[y].path@ == dseq[y].path@);
            }
        }
        // Mount the canonical document and the discovery redirect.
        mount(&mut entries, "/", RouteTarget::Document);
        mount(&mut entries, "/.well-known/wot", RouteTarget::RedirectToRoot);
        let ghost final_map = map_of_entries(entries@);
        proof {
            reveal_strlit("/");
            reveal_strlit("/.well-known/wot");
            assert("/"@ != "/.well-known/wot"@) by {
                assert("/"@.len() == 1);
                assert("/.well-known/wot"@.len() == 16);
            }
        }
        // Start the advertiser; its failure aborts the build.
        let sd = match Advertiser::new() {
            Ok(a) => a,
            Err(e) => {
                return Err(BuildError::Advertisement(e));
            },
        };
        // Derive a unique instance name.
        let id = random_id();
        let name = instance_name(self.thing.title.as_str(), id.as_str());
        // Resolve the bind address from the root contribution.
        let e = self.current_servient();
        let http_addr = match e.addr {
            Some(a) => a,
            None => HttpAddr { ip: Ipv4 { a: 0, b: 0, c: 0, d: 0 }, port: 8080 },
        };
        let s = Servient {
            name,
            thing: self.thing,
            router: RouteTable { entries },
            sd,
            http_addr,
            thing_type: e.thing_type,
            permissive_cors: e.permissive_cors,
        };
        proof {
            assert(s.router.route_map() == final_map);
            assert forall|p: Seq<char>| #[trigger]
                s.router.route_map().dom().contains(p) implies (m.dom().contains(p) || p == "/"@
                || p == "/.well-known/wot"@) by {}
            assert forall|p: Seq<char>|
                (m.dom().contains(p) || p == "/"@ || p == "/.well-known/wot"@) implies #[trigger]
                s.router.route_map().dom().contains(p) by {}
            assert forall|p: Seq<char>| #[trigger]
                m.dom().contains(p) && p != "/"@ && p != "/.well-known/wot"@ implies
                s.router.route_map()[p] == TargetModel::Handlers(m[p]) by {}
            assert(s.name@ == lower_of(spec_first_token(self.thing.title@)) + id@ && id@.len()
                == 32);
        }
        Ok(s)
    }
}

/// The set of verbs bound at path `p` across a sequence of forms.
pub open spec fn verbs_at<H>(forms: Seq<Form<H>>, p: Seq<char>) -> Set<Verb> {
    Set::new(
        |v: Verb|
            exists|i: int|
                0 <= i < forms.len() && spec_translate((#[trigger] forms[i]).href@) == Ok::<
                    Seq<char>,
                    TemplateError,
                >(p) && verb_set(forms[i].binding()).contains(v),
    )
}

/// Merging a form's bindings adds exactly that form's verbs to a path's
/// table.
proof fn lemma_merge_into_dom<H>(vm: Map<Verb, H>, hs: Seq<VerbHandler<H>>)
    ensures
        merge_into(vm, hs).dom() == vm.dom().union(verb_set(hs)),
    decreases hs.len(),
{
    if hs.len() == 0 {
        assert(verb_set(hs) =~= Set::<Verb>::empty());
        assert(merge_into(vm, hs).dom() =~= vm.dom().union(verb_set(hs)));
    } else {
        let rest = hs.drop_last();
        lemma_merge_into_dom(vm, rest);
        assert forall|v: Verb| verb_set(hs).contains(v) implies verb_set(rest).insert(
            hs.last().verb,
        ).contains(v) by {
            let i = choose|i: int| 0 <= i < hs.len() && hs[i].verb == v;
            if i < hs.len() - 1 {
                assert(rest[i] == hs[i]);
                assert(verb_set(rest).contains(v));
            }
        }
        assert forall|v: Verb|
            verb_set(rest).insert(hs.last().verb).contains(v) implies verb_set(hs).contains(
            v,
        ) by {
            if v == hs.last().verb {
                assert(hs[hs.len() - 1].verb == v);
            } else {
                let i = choose|i: int| 0 <= i < rest.len() && rest[i].verb == v;
                assert(hs[i] == rest[i]);
            }
        }
        assert(verb_set(hs) =~= verb_set(rest).insert(hs.last().verb));
        assert(merge_into(vm, hs).dom() =~= vm.dom().union(verb_set(hs)));
    }
}

/// The compiled route table's path set equals exactly the set of distinct
/// translated hrefs, and each path exposes the union of the verbs of all
/// forms declared against it, whichever forms — top-level or of a property,
/// action or event — those are.
pub proof fn lemma_route_paths<H>(forms: Seq<Form<H>>)
    requires
        spec_route_map(forms) is Ok,
    ensures
        spec_route_map(forms) matches Ok(m) && {
            &&& forall|p: Seq<char>|
                #[trigger] m.dom().contains(p) ==> exists|i: int|
                    0 <= i < forms.len() && spec_translate((#[trigger] forms[i]).href@) == Ok::<
                        Seq<char>,
                        TemplateError,
                    >(p)
            &&& forall|i: int, p: Seq<char>|
                #![trigger spec_translate(forms[i].href@), m.dom().contains(p)]
                0 <= i < forms.len() && spec_translate(forms[i].href@) == Ok::<
                    Seq<char>,
                    TemplateError,
                >(p) ==> m.dom().contains(p)
            &&& forall|p: Seq<char>| #[trigger] m.dom().contains(p) ==> m[p].dom() == verbs_at(forms, p)
        },
    decreases forms.len(),
{
    let m = spec_route_map(forms)->Ok_0;
    if forms.len() == 0 {
        assert(m.dom() == Map::<Seq<char>, Map<Verb, H>>::empty().dom());
    } else {
        let rest = forms.drop_last();
        let last = forms.last();
        assert(spec_route_map(rest) is Ok);
        let m0 = spec_route_map(rest)->Ok_0;
        lemma_route_paths(rest);
        let q = spec_translate(last.href@)->Ok_0;
        assert(spec_translate(last.href@) is Ok);
        let base: Map<Verb, H> = if m0.dom().contains(q) {
            m0[q]
        } else {
            Map::empty()
        };
        assert(m == m0.insert(q, merge_into(base, last.binding())));
        lemma_merge_into_dom(base, last.binding());
        // Path set, first direction.
        assert forall|p: Seq<char>| #[trigger] m.dom().contains(p) implies exists|i: int|
            0 <= i < forms.len() && spec_translate((#[trigger] forms[i]).href@) == Ok::<
                Seq<char>,
                TemplateError,
            >(p) by {
            if p == q {
                assert(forms[forms.len() - 1] == last);
                assert(spec_translate(forms[forms.len() - 1].href@) == Ok::<
                    Seq<char>,
                    TemplateError,
                >(p));
            } else {
                assert(m0.dom().contains(p));
                let i = choose|i: int|
                    0 <= i < rest.len() && spec_translate((#[trigger] rest[i]).href@) == Ok::<
                        Seq<char>,
                        TemplateError,
                    >(p);
                assert(forms[i] == rest[i]);
                assert(spec_translate(forms[i].href@) == Ok::<Seq<char>, TemplateError>(p));
            }
        }
        // Path set, second direction.
        assert forall|i: int, p: Seq<char>|
            #![trigger spec_translate(forms[i].href@), m.dom().contains(p)]
            0 <= i < forms.len() && spec_translate(forms[i].href@) == Ok::<
                Seq<char>,
                TemplateError,
            >(p) implies m.dom().contains(p) by {
            if i < forms.len() - 1 {
                assert(rest[i] == forms[i]);
                assert(m0.dom().contains(p));
            }
        }
        // Verbs per path.
        assert forall|p: Seq<char>| #[trigger] m.dom().contains(p) implies m[p].dom() == verbs_at(
            forms,
            p,
        ) by {
            if p != q {
                assert(m[p] == m0[p]);
                assert(m0.dom().contains(p));
                assert(m0[p].dom() == verbs_at(rest, p));
                assert forall|v: Verb| verbs_at(rest, p).contains(v) implies verbs_at(
                    forms,
                    p,
                ).contains(v) by {
                    let i = choose|i: int|
                        0 <= i < rest.len() && spec_translate((#[trigger] rest[i]).href@) == Ok::<
                            Seq<char>,
                            TemplateError,
                        >(p) && verb_set(rest[i].binding()).contains(v);
                    assert(forms[i] == rest[i]);
                    assert(spec_translate(forms[i].href@) == Ok::<Seq<char>, TemplateError>(p)
                        && verb_set(forms[i].binding()).contains(v));
                }
                assert forall|v: Verb| verbs_at(forms, p).contains(v) implies verbs_at(
                    rest,
                    p,
                ).contains(v) by {
                    let i = choose|i: int|
                        0 <= i < forms.len() && spec_translate((#[trigger] forms[i]).href@) == Ok::<
                            Seq<char>,
                            TemplateError,
                        >(p) && verb_set(forms[i].binding()).contains(v);
                    assert(i < forms.len() - 1);
                    assert(rest[i] == forms[i]);
                    assert(spec_translate(rest[i].href@) == Ok::<Seq<char>, TemplateError>(p)
                        && verb_set(rest[i].binding()).contains(v));
                }
                assert(verbs_at(forms, p) =~= verbs_at(rest, p));
            } else {
                assert(m[q] == merge_into(base, last.binding()));
                assert(m[q].dom() == base.dom().union(verb_set(last.binding())));
                if !m0.dom().contains(q) {
                    assert forall|v: Verb| !verbs_at(rest, q).contains(v) by {
                        if verbs_at(rest, q).contains(v) {
                            let i = choose|i: int|
                                0 <= i < rest.len() && spec_translate(
                                    (#[trigger] rest[i]).href@,
                                ) == Ok::<Seq<char>, TemplateError>(q) && verb_set(
                                    rest[i].binding(),
                                ).contains(v);
                            assert(m0.dom().contains(q));
                        }
                    }
                    assert(base.dom() =~= verbs_at(rest, q));
                } else {
                    assert(base.dom() == verbs_at(rest, q));
                }
                assert forall|v: Verb|
                    verbs_at(rest, q).union(verb_set(last.binding())).contains(v) implies verbs_at(
                    forms,
                    q,
                ).contains(v) by {
                    if verbs_at(rest, q).contains(v) {
                        let i = choose|i: int|
                            0 <= i < rest.len() && spec_translate((#[trigger] rest[i]).href@)
                                == Ok::<Seq<char>, TemplateError>(q) && verb_set(
                                rest[i].binding(),
                            ).contains(v);
                        assert(forms[i] == rest[i]);
                        assert(spec_translate(forms[i].href@) == Ok::<Seq<char>, TemplateError>(q)
                            && verb_set(forms[i].binding()).contains(v));
                    } else {
                        assert(forms[forms.len() - 1] == last);
                        assert(spec_translate(forms[forms.len() - 1].href@) == Ok::<
                            Seq<char>,
                            TemplateError,
                        >(q) && verb_set(forms[forms.len() - 1].binding()).contains(v));
                    }
                }
                assert forall|v: Verb| verbs_at(forms, q).contains(v) implies verbs_at(
                    rest,
                    q,
                ).union(verb_set(last.binding())).contains(v) by {
                    let i = choose|i: int|
                        0 <= i < forms.len() && spec_translate((#[trigger] forms[i]).href@) == Ok::<
                            Seq<char>,
                            TemplateError,
                        >(q) && verb_set(forms[i].binding()).contains(v);
                    if i < forms.len() - 1 {
                        assert(rest[i] == forms[i]);
                        assert(spec_translate(rest[i].href@) == Ok::<Seq<char>, TemplateError>(q)
                            && verb_set(rest[i].binding()).contains(v));
                    }
                }
                assert(verbs_at(forms, q) =~= verbs_at(rest, q).union(verb_set(last.binding())));
                assert(m[q].dom() =~= verbs_at(forms, q));
            }
        }
    }
}

/// Servients built from schemas with identical titles still get distinct
/// advertised instance names, as long as their fresh random identifiers
/// differ.
pub proof fn lemma_distinct_instance_names(title: Seq<char>, id1: Seq<char>, id2: Seq<char>)
    requires
        id1 != id2,
    ensures
        lower_of(spec_first_token(title)) + id1 != lower_of(spec_first_token(title)) + id2,
{
    let p = lower_of(spec_first_token(title));
    if p + id1 == p + id2 {
        assert((p + id1).len() == (p + id2).len());
        assert(id1.len() == id2.len());
        assert forall|k: int| 0 <= k < id1.len() implies id1[k] == id2[k] by {
            assert((p + id1)[p.len() + k] == id1[k]);
            assert((p + id2)[p.len() + k] == id2[k]);
        }
        assert(id1 =~= id2);
    }
}

/// Extend `r` with a contribution its kinds do not hold yet.
fn extend_or_same<V>(r: Registry<V>, kind: u64, value: V) -> (o: Registry<V>)
    requires
        !r.spec_contains(kind),
        r.wf(),
    ensures
        o.wf(),
        o.kinds() == r.kinds().push(kind),
        o.spec_lookup(kind) == Some(value),
        forall|k: u64| k != kind ==> o.spec_lookup(k) == r.spec_lookup(k),
{
    match r.extend(kind, value) {
        Ok(o) => o,
        Err(_) => {
            proof {
                assert(false);
            }
            Registry::empty()
        },
    }
}

} // verus!
