//! The Web of Things servient.
//!
//! A [`Servient`] is what the route compiler produces from a finalized
//! Thing Description: the immutable route table, the canonical document
//! route, the advertisement state and the resolved bind address.  Serving —
//! advertise first, then listen — is driven by the embedding application,
//! which mounts the route table on its HTTP stack.

use vstd::prelude::*;

use crate::advertise::{Advertiser, AdvertisementError, ServiceBuilder, ThingType};
use crate::thing::{verb_map, HttpAddr, Thing, Verb, VerbHandler};

pub mod builder;

pub use builder::{
    built_servient_rel, AffordanceBuilder, Extension, FormBuilder, PositionSeeds, ThingBuilder,
};

verus! {

/// Error type for the servient.
#[derive(Debug)]
pub enum ServientError {
    /// Error from the http application server, as its message.
    Http(String),
    /// Error setting up the mDNS advertiser.
    Advertise(AdvertisementError),
}

/// Construction-time failure while assembling the schema.
#[derive(Debug, Clone, Copy, PartialEq, Eq, Structural)]
pub enum SchemaBuildError {
    /// A second contribution of an already-present capability kind.
    DuplicateCapability,
    /// A module was registered after the extension phase was finished.
    ExtendAfterFinish,
    /// A form without an href cannot be routed.
    MissingFormHref,
    /// A property, action or event name was used twice.
    DuplicateAffordance,
    /// A form was shaped before the last module was registered, so its
    /// capability chain does not match the root's.
    CapabilityShapeMismatch,
}

/// Why no servient could be built.
#[derive(Debug)]
pub enum BuildError {
    /// A form href could not be translated into a route path.
    Template(crate::template::TemplateError),
    /// The advertiser could not be started.
    Advertisement(AdvertisementError),
}

/// What one route serves.
pub enum RouteTarget<H> {
    /// The merged verb→handler table of the forms sharing this path.
    Handlers(Vec<VerbHandler<H>>),
    /// The canonical Thing Description document.
    Document,
    /// A redirect to the document at `/`.
    RedirectToRoot,
}

/// The meaning of a route target: handler tables are read as maps.
pub enum TargetModel<H> {
    /// A verb→handler map.
    Handlers(Map<Verb, H>),
    /// The canonical document.
    Document,
    /// A redirect to `/`.
    RedirectToRoot,
}

/// The meaning of one target.
pub open spec fn target_model<H>(t: RouteTarget<H>) -> TargetModel<H> {
    match t {
        RouteTarget::Handlers(hs) => TargetModel::Handlers(verb_map(hs@)),
        RouteTarget::Document => TargetModel::Document,
        RouteTarget::RedirectToRoot => TargetModel::RedirectToRoot,
    }
}

/// One route: a path pattern and what it serves.
pub struct RouteEntry<H> {
    /// The path pattern, as the router understands it.
    pub path: String,
    /// What the path serves.
    pub target: RouteTarget<H>,
}

/// The compiled route table: one entry per distinct path, built once and
/// immutable afterwards.
pub struct RouteTable<H> {
    /// The routes, each path once.
    pub entries: Vec<RouteEntry<H>>,
}

/// The map a sequence of route entries stands for; a later entry for a path
/// would replace an earlier one.
pub open spec fn map_of_entries<H>(entries: Seq<RouteEntry<H>>) -> Map<Seq<char>, TargetModel<H>>
    decreases entries.len(),
{
    if entries.len() == 0 {
        Map::empty()
    } else {
        map_of_entries(entries.drop_last()).insert(
            entries.last().path@,
            target_model(entries.last().target),
        )
    }
}

impl<H> RouteTable<H> {
    /// The route table as a map from path pattern to target.
    pub open spec fn route_map(self) -> Map<Seq<char>, TargetModel<H>> {
        map_of_entries(self.entries@)
    }

    /// Each path appears once: the table and its map say the same thing.
    pub open spec fn wf(self) -> bool {
        forall|i: int, j: int|
            0 <= i < j < self.entries@.len() ==> self.entries@[i].path@ != self.entries@[j].path@
    }
}

/// WoT servient serving a Thing.
///
/// The Thing Description and the route table are built at the same time
/// using [`Servient::builder`].
pub struct Servient<H> {
    /// The advertised instance name.
    pub name: String,
    /// The Thing Description representing the servient.
    pub thing: Thing<H>,
    /// The compiled route table.
    pub router: RouteTable<H>,
    /// DNS-SD advertisement state.
    pub sd: Advertiser,
    /// Address the http server will bind to.
    pub http_addr: HttpAddr,
    /// The type of thing advertised.
    pub thing_type: ThingType,
    /// Whether every route answers any origin and any method.
    pub permissive_cors: bool,
}

impl<H> Servient<H> {
    /// The service description this servient advertises: its own instance
    /// name, thing type and port over the advertiser's defaults, so the
    /// record registered by [`Servient::advertise`] is exactly this
    /// builder's [`ServiceBuilder::service_record`].
    pub fn service_builder<'a>(&'a self) -> (b: ServiceBuilder<'a>)
        ensures
            b.name@ == self.name@,
            b.ty == self.thing_type,
            b.port == self.http_addr.port,
            b.path@ == crate::advertise::WELL_KNOWN@,
            b.hostname@ == self.sd.hostname@,
            b.ips@ == self.sd.ips@,
    {
        self.sd.add_service(self.name.as_str()).thing_type(self.thing_type).port(
            self.http_addr.port,
        )
    }

    /// Advertise the servient: register the [`Servient::service_builder`]
    /// record — instance name, thing type, port, well-known document path —
    /// with the responder, which alone may refuse it.
    ///
    /// Serving is "advertise, then listen": the embedding application calls
    /// this first and starts the HTTP listener only when it succeeded.
    pub fn advertise(&self) -> (r: Result<(), AdvertisementError>)
        ensures
            r matches Err(e) ==> e is Mdns,
    {
        self.service_builder().build()
    }
}

} // verus!
