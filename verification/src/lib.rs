//! Web of Things application server building blocks.
//!
//! Compiles a Thing Description — properties, actions and events, each with
//! protocol forms — into an HTTP route table and a DNS-SD advertisement:
//!
//! - [`registry`]: the capability registry through which independent
//!   protocol-binding modules each shape every structural position of the
//!   schema;
//! - [`thing`]: the Thing Description model itself;
//! - [`template`]: the URI-Template-to-route-path translator;
//! - [`servient`]: the builder and the route compiler producing a
//!   [`servient::Servient`];
//! - [`advertise`]: the DNS-SD service advertisement.

pub mod advertise;
pub mod registry;
pub mod template;
pub mod servient;
pub mod thing;
