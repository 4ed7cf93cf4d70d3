use wot_serve::registry::{Registry, RegistryError};
use wot_serve::servient::{Extension, Servient};
use wot_serve::thing::Capability;

#[test]
fn extend_and_lookup() {
    let r: Registry<u32> = Registry::empty();
    let r = r.extend(1, 10).unwrap();
    let r = r.extend(2, 20).unwrap();
    assert_eq!(r.lookup(1), Some(&10));
    assert_eq!(r.lookup(2), Some(&20));
    assert_eq!(r.lookup(3), None);
}

#[test]
fn duplicate_kind_is_rejected() {
    let r: Registry<u32> = Registry::empty();
    let r = r.extend(1, 10).unwrap();
    match r.extend(1, 11) {
        Err(RegistryError::DuplicateCapability) => {}
        _ => panic!("a second contribution of one kind must be rejected"),
    }
}

#[test]
fn set_value_replaces_in_place() {
    let r: Registry<u32> = Registry::empty();
    let mut r = r.extend(1, 10).unwrap().extend(2, 20).unwrap();
    assert!(r.set_value(2, 21));
    assert_eq!(r.lookup(1), Some(&10));
    assert_eq!(r.lookup(2), Some(&21));
    assert!(!r.set_value(3, 30));
    assert_eq!(r.lookup(3), None);
}

#[test]
fn extension_propagates_to_every_position() {
    // Registering a module at the root makes its slot available on every
    // position created afterwards: forms, affordances, data schemas.
    let b = Servient::<String>::builder("things");
    let b = b.ext(Extension::inert(7)).unwrap();
    let b = b.finish_extend();

    let f = b.form_builder();
    assert!(matches!(f.ext.lookup(7), Some(Capability::Inert)));
    assert!(matches!(f.response_ext.lookup(7), Some(Capability::Inert)));

    let a = b.affordance_builder();
    assert!(matches!(a.interaction_ext.lookup(7), Some(Capability::Inert)));
    let a = a.schema(wot_serve::thing::DataKind::Object);
    let schema = a.data_schema.as_ref().unwrap();
    assert!(matches!(schema.ext.lookup(7), Some(Capability::Inert)));
    assert!(matches!(schema.object_ext.lookup(7), Some(Capability::Inert)));
    assert!(matches!(schema.array_ext.lookup(7), Some(Capability::Inert)));
}

#[test]
fn duplicate_module_is_rejected() {
    let b = Servient::<String>::builder("things");
    let b = b.ext(Extension::inert(7)).unwrap();
    match b.ext(Extension::inert(7)) {
        Err(wot_serve::servient::SchemaBuildError::DuplicateCapability) => {}
        _ => panic!("a second module of one kind must be rejected"),
    }
}

#[test]
fn extend_after_finish_is_rejected() {
    let b = Servient::<String>::builder("things").finish_extend();
    match b.ext(Extension::inert(7)) {
        Err(wot_serve::servient::SchemaBuildError::ExtendAfterFinish) => {}
        _ => panic!("registering after the extension phase must be rejected"),
    }
}

#[test]
fn foreign_contribution_rides_along() {
    // A module's per-form contribution can be replaced and is carried into
    // the built Thing beside the HTTP binding's own table.
    let b = Servient::<String>::builder("alongside");
    let b = b.ext(Extension::inert(9)).unwrap();
    let b = b.finish_extend();
    let f = b
        .form_builder()
        .href("/r")
        .http_get("h".to_owned())
        .ext(9, Capability::Inert);
    let b = b.form(f).unwrap();
    let servient = b.build_servient().unwrap();
    let form = &servient.thing.forms[0];
    assert!(matches!(form.ext.lookup(9), Some(Capability::Inert)));
    assert!(matches!(form.ext.lookup(wot_serve::thing::SERVIENT_KIND), Some(Capability::Http(_))));
}

#[test]
fn stale_form_shape_is_rejected() {
    // A form shaped before the last module was registered no longer matches
    // the root's capability chain.
    let b = Servient::<String>::builder("stale");
    let f = b.form_builder().href("/r").http_get("h".to_owned());
    let b = b.ext(Extension::inert(5)).unwrap();
    let b = b.finish_extend();
    match b.form(f) {
        Err(wot_serve::servient::SchemaBuildError::CapabilityShapeMismatch) => {}
        _ => panic!("expected a shape mismatch"),
    }
}
