use wot_serve::advertise::{Ipv4, ThingType};
use wot_serve::servient::{RouteTarget, Servient};
use wot_serve::thing::{FormOperation, HttpAddr, Verb};

fn verbs_of(target: &RouteTarget<String>) -> Vec<Verb> {
    match target {
        RouteTarget::Handlers(hs) => hs.iter().map(|vh| vh.verb).collect(),
        _ => panic!("not a handler route"),
    }
}

fn handler_for<'a>(target: &'a RouteTarget<String>, verb: Verb) -> &'a String {
    match target {
        RouteTarget::Handlers(hs) => {
            &hs.iter().find(|vh| vh.verb == verb).expect("verb not bound").handler
        }
        _ => panic!("not a handler route"),
    }
}

fn find_route<'a>(
    s: &'a Servient<String>,
    path: &str,
) -> &'a wot_serve::servient::RouteEntry<String> {
    s.router
        .entries
        .iter()
        .find(|e| e.path == path)
        .expect("route not found")
}

#[test]
fn build_servient() {
    let b = Servient::<String>::builder("test").finish_extend();
    let f = b
        .form_builder()
        .href("/ref")
        .http_get("Hello, World!".to_owned())
        .op(FormOperation::ReadAllProperties);
    let b = b.form(f).unwrap();
    let f = b
        .form_builder()
        .href("/ref2")
        .http_get("Hello, World! 2".to_owned())
        .op(FormOperation::ReadAllProperties);
    let b = b.form(f).unwrap();
    let servient = b.build_servient().unwrap();

    assert_eq!(servient.router.entries.len(), 4);
    assert_eq!(
        handler_for(&find_route(&servient, "/ref").target, Verb::Get),
        "Hello, World!"
    );
    assert_eq!(
        handler_for(&find_route(&servient, "/ref2").target, Verb::Get),
        "Hello, World! 2"
    );
}

#[test]
fn build_servient_property() {
    let b = Servient::<String>::builder("test").finish_extend();
    let a = b.affordance_builder();
    let f1 = b
        .form_builder()
        .href("/hello")
        .http_get("Reading Hello, World!".to_owned())
        .op(FormOperation::ReadProperty);
    let f2 = b
        .form_builder()
        .href("/hello")
        .http_put("Writing Hello, World!".to_owned())
        .op(FormOperation::WriteProperty);
    let a = a.schema(wot_serve::thing::DataKind::Null).form(f1).form(f2);
    let b = b.property("hello", a).unwrap();
    let servient = b.build_servient().unwrap();

    // Both forms share one href: one route with the union of the verbs.
    let entry = find_route(&servient, "/hello");
    let mut verbs = verbs_of(&entry.target);
    verbs.sort();
    assert_eq!(verbs, vec![Verb::Get, Verb::Put]);
    assert_eq!(handler_for(&entry.target, Verb::Get), "Reading Hello, World!");
    assert_eq!(handler_for(&entry.target, Verb::Put), "Writing Hello, World!");
}

#[test]
fn build_servient_action() {
    let b = Servient::<String>::builder("test").finish_extend();

    let a = b.affordance_builder();
    let f = b
        .form_builder()
        .href("/say_hello")
        .http_post("Saying Hello, World!".to_owned());
    let a = a.schema(wot_serve::thing::DataKind::Number).form(f);
    let b = b.action("hello", a).unwrap();

    let a = b.affordance_builder();
    let f = b
        .form_builder()
        .href("/update_hello")
        .http_patch("Updating Hello, World!".to_owned());
    let a = a.form(f);
    let b = b.action("update", a).unwrap();

    let a = b.affordance_builder();
    let f = b
        .form_builder()
        .href("/delete_hello")
        .http_delete("Goodbye, World!".to_owned());
    let a = a.form(f);
    let b = b.action("delete", a).unwrap();

    let servient = b.build_servient().unwrap();
    assert_eq!(
        handler_for(&find_route(&servient, "/say_hello").target, Verb::Post),
        "Saying Hello, World!"
    );
    assert_eq!(
        handler_for(&find_route(&servient, "/update_hello").target, Verb::Patch),
        "Updating Hello, World!"
    );
    assert_eq!(
        handler_for(&find_route(&servient, "/delete_hello").target, Verb::Delete),
        "Goodbye, World!"
    );
}

#[test]
fn servient_setup() {
    let addr = HttpAddr {
        ip: Ipv4 { a: 0, b: 0, c: 0, d: 0 },
        port: 3000,
    };
    let servient = Servient::<String>::builder("test me")
        .finish_extend()
        .http_bind(addr)
        .thing_type(ThingType::Directory)
        .http_disable_permissive_cors()
        .build_servient()
        .unwrap();

    assert_eq!(servient.http_addr, addr);
    assert_eq!(servient.thing_type, ThingType::Directory);
    assert!(!servient.permissive_cors);
}

#[test]
fn route_paths_are_translated_hrefs() {
    // Forms spread across top-level, a property and an action: the path set
    // is exactly the set of distinct translated hrefs.
    let b = Servient::<String>::builder("spread").finish_extend();
    let f = b
        .form_builder()
        .href("/all")
        .http_get("all".to_owned())
        .op(FormOperation::ReadAllProperties);
    let b = b.form(f).unwrap();

    let a = b.affordance_builder();
    let f = b
        .form_builder()
        .href("/properties{/prop}")
        .http_get("prop".to_owned())
        .op(FormOperation::ReadProperty);
    let a = a.form(f);
    let b = b.property("p", a).unwrap();

    let a = b.affordance_builder();
    let f = b
        .form_builder()
        .href("/actions/fade/{action_id}")
        .http_post("fade".to_owned());
    let a = a.form(f);
    let b = b.action("fade", a).unwrap();

    let servient = b.build_servient().unwrap();
    let mut paths: Vec<&str> = servient.router.entries.iter().map(|e| e.path.as_str()).collect();
    paths.sort();
    assert_eq!(
        paths,
        vec!["/", "/.well-known/wot", "/actions/fade/:action_id", "/all", "/properties/:prop"]
    );
}

#[test]
fn document_served_from_root() {
    // The canonical document sits at `/`, whatever was registered.
    let b = Servient::<String>::builder("doc").finish_extend();
    let f = b.form_builder().href("/r").http_get("h".to_owned()).op(FormOperation::ReadAllProperties);
    let b = b.form(f).unwrap();
    let servient = b.build_servient().unwrap();
    assert!(matches!(
        find_route(&servient, "/").target,
        RouteTarget::Document
    ));
    // The served Thing is exactly what was registered.
    assert_eq!(servient.thing.title, "doc");
    assert_eq!(servient.thing.forms.len(), 1);
    assert_eq!(servient.thing.forms[0].href, "/r");
    assert_eq!(servient.thing.forms[0].ops, vec![FormOperation::ReadAllProperties]);
}

#[test]
fn well_known_redirects_to_root() {
    let servient = Servient::<String>::builder("redir")
        .finish_extend()
        .build_servient()
        .unwrap();
    assert!(matches!(
        find_route(&servient, "/.well-known/wot").target,
        RouteTarget::RedirectToRoot
    ));
}

#[test]
fn cors_default_on_and_disabled() {
    let on = Servient::<String>::builder("c").finish_extend().build_servient().unwrap();
    assert!(on.permissive_cors);
    let off = Servient::<String>::builder("c")
        .finish_extend()
        .http_disable_permissive_cors()
        .build_servient()
        .unwrap();
    assert!(!off.permissive_cors);
}

#[test]
fn default_bind_address() {
    let servient = Servient::<String>::builder("d").finish_extend().build_servient().unwrap();
    assert_eq!(
        servient.http_addr,
        HttpAddr { ip: Ipv4 { a: 0, b: 0, c: 0, d: 0 }, port: 8080 }
    );
}

#[test]
fn distinct_names_for_same_title() {
    // Identical titles: the random identifier keeps the advertised names
    // distinct, and both begin with the lowercased first title word.
    let s1 = Servient::<String>::builder("Test Me").finish_extend().build_servient().unwrap();
    let s2 = Servient::<String>::builder("Test Me").finish_extend().build_servient().unwrap();
    assert!(s1.name.starts_with("test"));
    assert!(s2.name.starts_with("test"));
    assert_eq!(s1.name.len(), "test".len() + 32);
    assert_ne!(s1.name, s2.name);
}

#[test]
fn untranslatable_href_fails_build() {
    let b = Servient::<String>::builder("bad").finish_extend();
    let f = b
        .form_builder()
        .href("/bad/{a,b}")
        .http_get("h".to_owned())
        .op(FormOperation::ReadAllProperties);
    let b = b.form(f).unwrap();
    match b.build_servient() {
        Err(wot_serve::servient::BuildError::Template(e)) => {
            assert_eq!(e, wot_serve::template::TemplateError::MultipleVariables);
        }
        _ => panic!("expected a template error"),
    }
}

#[test]
fn missing_href_is_rejected() {
    let b = Servient::<String>::builder("nohref").finish_extend();
    let f = b.form_builder().http_get("h".to_owned());
    match b.form(f) {
        Err(wot_serve::servient::SchemaBuildError::MissingFormHref) => {}
        _ => panic!("expected a missing-href error"),
    }
}

#[test]
fn duplicate_affordance_is_rejected() {
    let b = Servient::<String>::builder("dup").finish_extend();
    let a = b.affordance_builder();
    let b = b.property("p", a).unwrap();
    let a = b.affordance_builder();
    match b.property("p", a) {
        Err(wot_serve::servient::SchemaBuildError::DuplicateAffordance) => {}
        _ => panic!("expected a duplicate-affordance error"),
    }
}

#[test]
fn base_uri_is_kept() {
    let servient = Servient::<String>::builder("based")
        .finish_extend()
        .base("http://device.local:8080/")
        .build_servient()
        .unwrap();
    assert_eq!(servient.thing.base.as_deref(), Some("http://device.local:8080/"));
    let bare = Servient::<String>::builder("bare").finish_extend().build_servient().unwrap();
    assert_eq!(bare.thing.base, None);
}
