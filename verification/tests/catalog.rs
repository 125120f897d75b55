use zenoh_dissector::header_field::FieldDisplay;
use zenoh_dissector::header_field::FieldKind;
use zenoh_dissector::header_field::FieldValueType;
use zenoh_dissector::header_field::HeaderFieldMap;
use zenoh_dissector::header_field::check_unique;
use zenoh_dissector::header_field::Registration;
use zenoh_dissector::tree::TreeEvent;
use zenoh_dissector::tree::render_value;
use zenoh_dissector::value::Value;
use zenoh_dissector::zenoh_impl::ZenohProtocol;

#[test]
fn registry_has_no_duplicate_subtree_paths() {
    let names = ZenohProtocol::generate_subtree_names("zenoh");
    let mut sorted = names.clone();
    sorted.sort();
    let before = sorted.len();
    sorted.dedup();
    assert_eq!(before, sorted.len(), "duplicate subtree path registered");
    assert!(!names.is_empty());
    assert_eq!(names[0], "zenoh");
}

#[test]
fn descriptor_map_knows_the_expected_fields() {
    let map = ZenohProtocol::generate_hf_map("zenoh");
    let root = map.get("zenoh").expect("root entry");
    assert_eq!(root.name, "ZenohProtocol");
    assert!(matches!(root.kind, FieldKind::Branch));

    let body = map.get("zenoh.body").expect("transport body branch");
    assert_eq!(body.name, "TransportBody");
    assert!(matches!(body.kind, FieldKind::Branch));

    // Title-casing of a member name: convert_case must really run.
    let batch_size = map.get("zenoh.body.init_syn.batch_size").expect("init_syn batch_size");
    assert_eq!(batch_size.name, "Batch Size");
    assert!(matches!(batch_size.kind, FieldKind::Text));

    // Snake-casing of a variant name: "KeepAlive" becomes "keep_alive".
    assert!(map.get("zenoh.body.keep_alive").is_none());
    let close_reason = map.get("zenoh.body.close.reason").expect("close reason");
    assert_eq!(close_reason.name, "Reason");

    // The repeated member registers a branch under the element type name.
    let frame_payload = map.get("zenoh.body.frame.payload").expect("frame payload");
    assert_eq!(frame_payload.name, "NetworkMessage");
    assert!(matches!(frame_payload.kind, FieldKind::Branch));

    // Nothing is registered under paths the schema does not declare.
    assert!(map.get("zenoh.nothing").is_none());
}

#[test]
fn subtree_catalog_lists_expected_containers() {
    let names = ZenohProtocol::generate_subtree_names("zenoh");
    assert!(names.contains(&String::from("zenoh")));
    assert!(names.contains(&String::from("zenoh.body")));
    assert!(names.contains(&String::from("zenoh.body.frame.payload")));
    assert!(names.contains(&String::from("zenoh.body.frame.payload.body")));
}

#[test]
fn header_field_map_add_and_get() {
    let map = HeaderFieldMap::new().add(String::from("p.x"), "The X", FieldKind::Text).add(
        String::from("p.y"),
        "The Y",
        FieldKind::Branch,
    );
    assert_eq!(map.len(), 2);
    assert_eq!(map.get("p.x").unwrap().name, "The X");
    assert_eq!(map.get("p.y").unwrap().name, "The Y");
    assert!(map.get("p.z").is_none());
}

#[test]
fn field_kind_converts_to_host_registration() {
    assert!(matches!(
        FieldKind::Text.convert(),
        (FieldDisplay::BaseNone, FieldValueType::StringValue)
    ));
    assert!(matches!(
        FieldKind::Branch.convert(),
        (FieldDisplay::BaseNone, FieldValueType::NoValue)
    ));
}

#[test]
fn rendered_subtree_opens_follow_catalog_order() {
    let registry = ZenohProtocol::registry("zenoh");
    // A Frame carrying one (empty-bodied) network message exercises
    // nested subtrees: zenoh.body, then zenoh.body.frame.payload's body.
    let frame = Value::structure(vec![Value::union(
        6,
        Value::structure(vec![
            Value::leaf("Reliable"),
            Value::leaf("0"),
            Value::leaf("qos"),
            Value::repeated(vec![Value::structure(vec![Value::union(
                3,
                Value::structure(vec![
                    Value::leaf("42"),
                    Value::leaf("qos"),
                    Value::leaf("None"),
                ]),
            )])]),
        ]),
    )]);
    let mut events: Vec<TreeEvent> = Vec::new();
    render_value(
        &frame,
        &registry.schema,
        "zenoh",
        0,
        10,
        &registry.hf_map,
        &registry.subtrees,
        &mut events,
    )
    .expect("rendering a conforming frame succeeds");
    let opened: Vec<String> = events
        .iter()
        .filter_map(|e| match e {
            TreeEvent::Open { path, .. } => Some(path.clone()),
            _ => None,
        })
        .collect();
    assert!(!opened.is_empty());
    // Each opened path must exist in the catalog, and the sequence of
    // first positions must be strictly increasing: catalog index order
    // equals the subtree-open order.
    let catalog = &registry.subtrees;
    let mut last_pos: Option<usize> = None;
    for path in &opened {
        let pos = catalog.iter().position(|c| c == path).expect("opened path is registered");
        if let Some(prev) = last_pos {
            assert!(pos > prev, "subtree {path} opened out of catalog order");
        }
        last_pos = Some(pos);
    }
}

#[test]
fn registry_passes_the_uniqueness_check() {
    let map = ZenohProtocol::generate_hf_map("zenoh");
    assert!(check_unique(&map).is_ok());
}

#[test]
fn colliding_paths_are_reported() {
    let map = HeaderFieldMap::new()
        .add(String::from("p.x"), "One", FieldKind::Text)
        .add(String::from("p.x"), "Two", FieldKind::Text);
    let err = check_unique(&map).expect_err("collision must be caught");
    assert_eq!(err.path, "p.x");
}

#[test]
fn initialization_applies_the_uniqueness_assertion() {
    let reg = zenoh_dissector::zenoh_impl::ZenohProtocol::initialize("zenoh")
        .expect("the protocol schema is collision-free");
    assert_eq!(reg.prefix, "zenoh");
}

#[test]
fn registration_is_deterministic_across_calls() {
    let names_a = ZenohProtocol::generate_subtree_names("zenoh");
    let names_b = ZenohProtocol::generate_subtree_names("zenoh");
    assert_eq!(names_a, names_b);
    let map_a = ZenohProtocol::generate_hf_map("zenoh");
    let map_b = ZenohProtocol::generate_hf_map("zenoh");
    assert_eq!(map_a.len(), map_b.len());
    for path in &names_a {
        let a = map_a.get(path).expect("every subtree path has a descriptor");
        let b = map_b.get(path).expect("every subtree path has a descriptor");
        assert_eq!(a.name, b.name);
        assert_eq!(format!("{:?}", a.kind), format!("{:?}", b.kind));
    }
}
