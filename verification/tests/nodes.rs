use svd_encoder::cases::CaseStyle;
use svd_encoder::config::Config;
use svd_encoder::model::{RegisterCluster, RegisterInfo, RegisterProperties};
use svd_encoder::modified_write_values::ModifiedWriteValues;
use svd_encoder::node::{new_node, Node};
use svd_encoder::numbers::NumberFormat;
use svd_encoder::access::Access;

fn leaf(name: &str, text: &str) -> Node {
    new_node(name, text.to_string())
}

#[test]
fn new_node_is_leaf() {
    let n = leaf("version", "1.2");
    assert_eq!(n.name, "version");
    assert_eq!(n.text.as_deref(), Some("1.2"));
    assert!(n.children.is_empty());
    assert!(n.attributes.is_empty());
}

#[test]
fn merge_concatenates_children_in_order() {
    let mut base = Node::empty("peripheral");
    base.children.push(leaf("dim", "2"));
    let mut overlay = Node::empty("peripheral");
    overlay.children.push(leaf("name", "X"));
    overlay.children.push(leaf("baseAddress", "0"));
    base.merge(overlay);
    let names: Vec<&str> = base.children.iter().map(|c| c.name.as_str()).collect();
    assert_eq!(names, vec!["dim", "name", "baseAddress"]);
}

#[test]
fn merge_overlay_wins_on_duplicate_attribute_keys() {
    let mut base = Node::empty("peripheral");
    base.attributes
        .push(("derivedFrom".to_string(), "OLD".to_string()));
    base.attributes.push(("kept".to_string(), "1".to_string()));
    let mut overlay = Node::empty("peripheral");
    overlay
        .attributes
        .push(("derivedFrom".to_string(), "NEW".to_string()));
    overlay.attributes.push(("added".to_string(), "2".to_string()));
    base.merge(overlay);
    assert_eq!(
        base.attributes,
        vec![
            ("derivedFrom".to_string(), "NEW".to_string()),
            ("kept".to_string(), "1".to_string()),
            ("added".to_string(), "2".to_string()),
        ]
    );
}

#[test]
fn register_node_carries_properties_and_write_semantics() {
    let reg = RegisterCluster::Register(RegisterInfo {
        name: "cr1".to_string(),
        description: Some("control".to_string()),
        address_offset: 0x20,
        properties: RegisterProperties {
            size: Some(32),
            access: Some(Access::ReadWrite),
            reset_value: Some(0),
            reset_mask: Some(0xffff_ffff),
        },
        modified_write_values: Some(ModifiedWriteValues::OneToClear),
    });
    let mut config = Config::default();
    config.register_name = Some(CaseStyle::Upper);
    config.address_offset = Some(NumberFormat::LowerHex);
    let node = reg.encode_with_config(&config);
    assert_eq!(node.name, "register");
    let names: Vec<&str> = node.children.iter().map(|c| c.name.as_str()).collect();
    assert_eq!(
        names,
        vec![
            "name",
            "description",
            "addressOffset",
            "size",
            "access",
            "resetValue",
            "resetMask",
            "modifiedWriteValues"
        ]
    );
    assert_eq!(node.children[0].text.as_deref(), Some("CR1"));
    assert_eq!(node.children[1].text.as_deref(), Some("control"));
    assert_eq!(node.children[2].text.as_deref(), Some("0x20"));
    assert_eq!(node.children[4].text.as_deref(), Some("read-write"));
    assert_eq!(node.children[7].text.as_deref(), Some("oneToClear"));
}
