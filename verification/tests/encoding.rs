use svd_encoder::config::{Config, RegistersOrClustersFirst, Sorting};
use svd_encoder::model::{
    AddressBlock, ClusterInfo, DimElement, Interrupt, Peripheral, PeripheralInfo,
    RegisterCluster, RegisterInfo, RegisterProperties,
};
use svd_encoder::node::Node;

fn minimal_info(name: &str, base_address: u64) -> PeripheralInfo {
    PeripheralInfo {
        name: name.to_string(),
        display_name: None,
        version: None,
        description: None,
        alternate_peripheral: None,
        group_name: None,
        prepend_to_name: None,
        append_to_name: None,
        header_struct_name: None,
        base_address,
        default_register_properties: RegisterProperties::empty(),
        address_block: None,
        interrupt: Vec::new(),
        registers: None,
        derived_from: None,
    }
}

fn register(name: &str, offset: u32) -> RegisterCluster {
    RegisterCluster::Register(RegisterInfo {
        name: name.to_string(),
        description: None,
        address_offset: offset,
        properties: RegisterProperties::empty(),
        modified_write_values: None,
    })
}

fn cluster(name: &str, offset: u32) -> RegisterCluster {
    RegisterCluster::Cluster(ClusterInfo {
        name: name.to_string(),
        description: None,
        address_offset: offset,
    })
}

fn child_names(n: &Node) -> Vec<String> {
    n.children.iter().map(|c| c.name.clone()).collect()
}

fn name_of_entry(n: &Node) -> String {
    // The first child of a register or cluster node is its name leaf.
    n.children[0].text.clone().unwrap()
}

fn registers_node(peripheral: &Node) -> &Node {
    peripheral
        .children
        .iter()
        .find(|c| c.name == "registers")
        .expect("registers node present")
}

#[test]
fn minimal_peripheral_emits_only_name_and_base_address() {
    let info = minimal_info("TIMER0", 0x4001_0000);
    let node = info.encode_with_config(&Config::default());
    assert_eq!(node.name, "peripheral");
    assert_eq!(child_names(&node), vec!["name", "baseAddress"]);
    assert_eq!(node.children[0].text.as_deref(), Some("TIMER0"));
    assert_eq!(node.children[1].text.as_deref(), Some("1073807360"));
    assert!(node.attributes.is_empty());
}

#[test]
fn optional_fields_emitted_exactly_when_present() {
    let mut info = minimal_info("UART1", 0x4000_0000);
    info.description = Some("serial port".to_string());
    info.group_name = Some("UART".to_string());
    info.default_register_properties.size = Some(32);
    let node = info.encode_with_config(&Config::default());
    assert_eq!(
        child_names(&node),
        vec!["name", "description", "groupName", "baseAddress", "size"]
    );
}

#[test]
fn address_blocks_and_interrupts_are_children() {
    let mut info = minimal_info("DMA", 0x5000_0000);
    info.address_block = Some(vec![AddressBlock {
        offset: 0,
        size: 0x400,
        usage: "registers".to_string(),
    }]);
    info.interrupt = vec![
        Interrupt {
            name: "DMA_CH0".to_string(),
            description: None,
            value: 11,
        },
        Interrupt {
            name: "DMA_CH1".to_string(),
            description: None,
            value: 12,
        },
    ];
    let node = info.encode_with_config(&Config::default());
    assert_eq!(
        child_names(&node),
        vec![
            "name",
            "baseAddress",
            "addressBlock",
            "interrupt",
            "interrupt"
        ]
    );
    let ab = &node.children[2];
    assert_eq!(child_names(ab), vec!["offset", "size", "usage"]);
    assert_eq!(ab.children[2].text.as_deref(), Some("registers"));
}

#[test]
fn array_variant_merges_descriptor_children_first() {
    let info = minimal_info("GPIO", 0x4800_0000);
    let dim = DimElement {
        dim: 4,
        dim_increment: 0x400,
        dim_index: None,
    };
    let node = Peripheral::Array(info, dim).encode_with_config(&Config::default());
    assert_eq!(node.name, "peripheral");
    assert_eq!(
        child_names(&node),
        vec!["dim", "dimIncrement", "name", "baseAddress"]
    );
    assert_eq!(node.children[0].text.as_deref(), Some("4"));
    assert_eq!(node.children[1].text.as_deref(), Some("1024"));
}

#[test]
fn single_variant_encodes_directly() {
    let info = minimal_info("WDT", 0x4000_3000);
    let node = Peripheral::Single(info).encode_with_config(&Config::default());
    assert_eq!(child_names(&node), vec!["name", "baseAddress"]);
}

#[test]
fn partition_registers_first_then_offset_ascending() {
    let mut info = minimal_info("P", 0);
    info.registers = Some(vec![
        register("B", 8),
        register("A", 0),
        cluster("M", 4),
    ]);
    let mut config = Config::default();
    config.registers_or_clusters_first = Some(RegistersOrClustersFirst::Registers);
    config.register_cluster_sorting = Some(Sorting::Offset);
    let node = info.encode_with_config(&config);
    let regs = registers_node(&node);
    let order: Vec<String> = regs.children.iter().map(name_of_entry).collect();
    assert_eq!(order, vec!["A", "B", "M"]);
    let kinds: Vec<String> = regs.children.iter().map(|c| c.name.clone()).collect();
    assert_eq!(kinds, vec!["register", "register", "cluster"]);
}

#[test]
fn sort_by_name_interleaved_without_partition() {
    let mut info = minimal_info("P", 0);
    info.registers = Some(vec![
        register("B", 8),
        register("A", 0),
        cluster("M", 4),
    ]);
    let mut config = Config::default();
    config.register_cluster_sorting = Some(Sorting::Name);
    let node = info.encode_with_config(&config);
    let regs = registers_node(&node);
    let order: Vec<String> = regs.children.iter().map(name_of_entry).collect();
    assert_eq!(order, vec!["A", "B", "M"]);
    let kinds: Vec<String> = regs.children.iter().map(|c| c.name.clone()).collect();
    assert_eq!(kinds, vec!["register", "register", "cluster"]);
}

#[test]
fn sort_by_offset_descending() {
    let mut info = minimal_info("P", 0);
    info.registers = Some(vec![
        register("A", 0),
        register("B", 8),
        cluster("M", 4),
    ]);
    let mut config = Config::default();
    config.register_cluster_sorting = Some(Sorting::OffsetReversed);
    let node = info.encode_with_config(&config);
    let regs = registers_node(&node);
    let order: Vec<String> = regs.children.iter().map(name_of_entry).collect();
    assert_eq!(order, vec!["B", "M", "A"]);
}

#[test]
fn sort_is_stable_on_equal_keys() {
    let mut info = minimal_info("P", 0);
    info.registers = Some(vec![
        register("FIRST", 4),
        register("SECOND", 4),
        register("EARLIER", 0),
    ]);
    let mut config = Config::default();
    config.register_cluster_sorting = Some(Sorting::Offset);
    let node = info.encode_with_config(&config);
    let regs = registers_node(&node);
    let order: Vec<String> = regs.children.iter().map(name_of_entry).collect();
    assert_eq!(order, vec!["EARLIER", "FIRST", "SECOND"]);
}

#[test]
fn source_order_kept_without_directives() {
    let mut info = minimal_info("P", 0);
    info.registers = Some(vec![
        register("B", 8),
        cluster("M", 4),
        register("A", 0),
    ]);
    let node = info.encode_with_config(&Config::default());
    let regs = registers_node(&node);
    let order: Vec<String> = regs.children.iter().map(name_of_entry).collect();
    assert_eq!(order, vec!["B", "M", "A"]);
}

#[test]
fn empty_registers_collection_still_emits_registers_node() {
    let mut info = minimal_info("P", 0);
    info.registers = Some(Vec::new());
    let node = info.encode_with_config(&Config::default());
    let regs = registers_node(&node);
    assert!(regs.children.is_empty());
    assert!(regs.text.is_none());
}

#[test]
fn array_descriptor_with_index_emits_dim_index() {
    let info = minimal_info("SPI", 0x4000_3800);
    let dim = DimElement {
        dim: 2,
        dim_increment: 0x800,
        dim_index: Some("0,1".to_string()),
    };
    let node = Peripheral::Array(info, dim).encode_with_config(&Config::default());
    assert_eq!(
        child_names(&node),
        vec!["dim", "dimIncrement", "dimIndex", "name", "baseAddress"]
    );
    assert_eq!(node.children[2].text.as_deref(), Some("0,1"));
}

#[test]
fn derived_from_is_attribute_not_child() {
    let mut info = minimal_info("TIMER1", 0x4001_0400);
    info.derived_from = Some("TIMER0".to_string());
    let node = info.encode_with_config(&Config::default());
    assert_eq!(
        node.attributes,
        vec![("derivedFrom".to_string(), "TIMER0".to_string())]
    );
    assert!(node.children.iter().all(|c| c.name != "derivedFrom"));
}

#[test]
fn peripheral_name_style_applies_to_cased_fields_only() {
    let mut info = minimal_info("gpioa", 0x4800_0000);
    info.display_name = Some("GpioA".to_string());
    info.alternate_peripheral = Some("gpiob".to_string());
    info.derived_from = Some("gpio_base".to_string());
    let mut config = Config::default();
    config.peripheral_name = Some(svd_encoder::cases::CaseStyle::Upper);
    let node = info.encode_with_config(&config);
    // name and alternatePeripheral are case-converted, displayName is not.
    assert_eq!(node.children[0].text.as_deref(), Some("GPIOA"));
    assert_eq!(node.children[1].text.as_deref(), Some("GpioA"));
    assert_eq!(node.children[2].text.as_deref(), Some("GPIOB"));
    assert_eq!(
        node.attributes,
        vec![("derivedFrom".to_string(), "GPIO_BASE".to_string())]
    );
}

#[test]
fn base_address_honours_number_format() {
    let info = minimal_info("CAN", 0x4000_6400);
    let mut config = Config::default();
    config.peripheral_base_address = Some(svd_encoder::numbers::NumberFormat::LowerHex);
    let node = info.encode_with_config(&config);
    assert_eq!(node.children[1].text.as_deref(), Some("0x40006400"));
}

#[test]
fn interrupts_keep_source_order_despite_sorting() {
    let mut info = minimal_info("P", 0);
    info.interrupt = vec![
        Interrupt {
            name: "LATE".to_string(),
            description: None,
            value: 9,
        },
        Interrupt {
            name: "EARLY".to_string(),
            description: None,
            value: 3,
        },
    ];
    info.registers = Some(vec![register("B", 8), register("A", 0)]);
    let mut config = Config::default();
    config.register_cluster_sorting = Some(Sorting::Name);
    config.registers_or_clusters_first = Some(RegistersOrClustersFirst::Registers);
    let node = info.encode_with_config(&config);
    let interrupt_names: Vec<String> = node
        .children
        .iter()
        .filter(|c| c.name == "interrupt")
        .map(|c| c.children[0].text.clone().unwrap())
        .collect();
    assert_eq!(interrupt_names, vec!["LATE", "EARLY"]);
}
