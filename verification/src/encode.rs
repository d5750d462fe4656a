//! The entity encoders: one per schema entity, each taking the entity and
//! the configuration and producing a node. The model is already valid
//! when it reaches the encoder, so encoding is total: every call yields a
//! fully formed node.

use vstd::prelude::*;

use crate::access::spec_access_to_str;
use crate::cases::{spec_change_case, change_case};
use crate::config::Config;
use crate::model::{
    AddressBlock, ClusterInfo, DimElement, Interrupt, Peripheral, PeripheralInfo,
    RegisterCluster, RegisterInfo, RegisterProperties,
};
use crate::modified_write_values::spec_mwv_to_str;
use crate::node::{
    attr_views, lemma_node_views_concat, lemma_node_views_index, lemma_node_views_len,
    lemma_node_views_push, new_node, node_views, Node, NodeView,
};
use crate::numbers::{spec_format_number, format_number};
use crate::sort::{derefs, order_register_clusters, spec_order};

verus! {

broadcast use lemma_node_views_len, lemma_node_views_index, lemma_node_views_push,
    lemma_node_views_concat;

/// The shape of a leaf node: a label and a direct text value.
pub open spec fn leaf_view(name: Seq<char>, text: Seq<char>) -> NodeView {
    NodeView {
        name: name,
        text: Some(text),
        children: Seq::empty(),
        attributes: Seq::empty(),
    }
}

/// One optional leaf child carrying the text unchanged: present exactly
/// when the field is present.
pub open spec fn opt_child(o: Option<String>, name: Seq<char>) -> Seq<NodeView> {
    match o {
        Some(v) => seq![leaf_view(name, v@)],
        None => Seq::empty(),
    }
}

/// One optional leaf child carrying the case-converted text: present
/// exactly when the field is present.
pub open spec fn opt_child_cased(
    o: Option<String>,
    name: Seq<char>,
    st: Option<crate::cases::CaseStyle>,
) -> Seq<NodeView> {
    match o {
        Some(v) => seq![leaf_view(name, spec_change_case(v@, st))],
        None => Seq::empty(),
    }
}

/// The flattened children of a register-properties block: each field
/// emitted if and only if present, in schema order.
pub open spec fn spec_encode_properties(p: RegisterProperties, c: Config) -> Seq<NodeView> {
    (match p.size {
        Some(v) => seq![leaf_view("size"@, spec_format_number(v as nat, c.property_value))],
        None => Seq::empty(),
    }) + (match p.access {
        Some(a) => seq![leaf_view("access"@, spec_access_to_str(a))],
        None => Seq::empty(),
    }) + (match p.reset_value {
        Some(v) => seq![
            leaf_view("resetValue"@, spec_format_number(v as nat, c.property_value)),
        ],
        None => Seq::empty(),
    }) + (match p.reset_mask {
        Some(v) => seq![
            leaf_view("resetMask"@, spec_format_number(v as nat, c.property_value)),
        ],
        None => Seq::empty(),
    })
}

/// The node of one address block.
pub open spec fn spec_encode_address_block(ab: AddressBlock, c: Config) -> NodeView {
    NodeView {
        name: "addressBlock"@,
        text: None,
        children: seq![
            leaf_view("offset"@, spec_format_number(ab.offset as nat, c.property_value)),
            leaf_view("size"@, spec_format_number(ab.size as nat, c.property_value)),
            leaf_view("usage"@, ab.usage@),
        ],
        attributes: Seq::empty(),
    }
}

/// The node of one interrupt: name, optional description and value, never
/// reordered relative to its siblings.
pub open spec fn spec_encode_interrupt(i: Interrupt, c: Config) -> NodeView {
    NodeView {
        name: "interrupt"@,
        text: None,
        children: seq![leaf_view("name"@, i.name@)] + opt_child(i.description, "description"@)
            + seq![leaf_view("value"@, spec_format_number(i.value as nat, c.property_value))],
        attributes: Seq::empty(),
    }
}

/// The node of an array descriptor.
pub open spec fn spec_encode_dim(d: DimElement, c: Config) -> NodeView {
    NodeView {
        name: "dimElement"@,
        text: None,
        children: seq![
            leaf_view("dim"@, spec_format_number(d.dim as nat, c.property_value)),
            leaf_view(
                "dimIncrement"@,
                spec_format_number(d.dim_increment as nat, c.property_value),
            ),
        ] + opt_child(d.dim_index, "dimIndex"@),
        attributes: Seq::empty(),
    }
}

/// The node of one register.
pub open spec fn spec_encode_register(r: RegisterInfo, c: Config) -> NodeView {
    NodeView {
        name: "register"@,
        text: None,
        children: seq![leaf_view("name"@, spec_change_case(r.name@, c.register_name))]
            + opt_child(r.description, "description"@) + seq![
            leaf_view(
                "addressOffset"@,
                spec_format_number(r.address_offset as nat, c.address_offset),
            ),
        ] + spec_encode_properties(r.properties, c) + (match r.modified_write_values {
            Some(m) => seq![leaf_view("modifiedWriteValues"@, spec_mwv_to_str(m))],
            None => Seq::empty(),
        }),
        attributes: Seq::empty(),
    }
}

/// The node of one cluster.
pub open spec fn spec_encode_cluster(cl: ClusterInfo, c: Config) -> NodeView {
    NodeView {
        name: "cluster"@,
        text: None,
        children: seq![leaf_view("name"@, spec_change_case(cl.name@, c.cluster_name))]
            + opt_child(cl.description, "description"@) + seq![
            leaf_view(
                "addressOffset"@,
                spec_format_number(cl.address_offset as nat, c.address_offset),
            ),
        ],
        attributes: Seq::empty(),
    }
}

/// The node of one register-or-cluster entry.
pub open spec fn spec_encode_rc(rc: RegisterCluster, c: Config) -> NodeView {
    match rc {
        RegisterCluster::Register(r) => spec_encode_register(r, c),
        RegisterCluster::Cluster(cl) => spec_encode_cluster(cl, c),
    }
}

/// The nodes of a sequence of entries, one each, in the given order.
pub open spec fn spec_encode_rcs(q: Seq<RegisterCluster>, c: Config) -> Seq<NodeView>
    decreases q.len(),
{
    if q.len() == 0 {
        Seq::empty()
    } else {
        spec_encode_rcs(q.drop_last(), c).push(spec_encode_rc(q.last(), c))
    }
}

/// The nodes of a sequence of interrupts, one each, in source order.
pub open spec fn spec_encode_interrupts(q: Seq<Interrupt>, c: Config) -> Seq<NodeView>
    decreases q.len(),
{
    if q.len() == 0 {
        Seq::empty()
    } else {
        spec_encode_interrupts(q.drop_last(), c).push(spec_encode_interrupt(q.last(), c))
    }
}

/// The nodes of a sequence of address blocks, one each, in source order.
pub open spec fn spec_encode_address_blocks(q: Seq<AddressBlock>, c: Config) -> Seq<NodeView>
    decreases q.len(),
{
    if q.len() == 0 {
        Seq::empty()
    } else {
        spec_encode_address_blocks(q.drop_last(), c).push(
            spec_encode_address_block(q.last(), c),
        )
    }
}

/// The children of a peripheral node that precede its interrupts: the
/// required name and base address, every optional descriptive field that
/// is present, the flattened default register properties and the address
/// blocks, in schema order.
pub open spec fn spec_info_children_before_interrupts(p: PeripheralInfo, c: Config) -> Seq<
    NodeView,
> {
    seq![leaf_view("name"@, spec_change_case(p.name@, c.peripheral_name))] + opt_child(
        p.display_name,
        "displayName"@,
    ) + opt_child(p.version, "version"@) + opt_child(p.description, "description"@)
        + opt_child_cased(p.alternate_peripheral, "alternatePeripheral"@, c.peripheral_name)
        + opt_child(p.group_name, "groupName"@) + opt_child_cased(
        p.prepend_to_name,
        "prependToName"@,
        c.peripheral_name,
    ) + opt_child_cased(p.append_to_name, "appendToName"@, c.peripheral_name)
        + opt_child_cased(p.header_struct_name, "headerStructName"@, c.peripheral_name) + seq![
        leaf_view(
            "baseAddress"@,
            spec_format_number(p.base_address as nat, c.peripheral_base_address),
        ),
    ] + spec_encode_properties(p.default_register_properties, c) + (match p.address_block {
        Some(v) => spec_encode_address_blocks(v@, c),
        None => Seq::empty(),
    })
}

/// The children of a peripheral node that follow its interrupts: one
/// `registers` node holding the ordered entries, when the collection is
/// present.
pub open spec fn spec_info_children_after_interrupts(p: PeripheralInfo, c: Config) -> Seq<
    NodeView,
> {
    match p.registers {
        Some(v) => seq![
            NodeView {
                name: "registers"@,
                text: None,
                children: spec_encode_rcs(
                    spec_order(
                        v@,
                        c.registers_or_clusters_first,
                        c.register_cluster_sorting,
                    ),
                    c,
                ),
                attributes: Seq::empty(),
            },
        ],
        None => Seq::empty(),
    }
}

/// The derivation reference as an attribute list: one `derivedFrom`
/// attribute exactly when the source has a derivation reference.
pub open spec fn spec_info_attributes(p: PeripheralInfo, c: Config) -> Seq<
    (Seq<char>, Seq<char>),
> {
    match p.derived_from {
        Some(v) => seq![("derivedFrom"@, spec_change_case(v@, c.peripheral_name))],
        None => Seq::empty(),
    }
}

/// The node of one peripheral instance.
pub open spec fn spec_encode_info(p: PeripheralInfo, c: Config) -> NodeView {
    NodeView {
        name: "peripheral"@,
        text: None,
        children: spec_info_children_before_interrupts(p, c) + spec_encode_interrupts(
            p.interrupt@,
            c,
        ) + spec_info_children_after_interrupts(p, c),
        attributes: spec_info_attributes(p, c),
    }
}

/// The node of a peripheral: a single instance encodes as itself; an
/// array encodes its descriptor's fields first, then the instance's own,
/// with the instance's attributes prevailing.
pub open spec fn spec_encode_peripheral(p: Peripheral, c: Config) -> NodeView {
    match p {
        Peripheral::Single(info) => spec_encode_info(info, c),
        Peripheral::Array(info, dim) => NodeView {
            name: "peripheral"@,
            text: None,
            children: spec_encode_dim(dim, c).children + spec_encode_info(info, c).children,
            attributes: spec_encode_info(info, c).attributes,
        },
    }
}

/// Pushes one leaf child carrying the text unchanged.
fn push_text_child(out: &mut Vec<Node>, name: &str, text: String)
    ensures
        node_views(final(out)@) == node_views(old(out)@).push(leaf_view(name@, text@)),
        forall|k: int|
            0 <= k < old(out)@.len() ==> final(out)@[k] == old(out)@[k],
        final(out)@.len() == old(out)@.len() + 1,
{
    let n = new_node(name, text);
    proof {
        assert(n@ =~~= leaf_view(name@, n.text->Some_0@));
    }
    out.push(n);
}

/// Pushes the optional leaf child of a field, exactly when it is present.
fn push_opt_child(out: &mut Vec<Node>, o: &Option<String>, name: &str)
    ensures
        node_views(final(out)@) == node_views(old(out)@) + opt_child(*o, name@),
{
    let ghost prev = node_views(out@);
    match o {
        Some(v) => {
            push_text_child(out, name, v.clone());
            proof {
                assert(node_views(out@) =~= prev + opt_child(*o, name@));
            }
        },
        None => {
            proof {
                assert(node_views(out@) =~= prev + opt_child(*o, name@));
            }
        },
    }
}

/// Pushes the optional case-converted leaf child of a field, exactly when
/// it is present.
fn push_opt_child_cased(
    out: &mut Vec<Node>,
    o: &Option<String>,
    name: &str,
    st: Option<crate::cases::CaseStyle>,
)
    ensures
        node_views(final(out)@) == node_views(old(out)@) + opt_child_cased(*o, name@, st),
{
    let ghost prev = node_views(out@);
    match o {
        Some(v) => {
            push_text_child(out, name, change_case(v.as_str(), st));
            proof {
                assert(node_views(out@) =~= prev + opt_child_cased(*o, name@, st));
            }
        },
        None => {
            proof {
                assert(node_views(out@) =~= prev + opt_child_cased(*o, name@, st));
            }
        },
    }
}

impl RegisterProperties {
    /// Appends the block's fields, flattened, each if and only if
    /// present.
    pub fn encode_with_config(&self, config: &Config, out: &mut Vec<Node>)
        ensures
            node_views(final(out)@) == node_views(old(out)@) + spec_encode_properties(
                *self,
                *config,
            ),
    {
        let ghost prev = node_views(out@);
        match self.size {
            Some(v) => {
                push_text_child(out, "size", format_number(v as u64, config.property_value));
            },
            None => {},
        }
        match self.access {
            Some(a) => {
                push_text_child(out, "access", crate::strutil::str_to_string(a.to_str()));
            },
            None => {},
        }
        match self.reset_value {
            Some(v) => {
                push_text_child(out, "resetValue", format_number(v, config.property_value));
            },
            None => {},
        }
        match self.reset_mask {
            Some(v) => {
                push_text_child(out, "resetMask", format_number(v, config.property_value));
            },
            None => {},
        }
        proof {
            assert(node_views(out@) =~= prev + spec_encode_properties(*self, *config));
        }
    }
}

impl AddressBlock {
    /// The node of this address block.
    pub fn encode_with_config(&self, config: &Config) -> (r: Node)
        ensures
            r@ == spec_encode_address_block(*self, *config),
            r.wf(),
            r.text is None,
    {
        let mut elem = Node::empty("addressBlock");
        push_text_child(
            &mut elem.children,
            "offset",
            format_number(self.offset as u64, config.property_value),
        );
        push_text_child(
            &mut elem.children,
            "size",
            format_number(self.size as u64, config.property_value),
        );
        push_text_child(&mut elem.children, "usage", self.usage.clone());
        proof {
            assert(elem@.name == spec_encode_address_block(*self, *config).name);
            assert(elem@.text == spec_encode_address_block(*self, *config).text);
            assert(elem@.children =~~= spec_encode_address_block(*self, *config).children);
            assert(elem@.attributes =~~= spec_encode_address_block(*self, *config).attributes);
            assert(elem@ =~~= spec_encode_address_block(*self, *config));
        }
        elem
    }
}

impl Interrupt {
    /// The node of this interrupt.
    pub fn encode_with_config(&self, config: &Config) -> (r: Node)
        ensures
            r@ == spec_encode_interrupt(*self, *config),
            r.wf(),
            r.text is None,
    {
        let mut elem = Node::empty("interrupt");
        push_text_child(&mut elem.children, "name", self.name.clone());
        push_opt_child(&mut elem.children, &self.description, "description");
        push_text_child(
            &mut elem.children,
            "value",
            format_number(self.value as u64, config.property_value),
        );
        proof {
            assert(elem@.name == spec_encode_interrupt(*self, *config).name);
            assert(elem@.text == spec_encode_interrupt(*self, *config).text);
            assert(elem@.children =~~= spec_encode_interrupt(*self, *config).children);
            assert(elem@.attributes =~~= spec_encode_interrupt(*self, *config).attributes);
            assert(elem@ =~~= spec_encode_interrupt(*self, *config));
        }
        elem
    }
}

impl DimElement {
    /// The node of this array descriptor.
    pub fn encode_with_config(&self, config: &Config) -> (r: Node)
        ensures
            r@ == spec_encode_dim(*self, *config),
            r.wf(),
            r.text is None,
    {
        let mut elem = Node::empty("dimElement");
        push_text_child(
            &mut elem.children,
            "dim",
            format_number(self.dim as u64, config.property_value),
        );
        push_text_child(
            &mut elem.children,
            "dimIncrement",
            format_number(self.dim_increment as u64, config.property_value),
        );
        push_opt_child(&mut elem.children, &self.dim_index, "dimIndex");
        proof {
            assert(elem@.name == spec_encode_dim(*self, *config).name);
            assert(elem@.text == spec_encode_dim(*self, *config).text);
            assert(elem@.children =~~= spec_encode_dim(*self, *config).children);
            assert(elem@.attributes =~~= spec_encode_dim(*self, *config).attributes);
            assert(elem@ =~~= spec_encode_dim(*self, *config));
        }
        elem
    }
}

impl RegisterInfo {
    /// The node of this register.
    pub fn encode_with_config(&self, config: &Config) -> (r: Node)
        ensures
            r@ == spec_encode_register(*self, *config),
            r.wf(),
            r.text is None,
    {
        let mut elem = Node::empty("register");
        push_text_child(
            &mut elem.children,
            "name",
            change_case(self.name.as_str(), config.register_name),
        );
        push_opt_child(&mut elem.children, &self.description, "description");
        push_text_child(
            &mut elem.children,
            "addressOffset",
            format_number(self.address_offset as u64, config.address_offset),
        );
        self.properties.encode_with_config(config, &mut elem.children);
        match self.modified_write_values {
            Some(m) => {
                push_text_child(
                    &mut elem.children,
                    "modifiedWriteValues",
                    crate::strutil::str_to_string(m.to_str()),
                );
            },
            None => {},
        }
        proof {
            assert(elem@.name == spec_encode_register(*self, *config).name);
            assert(elem@.text == spec_encode_register(*self, *config).text);
            assert(elem@.children =~~= spec_encode_register(*self, *config).children);
            assert(elem@.attributes =~~= spec_encode_register(*self, *config).attributes);
            assert(elem@ =~~= spec_encode_register(*self, *config));
        }
        elem
    }
}

impl ClusterInfo {
    /// The node of this cluster.
    pub fn encode_with_config(&self, config: &Config) -> (r: Node)
        ensures
            r@ == spec_encode_cluster(*self, *config),
            r.wf(),
            r.text is None,
    {
        let mut elem = Node::empty("cluster");
        push_text_child(
            &mut elem.children,
            "name",
            change_case(self.name.as_str(), config.cluster_name),
        );
        push_opt_child(&mut elem.children, &self.description, "description");
        push_text_child(
            &mut elem.children,
            "addressOffset",
            format_number(self.address_offset as u64, config.address_offset),
        );
        proof {
            assert(elem@.name == spec_encode_cluster(*self, *config).name);
            assert(elem@.text == spec_encode_cluster(*self, *config).text);
            assert(elem@.children =~~= spec_encode_cluster(*self, *config).children);
            assert(elem@.attributes =~~= spec_encode_cluster(*self, *config).attributes);
            assert(elem@ =~~= spec_encode_cluster(*self, *config));
        }
        elem
    }
}

impl RegisterCluster {
    /// The node of this entry.
    pub fn encode_with_config(&self, config: &Config) -> (r: Node)
        ensures
            r@ == spec_encode_rc(*self, *config),
            r.wf(),
            r.text is None,
    {
        match self {
            RegisterCluster::Register(r) => r.encode_with_config(config),
            RegisterCluster::Cluster(cl) => cl.encode_with_config(config),
        }
    }
}

impl PeripheralInfo {
    /// The node of this peripheral instance: children in fixed schema
    /// order, interrupts in source order, register/cluster entries in the
    /// order the configuration's directives prescribe, and the derivation
    /// reference as an attribute, never as a child.
    pub fn encode_with_config(&self, config: &Config) -> (r: Node)
        ensures
            r@ == spec_encode_info(*self, *config),
            r.wf(),
            r.text is None,
    {
        let mut elem = Node::empty("peripheral");
        proof {
            assert(attr_views(elem.attributes@).len() == 0);
            assert(elem.attributes@.len() == 0);
        }
        push_text_child(
            &mut elem.children,
            "name",
            change_case(self.name.as_str(), config.peripheral_name),
        );
        push_opt_child(&mut elem.children, &self.display_name, "displayName");
        push_opt_child(&mut elem.children, &self.version, "version");
        push_opt_child(&mut elem.children, &self.description, "description");
        push_opt_child_cased(
            &mut elem.children,
            &self.alternate_peripheral,
            "alternatePeripheral",
            config.peripheral_name,
        );
        push_opt_child(&mut elem.children, &self.group_name, "groupName");
        push_opt_child_cased(
            &mut elem.children,
            &self.prepend_to_name,
            "prependToName",
            config.peripheral_name,
        );
        push_opt_child_cased(
            &mut elem.children,
            &self.append_to_name,
            "appendToName",
            config.peripheral_name,
        );
        push_opt_child_cased(
            &mut elem.children,
            &self.header_struct_name,
            "headerStructName",
            config.peripheral_name,
        );
        push_text_child(
            &mut elem.children,
            "baseAddress",
            format_number(self.base_address, config.peripheral_base_address),
        );
        self.default_register_properties.encode_with_config(config, &mut elem.children);
        match &self.address_block {
            Some(v) => {
                let ghost prev = node_views(elem.children@);
                let n = v.len();
                let mut i: usize = 0;
                proof {
                    assert(v@.take(0) =~= Seq::<AddressBlock>::empty());
                    assert(node_views(elem.children@) =~= prev + spec_encode_address_blocks(
                        v@.take(0),
                        *config,
                    ));
                }
                while i < n
                    invariant
                        i <= n,
                        n == v@.len(),
                        elem.name@ == "peripheral"@,
                        elem.text is None,
                        elem.attributes@.len() == 0,
                        node_views(elem.children@) == prev + spec_encode_address_blocks(
                            v@.take(i as int),
                            *config,
                        ),
                    decreases n - i,
                {
                    let node = v[i].encode_with_config(config);
                    elem.children.push(node);
                    proof {
                        assert(v@.take(i + 1).drop_last() =~= v@.take(i as int));
                        assert(v@.take(i + 1).last() == v@[i as int]);
                        assert(node_views(elem.children@) =~= prev
                            + spec_encode_address_blocks(v@.take(i + 1), *config));
                    }
                    i += 1;
                }
                proof {
                    assert(v@.take(n as int) =~= v@);
                }
            },
            None => {},
        }
        proof {
            assert(node_views(elem.children@) =~= spec_info_children_before_interrupts(
                *self,
                *config,
            ));
        }
        let ghost before = node_views(elem.children@);
        let n = self.interrupt.len();
        let mut i: usize = 0;
        proof {
            assert(self.interrupt@.take(0) =~= Seq::<Interrupt>::empty());
            assert(node_views(elem.children@) =~= before + spec_encode_interrupts(
                self.interrupt@.take(0),
                *config,
            ));
        }
        while i < n
            invariant
                i <= n,
                n == self.interrupt@.len(),
                elem.name@ == "peripheral"@,
                elem.text is None,
                elem.attributes@.len() == 0,
                node_views(elem.children@) == before + spec_encode_interrupts(
                    self.interrupt@.take(i as int),
                    *config,
                ),
            decreases n - i,
        {
            let node = self.interrupt[i].encode_with_config(config);
            elem.children.push(node);
            proof {
                assert(self.interrupt@.take(i + 1).drop_last() =~= self.interrupt@.take(
                    i as int,
                ));
                assert(self.interrupt@.take(i + 1).last() == self.interrupt@[i as int]);
                assert(node_views(elem.children@) =~= before + spec_encode_interrupts(
                    self.interrupt@.take(i + 1),
                    *config,
                ));
            }
            i += 1;
        }
        proof {
            assert(self.interrupt@.take(n as int) =~= self.interrupt@);
        }
        let ghost with_interrupts = node_views(elem.children@);
        match &self.registers {
            Some(v) => {
                let ordered = order_register_clusters(
                    v,
                    config.registers_or_clusters_first,
                    config.register_cluster_sorting,
                );
                let ghost q = spec_order(
                    v@,
                    config.registers_or_clusters_first,
                    config.register_cluster_sorting,
                );
                let mut regs = Node::empty("registers");
                let m = ordered.len();
                let mut i: usize = 0;
                proof {
                    assert(q.take(0) =~= Seq::<RegisterCluster>::empty());
                    assert(node_views(regs.children@) =~= spec_encode_rcs(
                        q.take(0),
                        *config,
                    ));
                }
                while i < m
                    invariant
                        i <= m,
                        m == ordered@.len(),
                        q == derefs(ordered@),
                        node_views(regs.children@) == spec_encode_rcs(
                            q.take(i as int),
                            *config,
                        ),
                        regs.name@ == "registers"@,
                        regs.text is None,
                        regs.attributes@.len() == 0,
                    decreases m - i,
                {
                    let node = ordered[i].encode_with_config(config);
                    proof {
                        assert(*ordered@[i as int] == q[i as int]);
                    }
                    regs.children.push(node);
                    proof {
                        assert(q.take(i + 1).drop_last() =~= q.take(i as int));
                        assert(q.take(i + 1).last() == q[i as int]);
                        assert(node_views(regs.children@) =~= spec_encode_rcs(
                            q.take(i + 1),
                            *config,
                        ));
                    }
                    i += 1;
                }
                proof {
                    assert(q.take(m as int) =~= q);
                }
                proof {
                    assert(regs@ =~~= spec_info_children_after_interrupts(*self, *config)[0]);
                }
                elem.children.push(regs);
            },
            None => {},
        }
        proof {
            assert(node_views(elem.children@) =~= with_interrupts
                + spec_info_children_after_interrupts(*self, *config));
        }
        match &self.derived_from {
            Some(v) => {
                let key = crate::strutil::str_to_string("derivedFrom");
                let val = change_case(v.as_str(), config.peripheral_name);
                elem.attributes.push((key, val));
                proof {
                    assert(attr_views(elem.attributes@) =~= spec_info_attributes(
                        *self,
                        *config,
                    ));
                }
            },
            None => {},
        }
        proof {
            assert(elem@.name == spec_encode_info(*self, *config).name);
            assert(elem@.text == spec_encode_info(*self, *config).text);
            assert(elem@.children =~~= spec_encode_info(*self, *config).children);
            assert(elem@.attributes =~~= spec_encode_info(*self, *config).attributes);
            assert(elem@ =~~= spec_encode_info(*self, *config));
        }
        elem
    }
}

impl Peripheral {
    /// The node of this peripheral: a single instance encodes directly;
    /// an array merges its descriptor node and its instance node into a
    /// fresh peripheral node, descriptor children first, instance
    /// attributes prevailing.
    pub fn encode_with_config(&self, config: &Config) -> (r: Node)
        ensures
            r@ == spec_encode_peripheral(*self, *config),
            r.wf(),
            r.text is None,
    {
        match self {
            Peripheral::Single(info) => info.encode_with_config(config),
            Peripheral::Array(info, dim) => {
                let mut base = Node::empty("peripheral");
                let dim_node = dim.encode_with_config(config);
                let info_node = info.encode_with_config(config);
                let ghost dim_view = dim_node@;
                let ghost info_view = info_node@;
                base.merge(dim_node);
                base.merge(info_node);
                proof {
                    crate::node::lemma_merged_attrs_empty(dim_view.attributes);
                    crate::node::lemma_merged_attrs_empty(info_view.attributes);
                    assert(base@.children =~= dim_view.children + info_view.children);
                    assert(base@.attributes =~= info_view.attributes);
                    assert(base@ =~~= spec_encode_peripheral(*self, *config));
                }
                base
            },
        }
    }
}


/// No node in a sequence carries the given label.
pub open spec fn no_child_named(s: Seq<NodeView>, n: Seq<char>) -> bool {
    forall|k: int| 0 <= k < s.len() ==> (#[trigger] s[k]).name != n
}

/// Length and character facts that tell every child label of a
/// peripheral node apart from the `derivedFrom` attribute name.
proof fn lemma_child_labels_not_derived_from()
    ensures
        "derivedFrom"@.len() == 11,
        "derivedFrom"@[0] == 'd',
        "derivedFrom"@[1] == 'e',
        "derivedFrom"@[2] == 'r',
        "name"@.len() == 4,
        "displayName"@.len() == 11,
        "displayName"@[1] == 'i',
        "version"@.len() == 7,
        "description"@.len() == 11,
        "description"@[2] == 's',
        "alternatePeripheral"@.len() == 19,
        "groupName"@.len() == 9,
        "prependToName"@.len() == 13,
        "appendToName"@.len() == 12,
        "headerStructName"@.len() == 16,
        "baseAddress"@.len() == 11,
        "baseAddress"@[0] == 'b',
        "size"@.len() == 4,
        "access"@.len() == 6,
        "resetValue"@.len() == 10,
        "resetMask"@.len() == 9,
        "addressBlock"@.len() == 12,
        "interrupt"@.len() == 9,
        "registers"@.len() == 9,
{
    broadcast use vstd::string::group_string_axioms;

    reveal_strlit("derivedFrom");
    reveal_strlit("name");
    reveal_strlit("displayName");
    reveal_strlit("version");
    reveal_strlit("description");
    reveal_strlit("alternatePeripheral");
    reveal_strlit("groupName");
    reveal_strlit("prependToName");
    reveal_strlit("appendToName");
    reveal_strlit("headerStructName");
    reveal_strlit("baseAddress");
    reveal_strlit("size");
    reveal_strlit("access");
    reveal_strlit("resetValue");
    reveal_strlit("resetMask");
    reveal_strlit("addressBlock");
    reveal_strlit("interrupt");
    reveal_strlit("registers");
}

proof fn lemma_props_not_derived_from(p: RegisterProperties, c: Config)
    ensures
        no_child_named(spec_encode_properties(p, c), "derivedFrom"@),
{
    lemma_child_labels_not_derived_from();
}

proof fn lemma_blocks_not_derived_from(q: Seq<AddressBlock>, c: Config)
    ensures
        no_child_named(spec_encode_address_blocks(q, c), "derivedFrom"@),
    decreases q.len(),
{
    lemma_child_labels_not_derived_from();
    if q.len() != 0 {
        lemma_blocks_not_derived_from(q.drop_last(), c);
        let s = spec_encode_address_blocks(q, c);
        assert forall|k: int| 0 <= k < s.len() implies (#[trigger] s[k]).name
            != "derivedFrom"@ by {
            if k < s.len() - 1 {
                assert(s[k] == spec_encode_address_blocks(q.drop_last(), c)[k]);
            }
        }
    }
}

proof fn lemma_interrupt_nodes_not_derived_from(q: Seq<Interrupt>, c: Config)
    ensures
        no_child_named(spec_encode_interrupts(q, c), "derivedFrom"@),
    decreases q.len(),
{
    lemma_child_labels_not_derived_from();
    if q.len() != 0 {
        lemma_interrupt_nodes_not_derived_from(q.drop_last(), c);
        let s = spec_encode_interrupts(q, c);
        assert forall|k: int| 0 <= k < s.len() implies (#[trigger] s[k]).name
            != "derivedFrom"@ by {
            if k < s.len() - 1 {
                assert(s[k] == spec_encode_interrupts(q.drop_last(), c)[k]);
            }
        }
    }
}

/// The derivation reference is expressed as an attribute on the
/// peripheral node itself, never as a child node: whenever the source has
/// a derivation reference, the node carries exactly one `derivedFrom`
/// attribute, and no child of the node is labelled `derivedFrom`.
pub proof fn lemma_derived_from_is_attribute(p: PeripheralInfo, c: Config)
    requires
        p.derived_from is Some,
    ensures
        spec_encode_info(p, c).attributes == seq![
            ("derivedFrom"@, spec_change_case(p.derived_from->Some_0@, c.peripheral_name)),
        ],
        no_child_named(spec_encode_info(p, c).children, "derivedFrom"@),
{
    lemma_child_labels_not_derived_from();
    lemma_props_not_derived_from(p.default_register_properties, c);
    match p.address_block {
        Some(v) => {
            lemma_blocks_not_derived_from(v@, c);
        },
        None => {},
    }
    lemma_interrupt_nodes_not_derived_from(p.interrupt@, c);
    let ch = spec_encode_info(p, c).children;
    let before = spec_info_children_before_interrupts(p, c);
    let ints = spec_encode_interrupts(p.interrupt@, c);
    let after = spec_info_children_after_interrupts(p, c);
    assert forall|k: int| 0 <= k < ch.len() implies (#[trigger] ch[k]).name
        != "derivedFrom"@ by {
        if k < before.len() {
            assert(ch[k] == before[k]);
        } else if k < before.len() + ints.len() {
            assert(ch[k] == ints[k - before.len()]);
        } else {
            assert(ch[k] == after[k - before.len() - ints.len()]);
        }
    }
}

/// The interrupt nodes, pointwise: one node per source interrupt, in
/// source order.
proof fn lemma_encode_interrupts_index(q: Seq<Interrupt>, c: Config)
    ensures
        spec_encode_interrupts(q, c).len() == q.len(),
        forall|k: int|
            0 <= k < q.len() ==> #[trigger] spec_encode_interrupts(q, c)[k]
                == spec_encode_interrupt(q[k], c),
    decreases q.len(),
{
    if q.len() != 0 {
        lemma_encode_interrupts_index(q.drop_last(), c);
        assert forall|k: int| 0 <= k < q.len() implies #[trigger] spec_encode_interrupts(
            q,
            c,
        )[k] == spec_encode_interrupt(q[k], c) by {
            if k < q.len() - 1 {
                assert(spec_encode_interrupts(q, c)[k] == spec_encode_interrupts(
                    q.drop_last(),
                    c,
                )[k]);
                assert(q.drop_last()[k] == q[k]);
            }
        }
    }
}

/// Interrupts are emitted in source order, one node per interrupt, and
/// that segment of the peripheral node is untouched by any register or
/// cluster ordering directive: two configurations that agree on the
/// numeric format of property values produce the identical interrupt
/// segment, whatever their sorting and partition directives.
pub proof fn lemma_interrupts_in_source_order(p: PeripheralInfo, c1: Config, c2: Config)
    requires
        c1.property_value == c2.property_value,
    ensures
        spec_encode_info(p, c1).children == spec_info_children_before_interrupts(p, c1)
            + spec_encode_interrupts(p.interrupt@, c1) + spec_info_children_after_interrupts(
            p,
            c1,
        ),
        spec_encode_interrupts(p.interrupt@, c1).len() == p.interrupt@.len(),
        forall|k: int|
            0 <= k < p.interrupt@.len() ==> #[trigger] spec_encode_interrupts(
                p.interrupt@,
                c1,
            )[k] == spec_encode_interrupt(p.interrupt@[k], c1),
        spec_encode_interrupts(p.interrupt@, c1) == spec_encode_interrupts(p.interrupt@, c2),
    decreases p.interrupt@.len(),
{
    lemma_encode_interrupts_index(p.interrupt@, c1);
    lemma_encode_interrupts_config(p.interrupt@, c1, c2);
}

proof fn lemma_encode_interrupts_config(q: Seq<Interrupt>, c1: Config, c2: Config)
    requires
        c1.property_value == c2.property_value,
    ensures
        spec_encode_interrupts(q, c1) == spec_encode_interrupts(q, c2),
    decreases q.len(),
{
    if q.len() != 0 {
        lemma_encode_interrupts_config(q.drop_last(), c1, c2);
        assert(spec_encode_interrupt(q.last(), c1) =~~= spec_encode_interrupt(q.last(), c2));
    }
}

/// A peripheral with only its name and base address set encodes to a node
/// whose only children are the name node and the base-address node: no
/// absent optional field produces a child.
pub proof fn lemma_minimal_peripheral_children(p: PeripheralInfo, c: Config)
    requires
        p.display_name is None,
        p.version is None,
        p.description is None,
        p.alternate_peripheral is None,
        p.group_name is None,
        p.prepend_to_name is None,
        p.append_to_name is None,
        p.header_struct_name is None,
        p.default_register_properties.size is None,
        p.default_register_properties.access is None,
        p.default_register_properties.reset_value is None,
        p.default_register_properties.reset_mask is None,
        p.address_block is None,
        p.interrupt@.len() == 0,
        p.registers is None,
    ensures
        spec_encode_info(p, c).children == seq![
            leaf_view("name"@, spec_change_case(p.name@, c.peripheral_name)),
            leaf_view(
                "baseAddress"@,
                spec_format_number(p.base_address as nat, c.peripheral_base_address),
            ),
        ],
{
    assert(spec_encode_info(p, c).children =~= seq![
        leaf_view("name"@, spec_change_case(p.name@, c.peripheral_name)),
        leaf_view(
            "baseAddress"@,
            spec_format_number(p.base_address as nat, c.peripheral_base_address),
        ),
    ]);
}

} // verus!
