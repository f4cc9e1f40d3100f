use vstd::prelude::*;
use crate::calls::{po_empty, po_fail, po_one, seq_then, Access, CallV, ParseOut};
use crate::doc::{spec_lookup, DocValue};
use crate::errors::ErrKind;

verus! {

// ---------------------------------------------------------------------------
// Case-insensitive matching of access levels.
// ---------------------------------------------------------------------------

/// ASCII lower-casing of one character: upper-case letters move down by 32,
/// every other character is unchanged.
pub open spec fn lower_char(c: char) -> char {
    if 65 <= c as u32 && c as u32 <= 90 {
        ((c as u32) + 32) as char
    } else {
        c
    }
}

/// ASCII lower-casing of a character sequence.
pub open spec fn lower(s: Seq<char>) -> Seq<char> {
    s.map_values(|c: char| lower_char(c))
}

/// Case-insensitive equality of two character sequences.
pub open spec fn ci_equal(a: Seq<char>, b: Seq<char>) -> bool {
    lower(a) == lower(b)
}

/// The access level a string selects: exactly `const`, `local` and `global`,
/// compared case-insensitively, take effect; any other string selects none.
pub open spec fn access_of_spec(s: Seq<char>) -> Option<Access> {
    if ci_equal(s, "const"@) {
        Some(Access::Const)
    } else if ci_equal(s, "local"@) {
        Some(Access::Local)
    } else if ci_equal(s, "global"@) {
        Some(Access::Global)
    } else {
        None
    }
}

// ---------------------------------------------------------------------------
// Reading fields of a mapping.
// ---------------------------------------------------------------------------

/// The outcome of reading an optional string field: absent, present as a
/// string, or present with the wrong shape.
pub open spec fn opt_str_field(pairs: Seq<(DocValue, DocValue)>, key: Seq<char>) -> Result<
    Option<Seq<char>>,
    ErrKind,
> {
    match spec_lookup(pairs, key) {
        None => Ok(None),
        Some(DocValue::Str(s)) => Ok(Some(s@)),
        Some(_) => Err(ErrKind::InvalidType),
    }
}

// ---------------------------------------------------------------------------
// Leaf declarations.
// ---------------------------------------------------------------------------

/// What parsing an object entry named `name` emits: one create call from the
/// required `type` field, then the optional description, unit and access
/// calls, in that order.
pub open spec fn object_entry_out(name: Seq<char>, d: DocValue) -> ParseOut {
    match d {
        DocValue::Mapping(m) => {
            let ps = m@;
            match spec_lookup(ps, "type"@) {
                Some(DocValue::Str(ty)) => {
                    let desc = match opt_str_field(ps, "description"@) {
                        Ok(None) => po_empty(),
                        Ok(Some(s)) => po_one(CallV::SetObjectEntryDescription(s)),
                        Err(k) => po_fail(k),
                    };
                    let unit = match opt_str_field(ps, "unit"@) {
                        Ok(None) => po_empty(),
                        Ok(Some(s)) => po_one(CallV::SetObjectEntryUnit(s)),
                        Err(k) => po_fail(k),
                    };
                    let access = match opt_str_field(ps, "access"@) {
                        Ok(None) => po_empty(),
                        Ok(Some(s)) => match access_of_spec(s) {
                            Some(a) => po_one(CallV::SetObjectEntryAccess(a)),
                            None => po_empty(),
                        },
                        Err(k) => po_fail(k),
                    };
                    seq_then(
                        po_one(CallV::CreateObjectEntry(name, ty@)),
                        seq_then(desc, seq_then(unit, access)),
                    )
                },
                _ => po_fail(ErrKind::InvalidType),
            }
        },
        _ => po_fail(ErrKind::InvalidType),
    }
}

/// What one struct attribute pair emits: name and type must both be strings.
pub open spec fn struct_attr_out(p: (DocValue, DocValue)) -> ParseOut {
    match p {
        (DocValue::Str(n), DocValue::Str(t)) => po_one(CallV::AddStructAttribute(n@, t@)),
        _ => po_fail(ErrKind::InvalidType),
    }
}

/// What the attribute pairs of a struct type emit, in document order,
/// stopping at the first violation.
pub open spec fn struct_attrs_out(ps: Seq<(DocValue, DocValue)>) -> ParseOut
    decreases ps.len(),
{
    if ps.len() == 0 {
        po_empty()
    } else {
        seq_then(struct_attr_out(ps[0]), struct_attrs_out(ps.drop_first()))
    }
}

/// What parsing a struct type emits: one add-attribute call per pair.
pub open spec fn struct_type_out(d: DocValue) -> ParseOut {
    match d {
        DocValue::Mapping(m) => struct_attrs_out(m@),
        _ => po_fail(ErrKind::InvalidType),
    }
}

/// What one enum variant pair emits: the name must be a string; an explicit
/// value must be a non-negative integer; the null scalar defers assignment.
pub open spec fn enum_variant_out(p: (DocValue, DocValue)) -> ParseOut {
    match p.0 {
        DocValue::Str(n) => match p.1 {
            DocValue::Int(v) => if v < 0 {
                po_fail(ErrKind::InvalidType)
            } else {
                po_one(CallV::AddEnumVariant(n@, Some(v as u64)))
            },
            DocValue::Null => po_one(CallV::AddEnumVariant(n@, None)),
            _ => po_fail(ErrKind::InvalidType),
        },
        _ => po_fail(ErrKind::InvalidType),
    }
}

/// What the variant pairs of an enum type emit, in document order.
pub open spec fn enum_variants_out(ps: Seq<(DocValue, DocValue)>) -> ParseOut
    decreases ps.len(),
{
    if ps.len() == 0 {
        po_empty()
    } else {
        seq_then(enum_variant_out(ps[0]), enum_variants_out(ps.drop_first()))
    }
}

/// What parsing an enum type emits: one add-variant call per pair.
pub open spec fn enum_type_out(d: DocValue) -> ParseOut {
    match d {
        DocValue::Mapping(m) => enum_variants_out(m@),
        _ => po_fail(ErrKind::InvalidType),
    }
}

/// What parsing a bus emits: nothing when `baudrate` is absent, one
/// set-baudrate call when it is a non-negative integer, and a propagated
/// invalid-type failure otherwise.
pub open spec fn bus_out(d: DocValue) -> ParseOut {
    match d {
        DocValue::Mapping(m) => match spec_lookup(m@, "baudrate"@) {
            None => po_empty(),
            Some(DocValue::Int(b)) => if b < 0 {
                po_fail(ErrKind::InvalidType)
            } else {
                po_one(CallV::SetBusBaudrate(b as u64))
            },
            Some(_) => po_fail(ErrKind::InvalidType),
        },
        _ => po_fail(ErrKind::InvalidType),
    }
}

// ---------------------------------------------------------------------------
// Streams and commands.
// ---------------------------------------------------------------------------

/// What the entries of a transmit stream's `mapping` sequence emit: one
/// add-entry call per name, each of which must be a string.
pub open spec fn stream_entries_out(items: Seq<DocValue>) -> ParseOut
    decreases items.len(),
{
    if items.len() == 0 {
        po_empty()
    } else {
        let h = match items[0] {
            DocValue::Str(n) => po_one(CallV::AddStreamEntry(n@)),
            _ => po_fail(ErrKind::InvalidType),
        };
        seq_then(h, stream_entries_out(items.drop_first()))
    }
}

/// What parsing a transmit stream emits: the stream is created first, also
/// when the body turns out malformed; then the optional description and the
/// optional ordered entry list.
pub open spec fn tx_stream_out(name: Seq<char>, d: DocValue) -> ParseOut {
    let body = match d {
        DocValue::Mapping(m) => {
            let ps = m@;
            let desc = match opt_str_field(ps, "description"@) {
                Ok(None) => po_empty(),
                Ok(Some(s)) => po_one(CallV::SetStreamDescription(s)),
                Err(k) => po_fail(k),
            };
            let entries = match spec_lookup(ps, "mapping"@) {
                None => po_empty(),
                Some(DocValue::Sequence(items)) => stream_entries_out(items@),
                Some(_) => po_fail(ErrKind::InvalidType),
            };
            seq_then(desc, entries)
        },
        _ => po_fail(ErrKind::InvalidType),
    };
    seq_then(po_one(CallV::CreateStream(name)), body)
}

/// What one field pair of a receive stream emits: transmitter-side and
/// receiver-side names must both be strings.
pub open spec fn rx_field_out(p: (DocValue, DocValue)) -> ParseOut {
    match p {
        (DocValue::Str(tx), DocValue::Str(rx)) => po_one(CallV::MapStreamField(tx@, rx@)),
        _ => po_fail(ErrKind::InvalidType),
    }
}

/// What the field pairs of a receive stream emit, in document order.
pub open spec fn rx_fields_out(ps: Seq<(DocValue, DocValue)>) -> ParseOut
    decreases ps.len(),
{
    if ps.len() == 0 {
        po_empty()
    } else {
        seq_then(rx_field_out(ps[0]), rx_fields_out(ps.drop_first()))
    }
}

/// What parsing a receive stream emits: the binding to the sender's stream
/// is registered first, then one field-mapping call per pair.
pub open spec fn rx_stream_out(sender: Seq<char>, stream: Seq<char>, d: DocValue) -> ParseOut {
    let body = match d {
        DocValue::Mapping(m) => rx_fields_out(m@),
        _ => po_fail(ErrKind::InvalidType),
    };
    seq_then(po_one(CallV::ReceiveStream(sender, stream)), body)
}

/// What one command argument emits: the element must be a mapping with
/// exactly one pair, whose key is the argument name and whose value is its
/// type name, both strings.
pub open spec fn command_arg_out(item: DocValue) -> ParseOut {
    match item {
        DocValue::Mapping(am) => {
            let ps = am@;
            if ps.len() != 1 {
                po_fail(ErrKind::InvalidType)
            } else {
                match ps[0] {
                    (DocValue::Str(n), DocValue::Str(t)) => po_one(
                        CallV::AddCommandArgument(n@, t@),
                    ),
                    _ => po_fail(ErrKind::InvalidType),
                }
            }
        },
        _ => po_fail(ErrKind::InvalidType),
    }
}

/// What a command's argument sequence emits, in document order.
pub open spec fn command_args_out(items: Seq<DocValue>) -> ParseOut
    decreases items.len(),
{
    if items.len() == 0 {
        po_empty()
    } else {
        seq_then(command_arg_out(items[0]), command_args_out(items.drop_first()))
    }
}

/// What a command's callee sequence emits: one add-callee call per node
/// name, each of which must be a string.
pub open spec fn command_callees_out(items: Seq<DocValue>) -> ParseOut
    decreases items.len(),
{
    if items.len() == 0 {
        po_empty()
    } else {
        let h = match items[0] {
            DocValue::Str(n) => po_one(CallV::AddCommandCallee(n@)),
            _ => po_fail(ErrKind::InvalidType),
        };
        seq_then(h, command_callees_out(items.drop_first()))
    }
}

/// What a command's `arguments` field emits: absent emits nothing; present
/// it must be a sequence of single-pair mappings.
pub open spec fn command_args_part(ps: Seq<(DocValue, DocValue)>) -> ParseOut {
    match spec_lookup(ps, "arguments"@) {
        None => po_empty(),
        Some(DocValue::Sequence(items)) => command_args_out(items@),
        Some(_) => po_fail(ErrKind::InvalidType),
    }
}

/// What a command's `callee` field emits: absent emits nothing; present it
/// must be a sequence of node names.
pub open spec fn command_callees_part(ps: Seq<(DocValue, DocValue)>) -> ParseOut {
    match spec_lookup(ps, "callee"@) {
        None => po_empty(),
        Some(DocValue::Sequence(items)) => command_callees_out(items@),
        Some(_) => po_fail(ErrKind::InvalidType),
    }
}

/// What parsing a command emits: the command is created first, then the
/// optional description, arguments and callees, in that order.
pub open spec fn command_out(name: Seq<char>, d: DocValue) -> ParseOut {
    let body = match d {
        DocValue::Mapping(m) => {
            let ps = m@;
            let desc = match opt_str_field(ps, "description"@) {
                Ok(None) => po_empty(),
                Ok(Some(s)) => po_one(CallV::SetCommandDescription(s)),
                Err(k) => po_fail(k),
            };
            seq_then(desc, seq_then(command_args_part(ps), command_callees_part(ps)))
        },
        _ => po_fail(ErrKind::InvalidType),
    };
    seq_then(po_one(CallV::CreateCommand(name)), body)
}

// ---------------------------------------------------------------------------
// Nodes.
// ---------------------------------------------------------------------------

/// What the object dictionary of a node emits: each key must be a string
/// naming the entry, whose declaration is parsed in turn.
pub open spec fn od_items_out(ps: Seq<(DocValue, DocValue)>) -> ParseOut
    decreases ps.len(),
{
    if ps.len() == 0 {
        po_empty()
    } else {
        let h = match ps[0].0 {
            DocValue::Str(n) => object_entry_out(n@, ps[0].1),
            _ => po_fail(ErrKind::InvalidType),
        };
        seq_then(h, od_items_out(ps.drop_first()))
    }
}

/// What the transmit streams of a node emit, in document order.
pub open spec fn tx_stream_items_out(ps: Seq<(DocValue, DocValue)>) -> ParseOut
    decreases ps.len(),
{
    if ps.len() == 0 {
        po_empty()
    } else {
        let h = match ps[0].0 {
            DocValue::Str(n) => tx_stream_out(n@, ps[0].1),
            _ => po_fail(ErrKind::InvalidType),
        };
        seq_then(h, tx_stream_items_out(ps.drop_first()))
    }
}

/// What the streams received from one sender emit: each key names the
/// sender's stream and must be a string.
pub open spec fn rx_sender_streams_out(sender: Seq<char>, ps: Seq<(DocValue, DocValue)>) -> ParseOut
    decreases ps.len(),
{
    if ps.len() == 0 {
        po_empty()
    } else {
        let h = match ps[0].0 {
            DocValue::Str(n) => rx_stream_out(sender, n@, ps[0].1),
            _ => po_fail(ErrKind::InvalidType),
        };
        seq_then(h, rx_sender_streams_out(sender, ps.drop_first()))
    }
}

/// What a node's `rx_streams` section emits: each key must be a string
/// naming the sending node, each value a mapping of that sender's streams.
pub open spec fn rx_sender_items_out(ps: Seq<(DocValue, DocValue)>) -> ParseOut
    decreases ps.len(),
{
    if ps.len() == 0 {
        po_empty()
    } else {
        let h = match ps[0].0 {
            DocValue::Str(sender) => match ps[0].1 {
                DocValue::Mapping(m) => rx_sender_streams_out(sender@, m@),
                _ => po_fail(ErrKind::InvalidType),
            },
            _ => po_fail(ErrKind::InvalidType),
        };
        seq_then(h, rx_sender_items_out(ps.drop_first()))
    }
}

/// What the commands of a node emit, in document order.
pub open spec fn command_items_out(ps: Seq<(DocValue, DocValue)>) -> ParseOut
    decreases ps.len(),
{
    if ps.len() == 0 {
        po_empty()
    } else {
        let h = match ps[0].0 {
            DocValue::Str(n) => command_out(n@, ps[0].1),
            _ => po_fail(ErrKind::InvalidType),
        };
        seq_then(h, command_items_out(ps.drop_first()))
    }
}

/// What a node's `object_dictionary` section emits: absent emits nothing;
/// present it must be a mapping of entry names to entry declarations.
pub open spec fn node_od_part(ps: Seq<(DocValue, DocValue)>) -> ParseOut {
    match spec_lookup(ps, "object_dictionary"@) {
        None => po_empty(),
        Some(DocValue::Mapping(od)) => od_items_out(od@),
        Some(_) => po_fail(ErrKind::InvalidType),
    }
}

/// What a node's `tx_streams` section emits: absent emits nothing; present
/// it must be a mapping of stream names to stream declarations.
pub open spec fn node_tx_part(ps: Seq<(DocValue, DocValue)>) -> ParseOut {
    match spec_lookup(ps, "tx_streams"@) {
        None => po_empty(),
        Some(DocValue::Mapping(sm)) => tx_stream_items_out(sm@),
        Some(_) => po_fail(ErrKind::InvalidType),
    }
}

/// What a node's `rx_streams` section emits: absent emits nothing; present
/// it must be a mapping of sender names to mappings of received streams.
pub open spec fn node_rx_part(ps: Seq<(DocValue, DocValue)>) -> ParseOut {
    match spec_lookup(ps, "rx_streams"@) {
        None => po_empty(),
        Some(DocValue::Mapping(rm)) => rx_sender_items_out(rm@),
        Some(_) => po_fail(ErrKind::InvalidType),
    }
}

/// What a node's `commands` section emits: absent emits nothing; present it
/// must be a mapping of command names to command declarations.
pub open spec fn node_cmds_part(ps: Seq<(DocValue, DocValue)>) -> ParseOut {
    match spec_lookup(ps, "commands"@) {
        None => po_empty(),
        Some(DocValue::Mapping(cm)) => command_items_out(cm@),
        Some(_) => po_fail(ErrKind::InvalidType),
    }
}

/// What parsing a node emits: the node is created first; then the optional
/// description, object dictionary, transmit streams, receive streams and
/// commands, in that order.  Absence of any section is legal.
pub open spec fn node_out(name: Seq<char>, d: DocValue) -> ParseOut {
    let body = match d {
        DocValue::Mapping(m) => {
            let ps = m@;
            let desc = match opt_str_field(ps, "description"@) {
                Ok(None) => po_empty(),
                Ok(Some(s)) => po_one(CallV::SetNodeDescription(s)),
                Err(k) => po_fail(k),
            };
            seq_then(
                desc,
                seq_then(
                    node_od_part(ps),
                    seq_then(node_tx_part(ps), seq_then(node_rx_part(ps), node_cmds_part(ps))),
                ),
            )
        },
        _ => po_fail(ErrKind::InvalidType),
    };
    seq_then(po_one(CallV::CreateNode(name)), body)
}

// ---------------------------------------------------------------------------
// The top level.
// ---------------------------------------------------------------------------

/// What the `nodes` section emits: each key must be a string naming a node.
pub open spec fn top_nodes_out(ps: Seq<(DocValue, DocValue)>) -> ParseOut
    decreases ps.len(),
{
    if ps.len() == 0 {
        po_empty()
    } else {
        let h = match ps[0].0 {
            DocValue::Str(n) => node_out(n@, ps[0].1),
            _ => po_fail(ErrKind::InvalidType),
        };
        seq_then(h, top_nodes_out(ps.drop_first()))
    }
}

/// What the `struct_types` section emits: each struct type is defined by
/// name, then its attributes are added.
pub open spec fn top_structs_out(ps: Seq<(DocValue, DocValue)>) -> ParseOut
    decreases ps.len(),
{
    if ps.len() == 0 {
        po_empty()
    } else {
        let h = match ps[0].0 {
            DocValue::Str(n) => seq_then(po_one(CallV::DefineStruct(n@)), struct_type_out(ps[0].1)),
            _ => po_fail(ErrKind::InvalidType),
        };
        seq_then(h, top_structs_out(ps.drop_first()))
    }
}

/// What the `enum_types` section emits: each enum type is defined by name,
/// then its variants are added.
pub open spec fn top_enums_out(ps: Seq<(DocValue, DocValue)>) -> ParseOut
    decreases ps.len(),
{
    if ps.len() == 0 {
        po_empty()
    } else {
        let h = match ps[0].0 {
            DocValue::Str(n) => seq_then(po_one(CallV::DefineEnum(n@)), enum_type_out(ps[0].1)),
            _ => po_fail(ErrKind::InvalidType),
        };
        seq_then(h, top_enums_out(ps.drop_first()))
    }
}

/// What the `buses` section emits: each bus is created by name, then its
/// optional baudrate is set.
pub open spec fn top_buses_out(ps: Seq<(DocValue, DocValue)>) -> ParseOut
    decreases ps.len(),
{
    if ps.len() == 0 {
        po_empty()
    } else {
        let h = match ps[0].0 {
            DocValue::Str(n) => seq_then(po_one(CallV::CreateBus(n@)), bus_out(ps[0].1)),
            _ => po_fail(ErrKind::InvalidType),
        };
        seq_then(h, top_buses_out(ps.drop_first()))
    }
}

/// What the required `nodes` section emits: it must be present and a
/// mapping, else the whole parse fails with an invalid-type error.
pub open spec fn nodes_section_out(ps: Seq<(DocValue, DocValue)>) -> ParseOut {
    match spec_lookup(ps, "nodes"@) {
        Some(DocValue::Mapping(m)) => top_nodes_out(m@),
        _ => po_fail(ErrKind::InvalidType),
    }
}

/// What the required `struct_types` section emits.
pub open spec fn structs_section_out(ps: Seq<(DocValue, DocValue)>) -> ParseOut {
    match spec_lookup(ps, "struct_types"@) {
        Some(DocValue::Mapping(m)) => top_structs_out(m@),
        _ => po_fail(ErrKind::InvalidType),
    }
}

/// What the required `enum_types` section emits.
pub open spec fn enums_section_out(ps: Seq<(DocValue, DocValue)>) -> ParseOut {
    match spec_lookup(ps, "enum_types"@) {
        Some(DocValue::Mapping(m)) => top_enums_out(m@),
        _ => po_fail(ErrKind::InvalidType),
    }
}

/// What the required `buses` section emits.
pub open spec fn buses_section_out(ps: Seq<(DocValue, DocValue)>) -> ParseOut {
    match spec_lookup(ps, "buses"@) {
        Some(DocValue::Mapping(m)) => top_buses_out(m@),
        _ => po_fail(ErrKind::InvalidType),
    }
}

/// What parsing a whole network declaration emits: the root must be a
/// mapping (else the failure is invalid-format); the four sections `nodes`,
/// `struct_types`, `enum_types` and `buses` are required mappings and are
/// processed in that fixed order.
pub open spec fn top_level_out(d: DocValue) -> ParseOut {
    match d {
        DocValue::Mapping(m) => {
            let ps = m@;
            seq_then(
                nodes_section_out(ps),
                seq_then(
                    structs_section_out(ps),
                    seq_then(enums_section_out(ps), buses_section_out(ps)),
                ),
            )
        },
        _ => po_fail(ErrKind::InvalidFormat),
    }
}

} // verus!
