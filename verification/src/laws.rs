use vstd::prelude::*;
use crate::calls::{po_empty, po_one, CallV};
use crate::doc::{spec_lookup, DocValue};
use crate::errors::ErrKind;
use crate::model::{
    access_of_spec, bus_out, ci_equal, command_args_out, command_arg_out, command_callees_out,
    command_items_out, command_out, enum_variants_out, enum_variant_out, node_out,
    object_entry_out, od_items_out, opt_str_field, rx_fields_out, rx_sender_items_out,
    rx_sender_streams_out, rx_stream_out, stream_entries_out, struct_attrs_out, top_buses_out, top_enums_out,
    top_level_out, top_nodes_out, top_structs_out, tx_stream_items_out, tx_stream_out,
};

verus! {

// ---------------------------------------------------------------------------
// Access levels.
// ---------------------------------------------------------------------------

/// Access-level selection is case-insensitive: two strings that are equal
/// up to ASCII case select the same access level.
pub proof fn lemma_access_case_insensitive(s: Seq<char>, t: Seq<char>)
    requires
        ci_equal(s, t),
    ensures
        access_of_spec(s) == access_of_spec(t),
{
}

/// Exactly three strings take effect as access levels: a string selects an
/// access level if and only if it equals `const`, `local` or `global` up to
/// ASCII case; every other string selects none (and is accepted without
/// error by the object entry parser).
pub proof fn lemma_access_exactly_three(s: Seq<char>)
    ensures
        (access_of_spec(s) is Some) <==> (ci_equal(s, "const"@) || ci_equal(s, "local"@)
            || ci_equal(s, "global"@)),
{
}

// ---------------------------------------------------------------------------
// Enum variant values.
// ---------------------------------------------------------------------------

/// An enum variant with a string name emits exactly one add-variant call:
/// an explicit non-negative integer value is passed through, the null
/// scalar defers assignment, a negative integer or any other scalar kind is
/// an invalid-type failure.
pub proof fn lemma_enum_variant_values(name: String, v: DocValue)
    ensures
        (v matches DocValue::Int(x) ==> (if x >= 0 {
            enum_variant_out((DocValue::Str(name), v)) == po_one(
                CallV::AddEnumVariant(name@, Some(x as u64)),
            )
        } else {
            enum_variant_out((DocValue::Str(name), v)).err == Some(ErrKind::InvalidType)
        })),
        (v is Null ==> enum_variant_out((DocValue::Str(name), v)) == po_one(
            CallV::AddEnumVariant(name@, None),
        )),
        (!(v is Int) && !(v is Null) ==> enum_variant_out((DocValue::Str(name), v)).err
            == Some(ErrKind::InvalidType)),
{
}

// ---------------------------------------------------------------------------
// Bus baudrate.
// ---------------------------------------------------------------------------

/// A bus mapping without a `baudrate` key emits no call; one whose
/// `baudrate` is a non-negative integer emits exactly one set-baudrate
/// call; any other shape is an ordinary propagated invalid-type failure,
/// never an abort (the bus parser's contract rules a panic out).
pub proof fn lemma_bus_baudrate(m: Vec<(DocValue, DocValue)>)
    ensures
        (spec_lookup(m@, "baudrate"@) is None ==> bus_out(DocValue::Mapping(m)) == po_empty()),
        (spec_lookup(m@, "baudrate"@) matches Some(DocValue::Int(b)) ==> (if b >= 0 {
            bus_out(DocValue::Mapping(m)) == po_one(CallV::SetBusBaudrate(b as u64))
        } else {
            bus_out(DocValue::Mapping(m)).err == Some(ErrKind::InvalidType)
        })),
        (spec_lookup(m@, "baudrate"@) matches Some(v) && !(v is Int) ==> bus_out(
            DocValue::Mapping(m),
        ).err == Some(ErrKind::InvalidType)),
{
}

// ---------------------------------------------------------------------------
// Malformed documents fail with the specified kind.
// ---------------------------------------------------------------------------

/// A document whose root is not a mapping fails with the whole-document
/// invalid-format error, and emits no builder call.
pub proof fn lemma_top_level_requires_mapping(d: DocValue)
    requires
        !(d is Mapping),
    ensures
        top_level_out(d).err == Some(ErrKind::InvalidFormat),
        top_level_out(d).calls == Seq::<CallV>::empty(),
{
}

/// An object entry whose required `type` field is missing or is not a
/// string fails with an invalid-type error before any call is emitted.
pub proof fn lemma_object_entry_requires_type(name: Seq<char>, m: Vec<(DocValue, DocValue)>)
    requires
        !(spec_lookup(m@, "type"@) matches Some(v) && v is Str),
    ensures
        object_entry_out(name, DocValue::Mapping(m)).err == Some(ErrKind::InvalidType),
        object_entry_out(name, DocValue::Mapping(m)).calls == Seq::<CallV>::empty(),
{
}

// ---------------------------------------------------------------------------
// One call per declared entity, in document order.
// ---------------------------------------------------------------------------

/// Whether one struct attribute pair is well-formed: both name and type are
/// strings.
pub open spec fn wf_struct_attr(p: (DocValue, DocValue)) -> bool {
    p.0 is Str && p.1 is Str
}

/// The attribute pairs of a struct type parse successfully exactly when
/// every pair is a string-to-string pair, and then emit exactly one
/// add-attribute call per pair, in document order.
pub proof fn lemma_struct_attrs_exact(ps: Seq<(DocValue, DocValue)>)
    ensures
        (struct_attrs_out(ps).err is None) <==> (forall|i: int|
            0 <= i < ps.len() ==> wf_struct_attr(ps[i])),
        (struct_attrs_out(ps).err is None) ==> struct_attrs_out(ps).calls == Seq::new(
            ps.len(),
            |i: int| CallV::AddStructAttribute(ps[i].0->Str_0@, ps[i].1->Str_0@),
        ),
    decreases ps.len(),
{
    if ps.len() == 0 {
        assert(struct_attrs_out(ps).calls =~= Seq::new(
            ps.len(),
            |i: int| CallV::AddStructAttribute(ps[i].0->Str_0@, ps[i].1->Str_0@),
        ));
    } else {
        lemma_struct_attrs_exact(ps.drop_first());
        assert(forall|i: int|
            0 <= i < ps.drop_first().len() ==> ps.drop_first()[i] == ps[i + 1]);
        if struct_attrs_out(ps).err is None {
            assert(forall|i: int| 0 <= i < ps.len() ==> wf_struct_attr(ps[i])) by {
                assert(wf_struct_attr(ps[0]));
                assert(forall|i: int|
                    1 <= i < ps.len() ==> wf_struct_attr(ps.drop_first()[i - 1]) ==> wf_struct_attr(
                        ps[i],
                    ));
            }
            assert(struct_attrs_out(ps).calls =~= Seq::new(
                ps.len(),
                |i: int| CallV::AddStructAttribute(ps[i].0->Str_0@, ps[i].1->Str_0@),
            ));
        } else {
            if forall|i: int| 0 <= i < ps.len() ==> wf_struct_attr(ps[i]) {
                assert(wf_struct_attr(ps[0]));
                assert(forall|i: int| 0 <= i < ps.drop_first().len() ==> wf_struct_attr(
                    ps.drop_first()[i],
                ));
                assert(false);
            }
        }
    }
}

/// Whether one enum variant pair is well-formed: a string name with a
/// non-negative integer or null value.
pub open spec fn wf_enum_variant(p: (DocValue, DocValue)) -> bool {
    p.0 is Str && match p.1 {
        DocValue::Int(v) => v >= 0,
        DocValue::Null => true,
        _ => false,
    }
}

/// The explicit or deferred value of a well-formed enum variant pair.
pub open spec fn enum_variant_value(p: (DocValue, DocValue)) -> Option<u64> {
    match p.1 {
        DocValue::Int(v) => Some(v as u64),
        _ => None,
    }
}

/// The variant pairs of an enum type parse successfully exactly when every
/// pair is well-formed, and then emit exactly one add-variant call per
/// pair, in document order, with the explicit values passed through and
/// null values deferred.
pub proof fn lemma_enum_variants_exact(ps: Seq<(DocValue, DocValue)>)
    ensures
        (enum_variants_out(ps).err is None) <==> (forall|i: int|
            0 <= i < ps.len() ==> wf_enum_variant(ps[i])),
        (enum_variants_out(ps).err is None) ==> enum_variants_out(ps).calls == Seq::new(
            ps.len(),
            |i: int| CallV::AddEnumVariant(ps[i].0->Str_0@, enum_variant_value(ps[i])),
        ),
    decreases ps.len(),
{
    if ps.len() == 0 {
        assert(enum_variants_out(ps).calls =~= Seq::new(
            ps.len(),
            |i: int| CallV::AddEnumVariant(ps[i].0->Str_0@, enum_variant_value(ps[i])),
        ));
    } else {
        lemma_enum_variants_exact(ps.drop_first());
        assert(forall|i: int|
            0 <= i < ps.drop_first().len() ==> ps.drop_first()[i] == ps[i + 1]);
        if enum_variants_out(ps).err is None {
            assert(forall|i: int| 0 <= i < ps.len() ==> wf_enum_variant(ps[i])) by {
                assert(wf_enum_variant(ps[0]));
                assert(forall|i: int|
                    1 <= i < ps.len() ==> wf_enum_variant(ps.drop_first()[i - 1])
                        ==> wf_enum_variant(ps[i]));
            }
            assert(enum_variants_out(ps).calls =~= Seq::new(
                ps.len(),
                |i: int| CallV::AddEnumVariant(ps[i].0->Str_0@, enum_variant_value(ps[i])),
            ));
        } else {
            if forall|i: int| 0 <= i < ps.len() ==> wf_enum_variant(ps[i]) {
                assert(wf_enum_variant(ps[0]));
                assert(forall|i: int| 0 <= i < ps.drop_first().len() ==> wf_enum_variant(
                    ps.drop_first()[i],
                ));
                assert(false);
            }
        }
    }
}

/// The entry names of a transmit stream's `mapping` parse successfully
/// exactly when every element is a string, and then emit exactly one
/// add-entry call per name, in sequence order (the wire order).
pub proof fn lemma_stream_entries_exact(items: Seq<DocValue>)
    ensures
        (stream_entries_out(items).err is None) <==> (forall|i: int|
            0 <= i < items.len() ==> items[i] is Str),
        (stream_entries_out(items).err is None) ==> stream_entries_out(items).calls == Seq::new(
            items.len(),
            |i: int| CallV::AddStreamEntry(items[i]->Str_0@),
        ),
    decreases items.len(),
{
    if items.len() == 0 {
        assert(stream_entries_out(items).calls =~= Seq::new(
            items.len(),
            |i: int| CallV::AddStreamEntry(items[i]->Str_0@),
        ));
    } else {
        lemma_stream_entries_exact(items.drop_first());
        assert(forall|i: int|
            0 <= i < items.drop_first().len() ==> items.drop_first()[i] == items[i + 1]);
        if stream_entries_out(items).err is None {
            assert(forall|i: int| 0 <= i < items.len() ==> items[i] is Str) by {
                assert(items[0] is Str);
                assert(forall|i: int|
                    1 <= i < items.len() ==> items.drop_first()[i - 1] is Str ==> items[i] is Str);
            }
            assert(stream_entries_out(items).calls =~= Seq::new(
                items.len(),
                |i: int| CallV::AddStreamEntry(items[i]->Str_0@),
            ));
        } else {
            if forall|i: int| 0 <= i < items.len() ==> items[i] is Str {
                assert(items[0] is Str);
                assert(forall|i: int| 0 <= i < items.drop_first().len() ==> items.drop_first()[i]
                    is Str);
                assert(false);
            }
        }
    }
}

/// The field pairs of a receive stream parse successfully exactly when
/// both sides of every pair are strings, and then emit exactly one
/// field-mapping call per pair, in document order.
pub proof fn lemma_rx_fields_exact(ps: Seq<(DocValue, DocValue)>)
    ensures
        (rx_fields_out(ps).err is None) <==> (forall|i: int|
            0 <= i < ps.len() ==> (ps[i].0 is Str && ps[i].1 is Str)),
        (rx_fields_out(ps).err is None) ==> rx_fields_out(ps).calls == Seq::new(
            ps.len(),
            |i: int| CallV::MapStreamField(ps[i].0->Str_0@, ps[i].1->Str_0@),
        ),
    decreases ps.len(),
{
    if ps.len() == 0 {
        assert(rx_fields_out(ps).calls =~= Seq::new(
            ps.len(),
            |i: int| CallV::MapStreamField(ps[i].0->Str_0@, ps[i].1->Str_0@),
        ));
    } else {
        lemma_rx_fields_exact(ps.drop_first());
        assert(forall|i: int|
            0 <= i < ps.drop_first().len() ==> ps.drop_first()[i] == ps[i + 1]);
        if rx_fields_out(ps).err is None {
            assert(forall|i: int| 0 <= i < ps.len() ==> (ps[i].0 is Str && ps[i].1 is Str)) by {
                assert(ps[0].0 is Str && ps[0].1 is Str);
                assert(forall|i: int|
                    1 <= i < ps.len() ==> (ps.drop_first()[i - 1].0 is Str && ps.drop_first()[i
                        - 1].1 is Str) ==> (ps[i].0 is Str && ps[i].1 is Str));
            }
            assert(rx_fields_out(ps).calls =~= Seq::new(
                ps.len(),
                |i: int| CallV::MapStreamField(ps[i].0->Str_0@, ps[i].1->Str_0@),
            ));
        } else {
            if forall|i: int| 0 <= i < ps.len() ==> (ps[i].0 is Str && ps[i].1 is Str) {
                assert(ps[0].0 is Str && ps[0].1 is Str);
                assert(forall|i: int| 0 <= i < ps.drop_first().len() ==> (ps.drop_first()[i].0
                    is Str && ps.drop_first()[i].1 is Str));
                assert(false);
            }
        }
    }
}

/// The callee names of a command parse successfully exactly when every
/// element is a string, and then emit exactly one add-callee call per
/// name, in sequence order.
pub proof fn lemma_command_callees_exact(items: Seq<DocValue>)
    ensures
        (command_callees_out(items).err is None) <==> (forall|i: int|
            0 <= i < items.len() ==> items[i] is Str),
        (command_callees_out(items).err is None) ==> command_callees_out(items).calls == Seq::new(
            items.len(),
            |i: int| CallV::AddCommandCallee(items[i]->Str_0@),
        ),
    decreases items.len(),
{
    if items.len() == 0 {
        assert(command_callees_out(items).calls =~= Seq::new(
            items.len(),
            |i: int| CallV::AddCommandCallee(items[i]->Str_0@),
        ));
    } else {
        lemma_command_callees_exact(items.drop_first());
        assert(forall|i: int|
            0 <= i < items.drop_first().len() ==> items.drop_first()[i] == items[i + 1]);
        if command_callees_out(items).err is None {
            assert(forall|i: int| 0 <= i < items.len() ==> items[i] is Str) by {
                assert(items[0] is Str);
                assert(forall|i: int|
                    1 <= i < items.len() ==> items.drop_first()[i - 1] is Str ==> items[i] is Str);
            }
            assert(command_callees_out(items).calls =~= Seq::new(
                items.len(),
                |i: int| CallV::AddCommandCallee(items[i]->Str_0@),
            ));
        } else {
            if forall|i: int| 0 <= i < items.len() ==> items[i] is Str {
                assert(items[0] is Str);
                assert(forall|i: int| 0 <= i < items.drop_first().len() ==> items.drop_first()[i]
                    is Str);
                assert(false);
            }
        }
    }
}

/// Whether one command argument element is well-formed: a mapping holding
/// exactly one pair, both sides strings.
pub open spec fn wf_command_arg(item: DocValue) -> bool {
    item matches DocValue::Mapping(am) && am@.len() == 1 && am@[0].0 is Str && am@[0].1 is Str
}

/// The argument elements of a command parse successfully exactly when
/// every element is a single string-to-string pair, and then emit exactly
/// one add-argument call per element, in sequence order.
pub proof fn lemma_command_args_exact(items: Seq<DocValue>)
    ensures
        (command_args_out(items).err is None) <==> (forall|i: int|
            0 <= i < items.len() ==> wf_command_arg(items[i])),
        (command_args_out(items).err is None) ==> command_args_out(items).calls == Seq::new(
            items.len(),
            |i: int| CallV::AddCommandArgument(
                items[i]->Mapping_0@[0].0->Str_0@,
                items[i]->Mapping_0@[0].1->Str_0@,
            ),
        ),
    decreases items.len(),
{
    if items.len() == 0 {
        assert(command_args_out(items).calls =~= Seq::new(
            items.len(),
            |i: int| CallV::AddCommandArgument(
                items[i]->Mapping_0@[0].0->Str_0@,
                items[i]->Mapping_0@[0].1->Str_0@,
            ),
        ));
    } else {
        lemma_command_args_exact(items.drop_first());
        assert(forall|i: int|
            0 <= i < items.drop_first().len() ==> items.drop_first()[i] == items[i + 1]);
        assert(command_arg_out(items[0]).err is None <==> wf_command_arg(items[0]));
        if command_args_out(items).err is None {
            assert(forall|i: int| 0 <= i < items.len() ==> wf_command_arg(items[i])) by {
                assert(wf_command_arg(items[0]));
                assert(forall|i: int|
                    1 <= i < items.len() ==> wf_command_arg(items.drop_first()[i - 1])
                        ==> wf_command_arg(items[i]));
            }
            assert(command_args_out(items).calls =~= Seq::new(
                items.len(),
                |i: int| CallV::AddCommandArgument(
                    items[i]->Mapping_0@[0].0->Str_0@,
                    items[i]->Mapping_0@[0].1->Str_0@,
                ),
            ));
        } else {
            if forall|i: int| 0 <= i < items.len() ==> wf_command_arg(items[i]) {
                assert(wf_command_arg(items[0]));
                assert(forall|i: int| 0 <= i < items.drop_first().len() ==> wf_command_arg(
                    items.drop_first()[i],
                ));
                assert(false);
            }
        }
    }
}


// ---------------------------------------------------------------------------
// Well-formed documents parse successfully.
//
// `wf_*` is the declarative schema: it says which shapes are legal without
// mentioning emission.  The lemmas below show that every parser succeeds
// exactly on the well-formed declarations, culminating in the whole-document
// statement of `lemma_top_level_succeeds`.
// ---------------------------------------------------------------------------

/// Whether a declaration's optional string field is legal: absent or a
/// string.
pub open spec fn wf_opt_str(ps: Seq<(DocValue, DocValue)>, key: Seq<char>) -> bool {
    opt_str_field(ps, key) is Ok
}

/// A legal object entry body: a mapping whose `type` is a string and whose
/// `description`, `unit` and `access` fields, where present, are strings.
pub open spec fn wf_object_entry(d: DocValue) -> bool {
    &&& d matches DocValue::Mapping(m)
    &&& (spec_lookup(m@, "type"@) matches Some(t) && t is Str)
    &&& wf_opt_str(m@, "description"@)
    &&& wf_opt_str(m@, "unit"@)
    &&& wf_opt_str(m@, "access"@)
}

/// An object entry parses successfully exactly when its body is legal,
/// whatever its name.
pub proof fn lemma_object_entry_succeeds(name: Seq<char>, d: DocValue)
    ensures
        (object_entry_out(name, d).err is None) <==> wf_object_entry(d),
{
}

/// A legal transmit stream body: a mapping whose `description`, where
/// present, is a string and whose `mapping`, where present, is a sequence
/// of strings.
pub open spec fn wf_tx_stream(d: DocValue) -> bool {
    &&& d matches DocValue::Mapping(m)
    &&& wf_opt_str(m@, "description"@)
    &&& (match spec_lookup(m@, "mapping"@) {
        None => true,
        Some(DocValue::Sequence(items)) => forall|i: int|
            0 <= i < items@.len() ==> items@[i] is Str,
        Some(_) => false,
    })
}

/// A transmit stream parses successfully exactly when its body is legal.
pub proof fn lemma_tx_stream_succeeds(name: Seq<char>, d: DocValue)
    ensures
        (tx_stream_out(name, d).err is None) <==> wf_tx_stream(d),
{
    if let DocValue::Mapping(m) = d {
        if let Some(DocValue::Sequence(items)) = spec_lookup(m@, "mapping"@) {
            lemma_stream_entries_exact(items@);
        }
    }
}

/// A legal receive stream body: a mapping of strings to strings.
pub open spec fn wf_rx_stream(d: DocValue) -> bool {
    &&& d matches DocValue::Mapping(m)
    &&& (forall|i: int| 0 <= i < m@.len() ==> (m@[i].0 is Str && m@[i].1 is Str))
}

/// A receive stream parses successfully exactly when its body is legal.
pub proof fn lemma_rx_stream_succeeds(sender: Seq<char>, stream: Seq<char>, d: DocValue)
    ensures
        (rx_stream_out(sender, stream, d).err is None) <==> wf_rx_stream(d),
{
    if let DocValue::Mapping(m) = d {
        lemma_rx_fields_exact(m@);
    }
}

/// A legal command body: a mapping whose `description`, where present, is
/// a string, whose `arguments`, where present, is a sequence of single
/// string-to-string pairs, and whose `callee`, where present, is a
/// sequence of strings.
pub open spec fn wf_command(d: DocValue) -> bool {
    &&& d matches DocValue::Mapping(m)
    &&& wf_opt_str(m@, "description"@)
    &&& (match spec_lookup(m@, "arguments"@) {
        None => true,
        Some(DocValue::Sequence(items)) => forall|i: int|
            0 <= i < items@.len() ==> wf_command_arg(items@[i]),
        Some(_) => false,
    })
    &&& (match spec_lookup(m@, "callee"@) {
        None => true,
        Some(DocValue::Sequence(items)) => forall|i: int|
            0 <= i < items@.len() ==> items@[i] is Str,
        Some(_) => false,
    })
}

/// A command parses successfully exactly when its body is legal.
pub proof fn lemma_command_succeeds(name: Seq<char>, d: DocValue)
    ensures
        (command_out(name, d).err is None) <==> wf_command(d),
{
    if let DocValue::Mapping(m) = d {
        if let Some(DocValue::Sequence(items)) = spec_lookup(m@, "arguments"@) {
            lemma_command_args_exact(items@);
        }
        if let Some(DocValue::Sequence(items)) = spec_lookup(m@, "callee"@) {
            lemma_command_callees_exact(items@);
        }
    }
}

/// A legal object dictionary pair: a string name with a legal entry body.
pub open spec fn wf_od_item(p: (DocValue, DocValue)) -> bool {
    p.0 is Str && wf_object_entry(p.1)
}

proof fn lemma_od_items_succeed(ps: Seq<(DocValue, DocValue)>)
    ensures
        (od_items_out(ps).err is None) <==> (forall|i: int| 0 <= i < ps.len() ==> wf_od_item(ps[i])),
    decreases ps.len(),
{
    if ps.len() != 0 {
        lemma_od_items_succeed(ps.drop_first());
        assert(forall|i: int| 0 <= i < ps.drop_first().len() ==> ps.drop_first()[i] == ps[i + 1]);
        if let DocValue::Str(n) = ps[0].0 {
            lemma_object_entry_succeeds(n@, ps[0].1);
        }
        if od_items_out(ps).err is None {
            assert(forall|i: int| 0 <= i < ps.len() ==> wf_od_item(ps[i])) by {
                assert(wf_od_item(ps[0]));
                assert(forall|i: int|
                    1 <= i < ps.len() ==> wf_od_item(ps.drop_first()[i - 1]) ==> wf_od_item(ps[i]));
            }
        } else {
            if forall|i: int| 0 <= i < ps.len() ==> wf_od_item(ps[i]) {
                assert(wf_od_item(ps[0]));
                assert(forall|i: int| 0 <= i < ps.drop_first().len() ==> wf_od_item(
                    ps.drop_first()[i],
                ));
                assert(false);
            }
        }
    }
}

/// A legal transmit stream pair: a string name with a legal stream body.
pub open spec fn wf_tx_item(p: (DocValue, DocValue)) -> bool {
    p.0 is Str && wf_tx_stream(p.1)
}

proof fn lemma_tx_items_succeed(ps: Seq<(DocValue, DocValue)>)
    ensures
        (tx_stream_items_out(ps).err is None) <==> (forall|i: int|
            0 <= i < ps.len() ==> wf_tx_item(ps[i])),
    decreases ps.len(),
{
    if ps.len() != 0 {
        lemma_tx_items_succeed(ps.drop_first());
        assert(forall|i: int| 0 <= i < ps.drop_first().len() ==> ps.drop_first()[i] == ps[i + 1]);
        if let DocValue::Str(n) = ps[0].0 {
            lemma_tx_stream_succeeds(n@, ps[0].1);
        }
        if tx_stream_items_out(ps).err is None {
            assert(forall|i: int| 0 <= i < ps.len() ==> wf_tx_item(ps[i])) by {
                assert(wf_tx_item(ps[0]));
                assert(forall|i: int|
                    1 <= i < ps.len() ==> wf_tx_item(ps.drop_first()[i - 1]) ==> wf_tx_item(ps[i]));
            }
        } else {
            if forall|i: int| 0 <= i < ps.len() ==> wf_tx_item(ps[i]) {
                assert(wf_tx_item(ps[0]));
                assert(forall|i: int| 0 <= i < ps.drop_first().len() ==> wf_tx_item(
                    ps.drop_first()[i],
                ));
                assert(false);
            }
        }
    }
}

/// A legal pair under one sender: a string stream name with a legal
/// receive stream body.
pub open spec fn wf_rx_stream_item(p: (DocValue, DocValue)) -> bool {
    p.0 is Str && wf_rx_stream(p.1)
}

proof fn lemma_rx_sender_streams_succeed(sender: Seq<char>, ps: Seq<(DocValue, DocValue)>)
    ensures
        (rx_sender_streams_out(sender, ps).err is None) <==> (forall|i: int|
            0 <= i < ps.len() ==> wf_rx_stream_item(ps[i])),
    decreases ps.len(),
{
    if ps.len() != 0 {
        lemma_rx_sender_streams_succeed(sender, ps.drop_first());
        assert(forall|i: int| 0 <= i < ps.drop_first().len() ==> ps.drop_first()[i] == ps[i + 1]);
        if let DocValue::Str(n) = ps[0].0 {
            lemma_rx_stream_succeeds(sender, n@, ps[0].1);
        }
        if rx_sender_streams_out(sender, ps).err is None {
            assert(forall|i: int| 0 <= i < ps.len() ==> wf_rx_stream_item(ps[i])) by {
                assert(wf_rx_stream_item(ps[0]));
                assert(forall|i: int|
                    1 <= i < ps.len() ==> wf_rx_stream_item(ps.drop_first()[i - 1])
                        ==> wf_rx_stream_item(ps[i]));
            }
        } else {
            if forall|i: int| 0 <= i < ps.len() ==> wf_rx_stream_item(ps[i]) {
                assert(wf_rx_stream_item(ps[0]));
                assert(forall|i: int| 0 <= i < ps.drop_first().len() ==> wf_rx_stream_item(
                    ps.drop_first()[i],
                ));
                assert(false);
            }
        }
    }
}

/// A legal pair of a node's `rx_streams` section: a string sender name
/// with a mapping of legal receive streams.
pub open spec fn wf_rx_sender_item(p: (DocValue, DocValue)) -> bool {
    &&& p.0 is Str
    &&& p.1 matches DocValue::Mapping(sm)
    &&& (forall|i: int| 0 <= i < sm@.len() ==> wf_rx_stream_item(sm@[i]))
}

proof fn lemma_rx_sender_items_succeed(ps: Seq<(DocValue, DocValue)>)
    ensures
        (rx_sender_items_out(ps).err is None) <==> (forall|i: int|
            0 <= i < ps.len() ==> wf_rx_sender_item(ps[i])),
    decreases ps.len(),
{
    if ps.len() != 0 {
        lemma_rx_sender_items_succeed(ps.drop_first());
        assert(forall|i: int| 0 <= i < ps.drop_first().len() ==> ps.drop_first()[i] == ps[i + 1]);
        if let DocValue::Str(n) = ps[0].0 {
            if let DocValue::Mapping(sm) = ps[0].1 {
                lemma_rx_sender_streams_succeed(n@, sm@);
            }
        }
        if rx_sender_items_out(ps).err is None {
            assert(forall|i: int| 0 <= i < ps.len() ==> wf_rx_sender_item(ps[i])) by {
                assert(wf_rx_sender_item(ps[0]));
                assert(forall|i: int|
                    1 <= i < ps.len() ==> wf_rx_sender_item(ps.drop_first()[i - 1])
                        ==> wf_rx_sender_item(ps[i]));
            }
        } else {
            if forall|i: int| 0 <= i < ps.len() ==> wf_rx_sender_item(ps[i]) {
                assert(wf_rx_sender_item(ps[0]));
                assert(forall|i: int| 0 <= i < ps.drop_first().len() ==> wf_rx_sender_item(
                    ps.drop_first()[i],
                ));
                assert(false);
            }
        }
    }
}

/// A legal command pair: a string name with a legal command body.
pub open spec fn wf_command_item(p: (DocValue, DocValue)) -> bool {
    p.0 is Str && wf_command(p.1)
}

proof fn lemma_command_items_succeed(ps: Seq<(DocValue, DocValue)>)
    ensures
        (command_items_out(ps).err is None) <==> (forall|i: int|
            0 <= i < ps.len() ==> wf_command_item(ps[i])),
    decreases ps.len(),
{
    if ps.len() != 0 {
        lemma_command_items_succeed(ps.drop_first());
        assert(forall|i: int| 0 <= i < ps.drop_first().len() ==> ps.drop_first()[i] == ps[i + 1]);
        if let DocValue::Str(n) = ps[0].0 {
            lemma_command_succeeds(n@, ps[0].1);
        }
        if command_items_out(ps).err is None {
            assert(forall|i: int| 0 <= i < ps.len() ==> wf_command_item(ps[i])) by {
                assert(wf_command_item(ps[0]));
                assert(forall|i: int|
                    1 <= i < ps.len() ==> wf_command_item(ps.drop_first()[i - 1])
                        ==> wf_command_item(ps[i]));
            }
        } else {
            if forall|i: int| 0 <= i < ps.len() ==> wf_command_item(ps[i]) {
                assert(wf_command_item(ps[0]));
                assert(forall|i: int| 0 <= i < ps.drop_first().len() ==> wf_command_item(
                    ps.drop_first()[i],
                ));
                assert(false);
            }
        }
    }
}

/// A legal node body: a mapping whose optional `description` is a string
/// and whose optional sections hold legal declarations.
pub open spec fn wf_node(d: DocValue) -> bool {
    &&& d matches DocValue::Mapping(m)
    &&& wf_opt_str(m@, "description"@)
    &&& (match spec_lookup(m@, "object_dictionary"@) {
        None => true,
        Some(DocValue::Mapping(od)) => forall|i: int| 0 <= i < od@.len() ==> wf_od_item(od@[i]),
        Some(_) => false,
    })
    &&& (match spec_lookup(m@, "tx_streams"@) {
        None => true,
        Some(DocValue::Mapping(sm)) => forall|i: int| 0 <= i < sm@.len() ==> wf_tx_item(sm@[i]),
        Some(_) => false,
    })
    &&& (match spec_lookup(m@, "rx_streams"@) {
        None => true,
        Some(DocValue::Mapping(rm)) => forall|i: int|
            0 <= i < rm@.len() ==> wf_rx_sender_item(rm@[i]),
        Some(_) => false,
    })
    &&& (match spec_lookup(m@, "commands"@) {
        None => true,
        Some(DocValue::Mapping(cm)) => forall|i: int|
            0 <= i < cm@.len() ==> wf_command_item(cm@[i]),
        Some(_) => false,
    })
}

/// A node parses successfully exactly when its body is legal; an empty
/// node is legal.
pub proof fn lemma_node_succeeds(name: Seq<char>, d: DocValue)
    ensures
        (node_out(name, d).err is None) <==> wf_node(d),
{
    if let DocValue::Mapping(m) = d {
        if let Some(DocValue::Mapping(od)) = spec_lookup(m@, "object_dictionary"@) {
            lemma_od_items_succeed(od@);
        }
        if let Some(DocValue::Mapping(sm)) = spec_lookup(m@, "tx_streams"@) {
            lemma_tx_items_succeed(sm@);
        }
        if let Some(DocValue::Mapping(rm)) = spec_lookup(m@, "rx_streams"@) {
            lemma_rx_sender_items_succeed(rm@);
        }
        if let Some(DocValue::Mapping(cm)) = spec_lookup(m@, "commands"@) {
            lemma_command_items_succeed(cm@);
        }
    }
}

/// A legal struct type body: a mapping of strings to strings.
pub open spec fn wf_struct_type(d: DocValue) -> bool {
    &&& d matches DocValue::Mapping(m)
    &&& (forall|i: int| 0 <= i < m@.len() ==> wf_struct_attr(m@[i]))
}

/// A legal enum type body: a mapping of string names to non-negative
/// integers or nulls.
pub open spec fn wf_enum_type(d: DocValue) -> bool {
    &&& d matches DocValue::Mapping(m)
    &&& (forall|i: int| 0 <= i < m@.len() ==> wf_enum_variant(m@[i]))
}

/// A legal bus body: a mapping whose optional `baudrate` is a non-negative
/// integer.
pub open spec fn wf_bus(d: DocValue) -> bool {
    &&& d matches DocValue::Mapping(m)
    &&& (match spec_lookup(m@, "baudrate"@) {
        None => true,
        Some(DocValue::Int(b)) => b >= 0,
        Some(_) => false,
    })
}

/// A legal `nodes` section pair.
pub open spec fn wf_node_item(p: (DocValue, DocValue)) -> bool {
    p.0 is Str && wf_node(p.1)
}

proof fn lemma_top_nodes_succeed(ps: Seq<(DocValue, DocValue)>)
    ensures
        (top_nodes_out(ps).err is None) <==> (forall|i: int|
            0 <= i < ps.len() ==> wf_node_item(ps[i])),
    decreases ps.len(),
{
    if ps.len() != 0 {
        lemma_top_nodes_succeed(ps.drop_first());
        assert(forall|i: int| 0 <= i < ps.drop_first().len() ==> ps.drop_first()[i] == ps[i + 1]);
        if let DocValue::Str(n) = ps[0].0 {
            lemma_node_succeeds(n@, ps[0].1);
        }
        if top_nodes_out(ps).err is None {
            assert(forall|i: int| 0 <= i < ps.len() ==> wf_node_item(ps[i])) by {
                assert(wf_node_item(ps[0]));
                assert(forall|i: int|
                    1 <= i < ps.len() ==> wf_node_item(ps.drop_first()[i - 1]) ==> wf_node_item(
                        ps[i],
                    ));
            }
        } else {
            if forall|i: int| 0 <= i < ps.len() ==> wf_node_item(ps[i]) {
                assert(wf_node_item(ps[0]));
                assert(forall|i: int| 0 <= i < ps.drop_first().len() ==> wf_node_item(
                    ps.drop_first()[i],
                ));
                assert(false);
            }
        }
    }
}

/// A legal `struct_types` section pair.
pub open spec fn wf_struct_item(p: (DocValue, DocValue)) -> bool {
    p.0 is Str && wf_struct_type(p.1)
}

proof fn lemma_top_structs_succeed(ps: Seq<(DocValue, DocValue)>)
    ensures
        (top_structs_out(ps).err is None) <==> (forall|i: int|
            0 <= i < ps.len() ==> wf_struct_item(ps[i])),
    decreases ps.len(),
{
    if ps.len() != 0 {
        lemma_top_structs_succeed(ps.drop_first());
        assert(forall|i: int| 0 <= i < ps.drop_first().len() ==> ps.drop_first()[i] == ps[i + 1]);
        if let DocValue::Mapping(am) = ps[0].1 {
            lemma_struct_attrs_exact(am@);
        }
        if top_structs_out(ps).err is None {
            assert(forall|i: int| 0 <= i < ps.len() ==> wf_struct_item(ps[i])) by {
                assert(wf_struct_item(ps[0]));
                assert(forall|i: int|
                    1 <= i < ps.len() ==> wf_struct_item(ps.drop_first()[i - 1]) ==> wf_struct_item(
                        ps[i],
                    ));
            }
        } else {
            if forall|i: int| 0 <= i < ps.len() ==> wf_struct_item(ps[i]) {
                assert(wf_struct_item(ps[0]));
                assert(forall|i: int| 0 <= i < ps.drop_first().len() ==> wf_struct_item(
                    ps.drop_first()[i],
                ));
                assert(false);
            }
        }
    }
}

/// A legal `enum_types` section pair.
pub open spec fn wf_enum_item(p: (DocValue, DocValue)) -> bool {
    p.0 is Str && wf_enum_type(p.1)
}

proof fn lemma_top_enums_succeed(ps: Seq<(DocValue, DocValue)>)
    ensures
        (top_enums_out(ps).err is None) <==> (forall|i: int|
            0 <= i < ps.len() ==> wf_enum_item(ps[i])),
    decreases ps.len(),
{
    if ps.len() != 0 {
        lemma_top_enums_succeed(ps.drop_first());
        assert(forall|i: int| 0 <= i < ps.drop_first().len() ==> ps.drop_first()[i] == ps[i + 1]);
        if let DocValue::Mapping(vm) = ps[0].1 {
            lemma_enum_variants_exact(vm@);
        }
        if top_enums_out(ps).err is None {
            assert(forall|i: int| 0 <= i < ps.len() ==> wf_enum_item(ps[i])) by {
                assert(wf_enum_item(ps[0]));
                assert(forall|i: int|
                    1 <= i < ps.len() ==> wf_enum_item(ps.drop_first()[i - 1]) ==> wf_enum_item(
                        ps[i],
                    ));
            }
        } else {
            if forall|i: int| 0 <= i < ps.len() ==> wf_enum_item(ps[i]) {
                assert(wf_enum_item(ps[0]));
                assert(forall|i: int| 0 <= i < ps.drop_first().len() ==> wf_enum_item(
                    ps.drop_first()[i],
                ));
                assert(false);
            }
        }
    }
}

/// A legal `buses` section pair.
pub open spec fn wf_bus_item(p: (DocValue, DocValue)) -> bool {
    p.0 is Str && wf_bus(p.1)
}

proof fn lemma_top_buses_succeed(ps: Seq<(DocValue, DocValue)>)
    ensures
        (top_buses_out(ps).err is None) <==> (forall|i: int|
            0 <= i < ps.len() ==> wf_bus_item(ps[i])),
    decreases ps.len(),
{
    if ps.len() != 0 {
        lemma_top_buses_succeed(ps.drop_first());
        assert(forall|i: int| 0 <= i < ps.drop_first().len() ==> ps.drop_first()[i] == ps[i + 1]);
        if top_buses_out(ps).err is None {
            assert(forall|i: int| 0 <= i < ps.len() ==> wf_bus_item(ps[i])) by {
                assert(wf_bus_item(ps[0]));
                assert(forall|i: int|
                    1 <= i < ps.len() ==> wf_bus_item(ps.drop_first()[i - 1]) ==> wf_bus_item(
                        ps[i],
                    ));
            }
        } else {
            if forall|i: int| 0 <= i < ps.len() ==> wf_bus_item(ps[i]) {
                assert(wf_bus_item(ps[0]));
                assert(forall|i: int| 0 <= i < ps.drop_first().len() ==> wf_bus_item(
                    ps.drop_first()[i],
                ));
                assert(false);
            }
        }
    }
}

/// A well-formed network declaration: a mapping whose four required
/// sections `nodes`, `struct_types`, `enum_types` and `buses` are mappings
/// of legal declarations.
pub open spec fn wf_document(d: DocValue) -> bool {
    &&& d matches DocValue::Mapping(m)
    &&& (spec_lookup(m@, "nodes"@) matches Some(DocValue::Mapping(ns)) && (forall|i: int|
        0 <= i < ns@.len() ==> wf_node_item(ns@[i])))
    &&& (spec_lookup(m@, "struct_types"@) matches Some(DocValue::Mapping(ss)) && (forall|i: int|
        0 <= i < ss@.len() ==> wf_struct_item(ss@[i])))
    &&& (spec_lookup(m@, "enum_types"@) matches Some(DocValue::Mapping(es)) && (forall|i: int|
        0 <= i < es@.len() ==> wf_enum_item(es@[i])))
    &&& (spec_lookup(m@, "buses"@) matches Some(DocValue::Mapping(bs)) && (forall|i: int|
        0 <= i < bs@.len() ==> wf_bus_item(bs@[i])))
}

/// Parsing a whole network declaration succeeds exactly on well-formed
/// documents: together with the parsers' contracts, every well-formed
/// document yields its full builder-call sequence, and every other
/// document is rejected with the specified error kind.
pub proof fn lemma_top_level_succeeds(d: DocValue)
    ensures
        (top_level_out(d).err is None) <==> wf_document(d),
{
    if let DocValue::Mapping(m) = d {
        if let Some(DocValue::Mapping(ns)) = spec_lookup(m@, "nodes"@) {
            lemma_top_nodes_succeed(ns@);
        }
        if let Some(DocValue::Mapping(ss)) = spec_lookup(m@, "struct_types"@) {
            lemma_top_structs_succeed(ss@);
        }
        if let Some(DocValue::Mapping(es)) = spec_lookup(m@, "enum_types"@) {
            lemma_top_enums_succeed(es@);
        }
        if let Some(DocValue::Mapping(bs)) = spec_lookup(m@, "buses"@) {
            lemma_top_buses_succeed(bs@);
        }
    }
}

} // verus!
