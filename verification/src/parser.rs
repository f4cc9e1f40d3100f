use vstd::prelude::*;
use crate::calls::{calls_view, emit, po_empty, po_fail, po_make, po_one, po_prefix, seq_then, Access, BuilderCall,
    CallV, ParseOut};
use crate::doc::{doc_get, DocValue};
use crate::errors::{ErrKind, Error};
use crate::model::{
    access_of_spec, bus_out, enum_type_out, enum_variants_out, lower, lower_char, object_entry_out,
    command_arg_out, command_args_out, command_args_part, command_callees_out,
    command_callees_part, command_items_out, command_out, node_cmds_part, node_od_part,
    node_out, node_rx_part, node_tx_part, od_items_out, rx_fields_out, rx_sender_items_out,
    rx_sender_streams_out, rx_stream_out, stream_entries_out, struct_attrs_out, struct_type_out,
    tx_stream_items_out, tx_stream_out, buses_section_out, enums_section_out,
    nodes_section_out, structs_section_out, top_buses_out, top_enums_out, top_level_out,
    top_nodes_out, top_structs_out,
};

verus! {

/// The contract every parser meets: the calls it appended to `out` are
/// exactly those of its specification `po` (also on failure: calls issued
/// before the first violation stay issued), it succeeds exactly when the
/// specification has no violation, and a returned error has the specified
/// kind.
pub open spec fn parse_post(
    old_calls: Seq<BuilderCall>,
    new_calls: Seq<BuilderCall>,
    r: Result<(), Error>,
    po: ParseOut,
) -> bool {
    &&& calls_view(new_calls) == calls_view(old_calls) + po.calls
    &&& match r {
        Ok(_) => po.err is None,
        Err(e) => po.err == Some(e.kind()),
    }
}

/// Folding a successful step into the prefix of a sequential composition.
pub proof fn lemma_step(emitted: Seq<CallV>, item: ParseOut, rest: ParseOut)
    requires
        item.err is None,
    ensures
        seq_then(po_prefix(emitted), seq_then(item, rest)) == seq_then(
            po_prefix(emitted + item.calls),
            rest,
        ),
{
    assert((emitted + item.calls) + rest.calls =~= emitted + (item.calls + rest.calls));
    assert(seq_then(po_prefix(emitted), seq_then(item, rest)) =~= seq_then(
        po_prefix(emitted + item.calls),
        rest,
    ));
}

/// A failing step ends a sequential composition: what follows is dropped.
pub proof fn lemma_stop(emitted: Seq<CallV>, item: ParseOut, rest: ParseOut)
    requires
        item.err is Some,
    ensures
        seq_then(po_prefix(emitted), seq_then(item, rest)) == po_make(emitted + item.calls, item.err),
{
    assert(seq_then(po_prefix(emitted), seq_then(item, rest)) =~= po_make(emitted + item.calls, item.err));
}

/// An exhausted sequential composition is just its prefix.
pub proof fn lemma_done(emitted: Seq<CallV>, rest: ParseOut)
    requires
        rest.calls == Seq::<CallV>::empty(),
        rest.err is None,
    ensures
        seq_then(po_prefix(emitted), rest) == po_prefix(emitted),
{
    assert(seq_then(po_prefix(emitted), rest) =~= po_prefix(emitted));
}

/// Sequential composition is associative.
pub proof fn lemma_then_assoc(a: ParseOut, b: ParseOut, c: ParseOut)
    ensures
        seq_then(seq_then(a, b), c) == seq_then(a, seq_then(b, c)),
{
    assert((a.calls + b.calls) + c.calls =~= a.calls + (b.calls + c.calls));
    assert(seq_then(seq_then(a, b), c) =~= seq_then(a, seq_then(b, c)));
}

/// The empty outcome is a left identity of sequential composition.
pub proof fn lemma_then_empty(x: ParseOut)
    ensures
        seq_then(po_empty(), x) == x,
{
    assert(Seq::<CallV>::empty() + x.calls =~= x.calls);
    assert(seq_then(po_empty(), x) =~= x);
}

fn invalid_type(msg: &str) -> (e: Error)
    ensures
        e.kind() == ErrKind::InvalidType,
{
    Error::InvalidType(msg.to_owned())
}

fn invalid_format(msg: &str) -> (e: Error)
    ensures
        e.kind() == ErrKind::InvalidFormat,
{
    Error::InvalidFormat(msg.to_owned())
}

/// ASCII lower-casing of one character.
fn lower_char_exec(c: char) -> (r: char)
    ensures
        r == lower_char(c),
{
    let b: u32 = c as u32;
    if 65 <= b && b <= 90 {
        ((b + 32) as u8) as char
    } else {
        c
    }
}

/// Case-insensitive string comparison by characters.
fn lower_eq(s: &str, t: &str) -> (r: bool)
    ensures
        r == crate::model::ci_equal(s@, t@),
{
    let ns = s.unicode_len();
    let nt = t.unicode_len();
    if ns != nt {
        proof {
            assert(lower(s@).len() != lower(t@).len());
        }
        return false;
    }
    let mut i: usize = 0;
    while i < ns
        invariant
            i <= ns,
            ns == s@.len(),
            nt == t@.len(),
            ns == nt,
            forall|j: int| 0 <= j < i ==> lower_char(s@[j]) == lower_char(t@[j]),
        decreases ns - i,
    {
        let cs = lower_char_exec(s.get_char(i));
        let ct = lower_char_exec(t.get_char(i));
        if cs as u32 != ct as u32 {
            proof {
                assert(lower(s@)[i as int] != lower(t@)[i as int]);
            }
            return false;
        }
        i = i + 1;
    }
    proof {
        assert(lower(s@) =~= lower(t@));
    }
    true
}

/// The access level a string selects, if any: exactly `const`, `local` and
/// `global` take effect, compared case-insensitively; any other string is
/// accepted and selects none.
pub fn access_of(s: &str) -> (r: Option<Access>)
    ensures
        r == access_of_spec(s@),
{
    if lower_eq(s, "const") {
        Some(Access::Const)
    } else if lower_eq(s, "local") {
        Some(Access::Local)
    } else if lower_eq(s, "global") {
        Some(Access::Global)
    } else {
        None
    }
}

/// Parses one bus declaration: an optional `baudrate`, which must be a
/// non-negative integer, becomes one set-baudrate call; its absence emits
/// nothing; any other shape is an invalid-type failure.
pub fn parse_bus(bus_map: &DocValue, out: &mut Vec<BuilderCall>) -> (r: Result<(), Error>)
    ensures
        parse_post(old(out)@, final(out)@, r, bus_out(*bus_map)),
{
    proof {
        assert(calls_view(out@) + Seq::<CallV>::empty() =~= calls_view(out@));
    }
    let m = match bus_map {
        DocValue::Mapping(m) => m,
        _ => {
            return Err(invalid_type("bus must be described by a map"));
        },
    };
    match doc_get(m, "baudrate") {
        None => Ok(()),
        Some(DocValue::Int(b)) => {
            if *b < 0 {
                Err(invalid_type("baudrate must be a non-negative integer"))
            } else {
                let ghost base = calls_view(out@);
                emit(out, BuilderCall::SetBusBaudrate(*b as u64));
                proof {
                    assert(calls_view(out@) =~= base + bus_out(*bus_map).calls);
                }
                Ok(())
            }
        },
        Some(_) => Err(invalid_type("baudrate must be an integer")),
    }
}

/// Parses one struct type declaration: every pair of the mapping must be a
/// string attribute name and a string type name, and becomes one
/// add-attribute call, in document order.
pub fn parse_struct_type(struct_map: &DocValue, out: &mut Vec<BuilderCall>) -> (r: Result<
    (),
    Error,
>)
    ensures
        parse_post(old(out)@, final(out)@, r, struct_type_out(*struct_map)),
{
    proof {
        assert(calls_view(out@) + Seq::<CallV>::empty() =~= calls_view(out@));
    }
    let m = match struct_map {
        DocValue::Mapping(m) => m,
        _ => {
            return Err(invalid_type("structs have to be given as a map of attributes"));
        },
    };
    let ghost total = struct_attrs_out(m@);
    let ghost base = calls_view(out@);
    let ghost mut emitted: Seq<CallV> = Seq::empty();
    proof {
        assert(m@.skip(0) =~= m@);
        assert(Seq::<CallV>::empty() + total.calls =~= total.calls);
        assert(seq_then(po_prefix(emitted), struct_attrs_out(m@.skip(0)))
            =~= total);
    }
    let n = m.len();
    let mut i: usize = 0;
    while i < n
        invariant
            n == m@.len(),
            i <= n,
            total == struct_attrs_out(m@),
            struct_type_out(*struct_map) == total,
            calls_view(out@) == base + emitted,
            seq_then(po_prefix(emitted), struct_attrs_out(m@.skip(i as int)))
                == total,
            calls_view(old(out)@) == base,
        decreases n - i,
    {
        let ghost rest = struct_attrs_out(m@.skip(i as int));
        proof {
            assert(m@.skip(i as int)[0] == m@[i as int]);
            assert(m@.skip(i as int).drop_first() =~= m@.skip(i as int + 1));
        }
        let p = &m[i];
        match (&p.0, &p.1) {
            (DocValue::Str(an), DocValue::Str(at)) => {
                let c = BuilderCall::AddStructAttribute(an.clone(), at.clone());
                proof {
                    lemma_step(
                        emitted,
                        crate::model::struct_attr_out(m@[i as int]),
                        struct_attrs_out(m@.skip(i as int + 1)),
                    );
                    emitted = emitted + seq![c@];
                    assert(base + (emitted.drop_last()) + seq![c@] =~= base + emitted);
                }
                let ghost before = calls_view(out@);
                emit(out, c);
                proof {
                    assert(calls_view(out@) =~= base + emitted);
                }
            },
            _ => {
                proof {
                    lemma_stop(
                        emitted,
                        crate::model::struct_attr_out(m@[i as int]),
                        struct_attrs_out(m@.skip(i as int + 1)),
                    );
                    assert(emitted + Seq::<CallV>::empty() =~= emitted);
                }
                return Err(
                    invalid_type("struct attributes and their types have to be strings"),
                );
            },
        }
        i = i + 1;
    }
    proof {
        assert(m@.skip(n as int).len() == 0);
        lemma_done(emitted, struct_attrs_out(m@.skip(n as int)));
    }
    Ok(())
}

/// Parses one enum type declaration: every pair of the mapping must be a
/// string variant name with either a non-negative integer value or the null
/// scalar (auto-assignment), and becomes one add-variant call, in document
/// order.
pub fn parse_enum_type(enum_map: &DocValue, out: &mut Vec<BuilderCall>) -> (r: Result<(), Error>)
    ensures
        parse_post(old(out)@, final(out)@, r, enum_type_out(*enum_map)),
{
    proof {
        assert(calls_view(out@) + Seq::<CallV>::empty() =~= calls_view(out@));
    }
    let m = match enum_map {
        DocValue::Mapping(m) => m,
        _ => {
            return Err(invalid_type("enums have to be given as a map of variants"));
        },
    };
    let ghost total = enum_variants_out(m@);
    let ghost base = calls_view(out@);
    let ghost mut emitted: Seq<CallV> = Seq::empty();
    proof {
        assert(m@.skip(0) =~= m@);
        assert(Seq::<CallV>::empty() + total.calls =~= total.calls);
        assert(seq_then(po_prefix(emitted), enum_variants_out(m@.skip(0)))
            =~= total);
    }
    let n = m.len();
    let mut i: usize = 0;
    while i < n
        invariant
            n == m@.len(),
            i <= n,
            total == enum_variants_out(m@),
            enum_type_out(*enum_map) == total,
            calls_view(out@) == base + emitted,
            seq_then(po_prefix(emitted), enum_variants_out(m@.skip(i as int)))
                == total,
            calls_view(old(out)@) == base,
        decreases n - i,
    {
        proof {
            assert(m@.skip(i as int)[0] == m@[i as int]);
            assert(m@.skip(i as int).drop_first() =~= m@.skip(i as int + 1));
        }
        let p = &m[i];
        let variant_name = match &p.0 {
            DocValue::Str(vn) => vn,
            _ => {
                proof {
                    lemma_stop(
                        emitted,
                        crate::model::enum_variant_out(m@[i as int]),
                        enum_variants_out(m@.skip(i as int + 1)),
                    );
                    assert(emitted + Seq::<CallV>::empty() =~= emitted);
                }
                return Err(invalid_type("enum variant names must be strings"));
            },
        };
        let value: Option<u64> = match &p.1 {
            DocValue::Int(v) => {
                if *v < 0 {
                    proof {
                        lemma_stop(
                            emitted,
                            crate::model::enum_variant_out(m@[i as int]),
                            enum_variants_out(m@.skip(i as int + 1)),
                        );
                        assert(emitted + Seq::<CallV>::empty() =~= emitted);
                    }
                    return Err(invalid_type("enum values must be non-negative"));
                }
                Some(*v as u64)
            },
            DocValue::Null => None,
            _ => {
                proof {
                    lemma_stop(
                        emitted,
                        crate::model::enum_variant_out(m@[i as int]),
                        enum_variants_out(m@.skip(i as int + 1)),
                    );
                    assert(emitted + Seq::<CallV>::empty() =~= emitted);
                }
                return Err(
                    invalid_type("enum values must be non-negative integers or the null scalar"),
                );
            },
        };
        let c = BuilderCall::AddEnumVariant(variant_name.clone(), value);
        proof {
            lemma_step(
                emitted,
                crate::model::enum_variant_out(m@[i as int]),
                enum_variants_out(m@.skip(i as int + 1)),
            );
            emitted = emitted + seq![c@];
        }
        emit(out, c);
        proof {
            assert(calls_view(out@) =~= base + emitted);
        }
        i = i + 1;
    }
    proof {
        assert(m@.skip(n as int).len() == 0);
        lemma_done(emitted, enum_variants_out(m@.skip(n as int)));
    }
    Ok(())
}

/// Parses one object entry declaration named `oe_name`: the required `type`
/// field yields the create call; the optional `description`, `unit` and
/// `access` fields follow, in that order.  An unrecognized access string is
/// accepted and sets no access level.
pub fn parse_object_entry(oe_name: &str, oe_map: &DocValue, out: &mut Vec<BuilderCall>) -> (r:
    Result<(), Error>)
    ensures
        parse_post(old(out)@, final(out)@, r, object_entry_out(oe_name@, *oe_map)),
{
    let ghost po = object_entry_out(oe_name@, *oe_map);
    let ghost base = calls_view(out@);
    let m = match oe_map {
        DocValue::Mapping(m) => m,
        _ => {
            proof {
                assert(calls_view(out@) =~= base + po.calls);
            }
            return Err(invalid_type("object entries have to be defined by maps"));
        },
    };
    let ty_name = match doc_get(m, "type") {
        Some(DocValue::Str(t)) => t,
        _ => {
            proof {
                assert(calls_view(out@) =~= base + po.calls);
            }
            return Err(invalid_type("types have to be defined as strings by their name"));
        },
    };
    emit(out, BuilderCall::CreateObjectEntry(oe_name.to_owned(), ty_name.clone()));
    match doc_get(m, "description") {
        None => {},
        Some(DocValue::Str(d)) => {
            emit(out, BuilderCall::SetObjectEntryDescription(d.clone()));
        },
        Some(_) => {
            proof {
                assert(calls_view(out@) =~= base + po.calls);
            }
            return Err(invalid_type("descriptions have to be defined as strings"));
        },
    }
    match doc_get(m, "unit") {
        None => {},
        Some(DocValue::Str(u)) => {
            emit(out, BuilderCall::SetObjectEntryUnit(u.clone()));
        },
        Some(_) => {
            proof {
                assert(calls_view(out@) =~= base + po.calls);
            }
            return Err(invalid_type("unit has to be defined as a string"));
        },
    }
    match doc_get(m, "access") {
        None => {},
        Some(DocValue::Str(a)) => {
            match access_of(a.as_str()) {
                Some(level) => {
                    emit(out, BuilderCall::SetObjectEntryAccess(level));
                },
                None => {},
            }
        },
        Some(_) => {
            proof {
                assert(calls_view(out@) =~= base + po.calls);
            }
            return Err(invalid_type("access has to be defined as a string"));
        },
    }
    proof {
        assert(calls_view(out@) =~= base + po.calls);
    }
    Ok(())
}

/// Parses one transmit stream declaration named `stream_name`: the stream is
/// created first, also when the body turns out malformed; the optional
/// `description` and the optional ordered `mapping` of object entry names
/// follow.
pub fn parse_tx_stream(stream_name: &str, stream_def: &DocValue, out: &mut Vec<BuilderCall>) -> (r:
    Result<(), Error>)
    ensures
        parse_post(old(out)@, final(out)@, r, tx_stream_out(stream_name@, *stream_def)),
{
    let ghost po = tx_stream_out(stream_name@, *stream_def);
    let ghost base = calls_view(out@);
    let ghost mut emitted: Seq<CallV> = Seq::empty();
    emit(out, BuilderCall::CreateStream(stream_name.to_owned()));
    proof {
        emitted = emitted + seq![CallV::CreateStream(stream_name@)];
        assert(calls_view(out@) =~= base + emitted);
    }
    let m = match stream_def {
        DocValue::Mapping(m) => m,
        _ => {
            proof {
                assert(calls_view(out@) =~= base + po.calls);
            }
            return Err(invalid_type("streams have to be defined as maps"));
        },
    };
    match doc_get(m, "description") {
        None => {},
        Some(DocValue::Str(d)) => {
            let c = BuilderCall::SetStreamDescription(d.clone());
            proof {
                emitted = emitted + seq![c@];
            }
            emit(out, c);
            proof {
                assert(calls_view(out@) =~= base + emitted);
            }
        },
        Some(_) => {
            proof {
                assert(calls_view(out@) =~= base + po.calls);
            }
            return Err(invalid_type("description has to be a string"));
        },
    }
    let items = match doc_get(m, "mapping") {
        None => {
            proof {
                assert(calls_view(out@) =~= base + po.calls);
            }
            return Ok(());
        },
        Some(DocValue::Sequence(items)) => items,
        Some(_) => {
            proof {
                assert(calls_view(out@) =~= base + po.calls);
            }
            return Err(invalid_type("stream mappings have to be arrays"));
        },
    };
    let ghost total = po;
    proof {
        assert(items@.skip(0) =~= items@);
        assert(seq_then(po_prefix(emitted), stream_entries_out(items@.skip(0))) =~= total);
    }
    let n = items.len();
    let mut i: usize = 0;
    while i < n
        invariant
            n == items@.len(),
            i <= n,
            total == tx_stream_out(stream_name@, *stream_def),
            calls_view(out@) == base + emitted,
            seq_then(po_prefix(emitted), stream_entries_out(items@.skip(i as int))) == total,
            calls_view(old(out)@) == base,
        decreases n - i,
    {
        proof {
            assert(items@.skip(i as int)[0] == items@[i as int]);
            assert(items@.skip(i as int).drop_first() =~= items@.skip(i as int + 1));
        }
        match &items[i] {
            DocValue::Str(oe_name) => {
                let c = BuilderCall::AddStreamEntry(oe_name.clone());
                proof {
                    lemma_step(
                        emitted,
                        po_one(CallV::AddStreamEntry(oe_name@)),
                        stream_entries_out(items@.skip(i as int + 1)),
                    );
                    emitted = emitted + seq![c@];
                }
                emit(out, c);
                proof {
                    assert(calls_view(out@) =~= base + emitted);
                }
            },
            _ => {
                proof {
                    lemma_stop(
                        emitted,
                        po_fail(ErrKind::InvalidType),
                        stream_entries_out(items@.skip(i as int + 1)),
                    );
                    assert(emitted + Seq::<CallV>::empty() =~= emitted);
                }
                return Err(
                    invalid_type("stream mapping entries have to be names of object entries"),
                );
            },
        }
        i = i + 1;
    }
    proof {
        assert(items@.skip(n as int).len() == 0);
        lemma_done(emitted, stream_entries_out(items@.skip(n as int)));
    }
    Ok(())
}

/// Parses one receive stream declaration: the binding of `stream_name` from
/// the sending node `node_name` is registered first; the body must be a
/// mapping of transmitter-side to receiver-side object entry names, each
/// pair becoming one field-mapping call.
pub fn parse_rx_stream(
    node_name: &str,
    stream_name: &str,
    stream_def: &DocValue,
    out: &mut Vec<BuilderCall>,
) -> (r: Result<(), Error>)
    ensures
        parse_post(old(out)@, final(out)@, r, rx_stream_out(node_name@, stream_name@, *stream_def)),
{
    let ghost po = rx_stream_out(node_name@, stream_name@, *stream_def);
    let ghost base = calls_view(out@);
    let ghost mut emitted: Seq<CallV> = Seq::empty();
    emit(out, BuilderCall::ReceiveStream(node_name.to_owned(), stream_name.to_owned()));
    proof {
        emitted = emitted + seq![CallV::ReceiveStream(node_name@, stream_name@)];
        assert(calls_view(out@) =~= base + emitted);
    }
    let m = match stream_def {
        DocValue::Mapping(m) => m,
        _ => {
            proof {
                assert(calls_view(out@) =~= base + po.calls);
            }
            return Err(invalid_type("rx streams have to be defined as maps of entries"));
        },
    };
    let ghost total = po;
    proof {
        assert(m@.skip(0) =~= m@);
        assert(seq_then(po_prefix(emitted), rx_fields_out(m@.skip(0))) =~= total);
    }
    let n = m.len();
    let mut i: usize = 0;
    while i < n
        invariant
            n == m@.len(),
            i <= n,
            total == rx_stream_out(node_name@, stream_name@, *stream_def),
            calls_view(out@) == base + emitted,
            seq_then(po_prefix(emitted), rx_fields_out(m@.skip(i as int))) == total,
            calls_view(old(out)@) == base,
        decreases n - i,
    {
        proof {
            assert(m@.skip(i as int)[0] == m@[i as int]);
            assert(m@.skip(i as int).drop_first() =~= m@.skip(i as int + 1));
        }
        let p = &m[i];
        match (&p.0, &p.1) {
            (DocValue::Str(tx_name), DocValue::Str(rx_name)) => {
                let c = BuilderCall::MapStreamField(tx_name.clone(), rx_name.clone());
                proof {
                    lemma_step(
                        emitted,
                        crate::model::rx_field_out(m@[i as int]),
                        rx_fields_out(m@.skip(i as int + 1)),
                    );
                    emitted = emitted + seq![c@];
                }
                emit(out, c);
                proof {
                    assert(calls_view(out@) =~= base + emitted);
                }
            },
            _ => {
                proof {
                    lemma_stop(
                        emitted,
                        crate::model::rx_field_out(m@[i as int]),
                        rx_fields_out(m@.skip(i as int + 1)),
                    );
                    assert(emitted + Seq::<CallV>::empty() =~= emitted);
                }
                return Err(
                    invalid_type(
                        "object entries have to be referred to by name in rx stream definitions",
                    ),
                );
            },
        }
        i = i + 1;
    }
    proof {
        assert(m@.skip(n as int).len() == 0);
        lemma_done(emitted, rx_fields_out(m@.skip(n as int)));
    }
    Ok(())
}


/// Parses one command declaration named `command_name`: the command is
/// created first; then the optional `description`, the optional `arguments`
/// sequence (each element a single-pair mapping of argument name to type
/// name) and the optional `callee` sequence of node names follow, in that
/// order.
pub fn parse_tx_command(command_name: &str, command_map: &DocValue, out: &mut Vec<BuilderCall>)
    -> (r: Result<(), Error>)
    ensures
        parse_post(old(out)@, final(out)@, r, command_out(command_name@, *command_map)),
{
    let ghost po = command_out(command_name@, *command_map);
    let ghost base = calls_view(out@);
    let ghost mut emitted: Seq<CallV> = Seq::empty();
    emit(out, BuilderCall::CreateCommand(command_name.to_owned()));
    proof {
        emitted = emitted + seq![CallV::CreateCommand(command_name@)];
        assert(calls_view(out@) =~= base + emitted);
    }
    let m = match command_map {
        DocValue::Mapping(m) => m,
        _ => {
            proof {
                assert(calls_view(out@) =~= base + po.calls);
            }
            return Err(invalid_type("commands have to be defined as maps"));
        },
    };
    match doc_get(m, "description") {
        None => {},
        Some(DocValue::Str(d)) => {
            let c = BuilderCall::SetCommandDescription(d.clone());
            proof {
                emitted = emitted + seq![c@];
            }
            emit(out, c);
            proof {
                assert(calls_view(out@) =~= base + emitted);
            }
        },
        Some(_) => {
            proof {
                assert(calls_view(out@) =~= base + po.calls);
            }
            return Err(invalid_type("description has to be a string"));
        },
    }
    proof {
        assert(seq_then(
            po_prefix(emitted),
            seq_then(command_args_part(m@), command_callees_part(m@)),
        ) =~= po);
    }
    match doc_get(m, "arguments") {
        None => {
            proof {
                lemma_then_empty(command_callees_part(m@));
                assert(seq_then(po_prefix(emitted), command_callees_part(m@)) == po);
            }
        },
        Some(DocValue::Sequence(args)) => {
            let ghost rest_po = command_callees_part(m@);
            proof {
                assert(args@.skip(0) =~= args@);
            }
            let n = args.len();
            let mut i: usize = 0;
            while i < n
                invariant
                    n == args@.len(),
                    i <= n,
                    po == command_out(command_name@, *command_map),
                    calls_view(out@) == base + emitted,
                    seq_then(
                        po_prefix(emitted),
                        seq_then(command_args_out(args@.skip(i as int)), rest_po),
                    ) == po,
                    calls_view(old(out)@) == base,
                decreases n - i,
            {
                proof {
                    assert(args@.skip(i as int)[0] == args@[i as int]);
                    assert(args@.skip(i as int).drop_first() =~= args@.skip(i as int + 1));
                    lemma_then_assoc(
                        command_arg_out(args@[i as int]),
                        command_args_out(args@.skip(i as int + 1)),
                        rest_po,
                    );
                }
                let ghost item = command_arg_out(args@[i as int]);
                let ghost rest = seq_then(command_args_out(args@.skip(i as int + 1)), rest_po);
                let arg_ok: Option<(&String, &String)> = match &args[i] {
                    DocValue::Mapping(am) => {
                        if am.len() == 1 {
                            let pair = &am[0];
                            match (&pair.0, &pair.1) {
                                (DocValue::Str(an), DocValue::Str(at)) => Some((an, at)),
                                _ => None,
                            }
                        } else {
                            None
                        }
                    },
                    _ => None,
                };
                match arg_ok {
                    Some((an, at)) => {
                        let c = BuilderCall::AddCommandArgument(an.clone(), at.clone());
                        proof {
                            lemma_step(emitted, item, rest);
                            emitted = emitted + seq![c@];
                        }
                        emit(out, c);
                        proof {
                            assert(calls_view(out@) =~= base + emitted);
                        }
                    },
                    None => {
                        proof {
                            lemma_stop(emitted, item, rest);
                            assert(emitted + Seq::<CallV>::empty() =~= emitted);
                        }
                        return Err(
                            invalid_type("command arguments have to be single name-to-type pairs"),
                        );
                    },
                }
                i = i + 1;
            }
            proof {
                assert(args@.skip(n as int).len() == 0);
                lemma_then_empty(rest_po);
                assert(seq_then(po_prefix(emitted), rest_po) == po);
            }
        },
        Some(_) => {
            proof {
                lemma_stop(emitted, command_args_part(m@), command_callees_part(m@));
                assert(emitted + Seq::<CallV>::empty() =~= emitted);
                assert(calls_view(out@) =~= base + po.calls);
            }
            return Err(invalid_type("the argument list of a command has to be an array"));
        },
    }
    match doc_get(m, "callee") {
        None => {
            proof {
                lemma_done(emitted, command_callees_part(m@));
                assert(calls_view(out@) =~= base + po.calls);
            }
            Ok(())
        },
        Some(DocValue::Sequence(callees)) => {
            proof {
                assert(callees@.skip(0) =~= callees@);
            }
            let n = callees.len();
            let mut i: usize = 0;
            while i < n
                invariant
                    n == callees@.len(),
                    i <= n,
                    po == command_out(command_name@, *command_map),
                    calls_view(out@) == base + emitted,
                    seq_then(po_prefix(emitted), command_callees_out(callees@.skip(i as int)))
                        == po,
                    calls_view(old(out)@) == base,
                decreases n - i,
            {
                proof {
                    assert(callees@.skip(i as int)[0] == callees@[i as int]);
                    assert(callees@.skip(i as int).drop_first() =~= callees@.skip(i as int + 1));
                }
                match &callees[i] {
                    DocValue::Str(callee_name) => {
                        let c = BuilderCall::AddCommandCallee(callee_name.clone());
                        proof {
                            lemma_step(
                                emitted,
                                po_one(CallV::AddCommandCallee(callee_name@)),
                                command_callees_out(callees@.skip(i as int + 1)),
                            );
                            emitted = emitted + seq![c@];
                        }
                        emit(out, c);
                        proof {
                            assert(calls_view(out@) =~= base + emitted);
                        }
                    },
                    _ => {
                        proof {
                            lemma_stop(
                                emitted,
                                po_fail(ErrKind::InvalidType),
                                command_callees_out(callees@.skip(i as int + 1)),
                            );
                            assert(emitted + Seq::<CallV>::empty() =~= emitted);
                        }
                        return Err(invalid_type("callees have to be referred to by name"));
                    },
                }
                i = i + 1;
            }
            proof {
                assert(callees@.skip(n as int).len() == 0);
                lemma_done(emitted, command_callees_out(callees@.skip(n as int)));
                assert(calls_view(out@) =~= base + po.calls);
            }
            Ok(())
        },
        Some(_) => {
            proof {
                assert(emitted + Seq::<CallV>::empty() =~= emitted);
                assert(calls_view(out@) =~= base + po.calls);
            }
            Err(invalid_type("the callee list of a command has to be an array"))
        },
    }
}

/// Parses one node declaration named `node_name`: the node is created
/// first; then the optional `description`, `object_dictionary`,
/// `tx_streams`, `rx_streams` (a mapping of sender names to mappings of
/// received streams) and `commands` sections follow, in that order.
/// Absence of any section is legal: an empty node is a valid node.
pub fn parse_node(node_name: &str, node_map: &DocValue, out: &mut Vec<BuilderCall>) -> (r: Result<
    (),
    Error,
>)
    ensures
        parse_post(old(out)@, final(out)@, r, node_out(node_name@, *node_map)),
{
    let ghost po = node_out(node_name@, *node_map);
    let ghost base = calls_view(out@);
    let ghost mut emitted: Seq<CallV> = Seq::empty();
    emit(out, BuilderCall::CreateNode(node_name.to_owned()));
    proof {
        emitted = emitted + seq![CallV::CreateNode(node_name@)];
        assert(calls_view(out@) =~= base + emitted);
    }
    let m = match node_map {
        DocValue::Mapping(m) => m,
        _ => {
            proof {
                assert(calls_view(out@) =~= base + po.calls);
            }
            return Err(invalid_type("nodes have to be defined as maps"));
        },
    };
    match doc_get(m, "description") {
        None => {},
        Some(DocValue::Str(d)) => {
            let c = BuilderCall::SetNodeDescription(d.clone());
            proof {
                emitted = emitted + seq![c@];
            }
            emit(out, c);
            proof {
                assert(calls_view(out@) =~= base + emitted);
            }
        },
        Some(_) => {
            proof {
                assert(calls_view(out@) =~= base + po.calls);
            }
            return Err(invalid_type("description has to be a string"));
        },
    }
    let ghost rest1 = seq_then(node_tx_part(m@), seq_then(node_rx_part(m@), node_cmds_part(m@)));
    proof {
        assert(seq_then(po_prefix(emitted), seq_then(node_od_part(m@), rest1)) =~= po);
    }
    match doc_get(m, "object_dictionary") {
        None => {
            proof {
                lemma_then_empty(rest1);
                assert(seq_then(po_prefix(emitted), rest1) == po);
            }
        },
        Some(DocValue::Mapping(od)) => {
            proof {
                assert(od@.skip(0) =~= od@);
            }
            let n = od.len();
            let mut i: usize = 0;
            while i < n
                invariant
                    n == od@.len(),
                    i <= n,
                    po == node_out(node_name@, *node_map),
                    calls_view(out@) == base + emitted,
                    seq_then(po_prefix(emitted), seq_then(od_items_out(od@.skip(i as int)), rest1))
                        == po,
                    calls_view(old(out)@) == base,
                decreases n - i,
            {
                proof {
                    assert(od@.skip(i as int)[0] == od@[i as int]);
                    assert(od@.skip(i as int).drop_first() =~= od@.skip(i as int + 1));
                }
                let ghost rest = seq_then(od_items_out(od@.skip(i as int + 1)), rest1);
                let p = &od[i];
                match &p.0 {
                    DocValue::Str(oe_name) => {
                        let ghost item = object_entry_out(oe_name@, od@[i as int].1);
                        proof {
                            lemma_then_assoc(
                                item,
                                od_items_out(od@.skip(i as int + 1)),
                                rest1,
                            );
                        }
                        match parse_object_entry(oe_name.as_str(), &p.1, out) {
                            Ok(_) => {
                                proof {
                                    lemma_step(emitted, item, rest);
                                    emitted = emitted + item.calls;
                                    assert(calls_view(out@) =~= base + emitted);
                                }
                            },
                            Err(e) => {
                                proof {
                                    lemma_stop(emitted, item, rest);
                                    assert(calls_view(out@) =~= base + (emitted + item.calls));
                                }
                                return Err(e);
                            },
                        }
                    },
                    _ => {
                        proof {
                            lemma_then_assoc(
                                po_fail(ErrKind::InvalidType),
                                od_items_out(od@.skip(i as int + 1)),
                                rest1,
                            );
                            lemma_stop(emitted, po_fail(ErrKind::InvalidType), rest);
                            assert(emitted + Seq::<CallV>::empty() =~= emitted);
                        }
                        return Err(invalid_type("the name of an object entry has to be a string"));
                    },
                }
                i = i + 1;
            }
            proof {
                assert(od@.skip(n as int).len() == 0);
                lemma_then_empty(rest1);
                assert(seq_then(po_prefix(emitted), rest1) == po);
            }
        },
        Some(_) => {
            proof {
                lemma_stop(emitted, node_od_part(m@), rest1);
                assert(emitted + Seq::<CallV>::empty() =~= emitted);
                assert(calls_view(out@) =~= base + po.calls);
            }
            return Err(invalid_type("object_dictionary has to be a map"));
        },
    }
    let ghost rest2 = seq_then(node_rx_part(m@), node_cmds_part(m@));
    match doc_get(m, "tx_streams") {
        None => {
            proof {
                lemma_then_empty(rest2);
                assert(seq_then(po_prefix(emitted), rest2) == po);
            }
        },
        Some(DocValue::Mapping(sm)) => {
            proof {
                assert(sm@.skip(0) =~= sm@);
            }
            let n = sm.len();
            let mut i: usize = 0;
            while i < n
                invariant
                    n == sm@.len(),
                    i <= n,
                    po == node_out(node_name@, *node_map),
                    calls_view(out@) == base + emitted,
                    seq_then(
                        po_prefix(emitted),
                        seq_then(tx_stream_items_out(sm@.skip(i as int)), rest2),
                    ) == po,
                    calls_view(old(out)@) == base,
                decreases n - i,
            {
                proof {
                    assert(sm@.skip(i as int)[0] == sm@[i as int]);
                    assert(sm@.skip(i as int).drop_first() =~= sm@.skip(i as int + 1));
                }
                let ghost rest = seq_then(tx_stream_items_out(sm@.skip(i as int + 1)), rest2);
                let p = &sm[i];
                match &p.0 {
                    DocValue::Str(stream_name) => {
                        let ghost item = tx_stream_out(stream_name@, sm@[i as int].1);
                        proof {
                            lemma_then_assoc(
                                item,
                                tx_stream_items_out(sm@.skip(i as int + 1)),
                                rest2,
                            );
                        }
                        match parse_tx_stream(stream_name.as_str(), &p.1, out) {
                            Ok(_) => {
                                proof {
                                    lemma_step(emitted, item, rest);
                                    emitted = emitted + item.calls;
                                    assert(calls_view(out@) =~= base + emitted);
                                }
                            },
                            Err(e) => {
                                proof {
                                    lemma_stop(emitted, item, rest);
                                    assert(calls_view(out@) =~= base + (emitted + item.calls));
                                }
                                return Err(e);
                            },
                        }
                    },
                    _ => {
                        proof {
                            lemma_then_assoc(
                                po_fail(ErrKind::InvalidType),
                                tx_stream_items_out(sm@.skip(i as int + 1)),
                                rest2,
                            );
                            lemma_stop(emitted, po_fail(ErrKind::InvalidType), rest);
                            assert(emitted + Seq::<CallV>::empty() =~= emitted);
                        }
                        return Err(invalid_type("the name of a stream has to be a string"));
                    },
                }
                i = i + 1;
            }
            proof {
                assert(sm@.skip(n as int).len() == 0);
                lemma_then_empty(rest2);
                assert(seq_then(po_prefix(emitted), rest2) == po);
            }
        },
        Some(_) => {
            proof {
                lemma_stop(emitted, node_tx_part(m@), rest2);
                assert(emitted + Seq::<CallV>::empty() =~= emitted);
                assert(calls_view(out@) =~= base + po.calls);
            }
            return Err(invalid_type("tx_streams have to be defined as maps"));
        },
    }
    let ghost rest3 = node_cmds_part(m@);
    match doc_get(m, "rx_streams") {
        None => {
            proof {
                lemma_then_empty(rest3);
                assert(seq_then(po_prefix(emitted), rest3) == po);
            }
        },
        Some(DocValue::Mapping(rx_map)) => {
            proof {
                assert(rx_map@.skip(0) =~= rx_map@);
            }
            let n = rx_map.len();
            let mut i: usize = 0;
            while i < n
                invariant
                    n == rx_map@.len(),
                    i <= n,
                    po == node_out(node_name@, *node_map),
                    calls_view(out@) == base + emitted,
                    seq_then(
                        po_prefix(emitted),
                        seq_then(rx_sender_items_out(rx_map@.skip(i as int)), rest3),
                    ) == po,
                    calls_view(old(out)@) == base,
                decreases n - i,
            {
                proof {
                    assert(rx_map@.skip(i as int)[0] == rx_map@[i as int]);
                    assert(rx_map@.skip(i as int).drop_first() =~= rx_map@.skip(i as int + 1));
                }
                let ghost resti = seq_then(rx_sender_items_out(rx_map@.skip(i as int + 1)), rest3);
                let p = &rx_map[i];
                let sender_name = match &p.0 {
                    DocValue::Str(s) => s,
                    _ => {
                        proof {
                            lemma_then_assoc(
                                po_fail(ErrKind::InvalidType),
                                rx_sender_items_out(rx_map@.skip(i as int + 1)),
                                rest3,
                            );
                            lemma_stop(emitted, po_fail(ErrKind::InvalidType), resti);
                            assert(emitted + Seq::<CallV>::empty() =~= emitted);
                        }
                        return Err(
                            invalid_type("rx_streams has to name its sending nodes as strings"),
                        );
                    },
                };
                let sm = match &p.1 {
                    DocValue::Mapping(sm) => sm,
                    _ => {
                        proof {
                            lemma_then_assoc(
                                po_fail(ErrKind::InvalidType),
                                rx_sender_items_out(rx_map@.skip(i as int + 1)),
                                rest3,
                            );
                            lemma_stop(emitted, po_fail(ErrKind::InvalidType), resti);
                            assert(emitted + Seq::<CallV>::empty() =~= emitted);
                        }
                        return Err(
                            invalid_type(
                                "rx_streams has to map each sending node to a map of its streams",
                            ),
                        );
                    },
                };
                proof {
                    lemma_then_assoc(
                        rx_sender_streams_out(sender_name@, sm@),
                        rx_sender_items_out(rx_map@.skip(i as int + 1)),
                        rest3,
                    );
                    assert(sm@.skip(0) =~= sm@);
                }
                let nj = sm.len();
                let mut j: usize = 0;
                while j < nj
                    invariant
                        nj == sm@.len(),
                        j <= nj,
                        po == node_out(node_name@, *node_map),
                        calls_view(out@) == base + emitted,
                        seq_then(
                            po_prefix(emitted),
                            seq_then(rx_sender_streams_out(sender_name@, sm@.skip(j as int)), resti),
                        ) == po,
                        calls_view(old(out)@) == base,
                    decreases nj - j,
                {
                    proof {
                        assert(sm@.skip(j as int)[0] == sm@[j as int]);
                        assert(sm@.skip(j as int).drop_first() =~= sm@.skip(j as int + 1));
                    }
                    let ghost restj = seq_then(
                        rx_sender_streams_out(sender_name@, sm@.skip(j as int + 1)),
                        resti,
                    );
                    let q = &sm[j];
                    match &q.0 {
                        DocValue::Str(stream_name) => {
                            let ghost item = rx_stream_out(
                                sender_name@,
                                stream_name@,
                                sm@[j as int].1,
                            );
                            proof {
                                lemma_then_assoc(
                                    item,
                                    rx_sender_streams_out(sender_name@, sm@.skip(j as int + 1)),
                                    resti,
                                );
                            }
                            match parse_rx_stream(
                                sender_name.as_str(),
                                stream_name.as_str(),
                                &q.1,
                                out,
                            ) {
                                Ok(_) => {
                                    proof {
                                        lemma_step(emitted, item, restj);
                                        emitted = emitted + item.calls;
                                        assert(calls_view(out@) =~= base + emitted);
                                    }
                                },
                                Err(e) => {
                                    proof {
                                        lemma_stop(emitted, item, restj);
                                        assert(calls_view(out@) =~= base + (emitted + item.calls));
                                    }
                                    return Err(e);
                                },
                            }
                        },
                        _ => {
                            proof {
                                lemma_then_assoc(
                                    po_fail(ErrKind::InvalidType),
                                    rx_sender_streams_out(sender_name@, sm@.skip(j as int + 1)),
                                    resti,
                                );
                                lemma_stop(emitted, po_fail(ErrKind::InvalidType), restj);
                                assert(emitted + Seq::<CallV>::empty() =~= emitted);
                            }
                            return Err(invalid_type("stream names have to be strings"));
                        },
                    }
                    j = j + 1;
                }
                proof {
                    assert(sm@.skip(nj as int).len() == 0);
                    lemma_then_empty(resti);
                    assert(seq_then(po_prefix(emitted), resti) == po);
                }
                i = i + 1;
            }
            proof {
                assert(rx_map@.skip(n as int).len() == 0);
                lemma_then_empty(rest3);
                assert(seq_then(po_prefix(emitted), rest3) == po);
            }
        },
        Some(_) => {
            proof {
                lemma_stop(emitted, node_rx_part(m@), rest3);
                assert(emitted + Seq::<CallV>::empty() =~= emitted);
                assert(calls_view(out@) =~= base + po.calls);
            }
            return Err(invalid_type("rx_streams have to be defined as maps"));
        },
    }
    match doc_get(m, "commands") {
        None => {
            proof {
                lemma_done(emitted, node_cmds_part(m@));
                assert(calls_view(out@) =~= base + po.calls);
            }
            Ok(())
        },
        Some(DocValue::Mapping(cm)) => {
            proof {
                assert(cm@.skip(0) =~= cm@);
            }
            let n = cm.len();
            let mut i: usize = 0;
            while i < n
                invariant
                    n == cm@.len(),
                    i <= n,
                    po == node_out(node_name@, *node_map),
                    calls_view(out@) == base + emitted,
                    seq_then(po_prefix(emitted), command_items_out(cm@.skip(i as int))) == po,
                    calls_view(old(out)@) == base,
                decreases n - i,
            {
                proof {
                    assert(cm@.skip(i as int)[0] == cm@[i as int]);
                    assert(cm@.skip(i as int).drop_first() =~= cm@.skip(i as int + 1));
                }
                let ghost rest = command_items_out(cm@.skip(i as int + 1));
                let p = &cm[i];
                match &p.0 {
                    DocValue::Str(command_name) => {
                        let ghost item = command_out(command_name@, cm@[i as int].1);
                        match parse_tx_command(command_name.as_str(), &p.1, out) {
                            Ok(_) => {
                                proof {
                                    lemma_step(emitted, item, rest);
                                    emitted = emitted + item.calls;
                                    assert(calls_view(out@) =~= base + emitted);
                                }
                            },
                            Err(e) => {
                                proof {
                                    lemma_stop(emitted, item, rest);
                                    assert(calls_view(out@) =~= base + (emitted + item.calls));
                                }
                                return Err(e);
                            },
                        }
                    },
                    _ => {
                        proof {
                            lemma_stop(emitted, po_fail(ErrKind::InvalidType), rest);
                            assert(emitted + Seq::<CallV>::empty() =~= emitted);
                        }
                        return Err(invalid_type("the name of a command has to be a string"));
                    },
                }
                i = i + 1;
            }
            proof {
                assert(cm@.skip(n as int).len() == 0);
                lemma_done(emitted, command_items_out(cm@.skip(n as int)));
                assert(calls_view(out@) =~= base + po.calls);
            }
            Ok(())
        },
        Some(_) => {
            proof {
                assert(emitted + Seq::<CallV>::empty() =~= emitted);
                assert(calls_view(out@) =~= base + po.calls);
            }
            Err(invalid_type("command lists have to be defined as maps"))
        },
    }
}

/// Parses a whole network declaration: the document root must be a mapping
/// (else the failure is a whole-document invalid-format error); the four
/// required sections `nodes`, `struct_types`, `enum_types` and `buses` must
/// each be mappings and are processed in that fixed order, each entry
/// dispatched to its parser with the entity's name taken from its key.  The
/// first violation at any depth aborts the whole parse; builder calls
/// emitted before it stay emitted.
pub fn parse_top_level(doc_root: &DocValue, out: &mut Vec<BuilderCall>) -> (r: Result<(), Error>)
    ensures
        parse_post(old(out)@, final(out)@, r, top_level_out(*doc_root)),
{
    let ghost po = top_level_out(*doc_root);
    let ghost base = calls_view(out@);
    let ghost mut emitted: Seq<CallV> = Seq::empty();
    proof {
        assert(calls_view(out@) + Seq::<CallV>::empty() =~= calls_view(out@));
    }
    let m = match doc_root {
        DocValue::Mapping(m) => m,
        _ => {
            return Err(invalid_format("the document root has to be a map"));
        },
    };
    let ghost rest1 = seq_then(
        structs_section_out(m@),
        seq_then(enums_section_out(m@), buses_section_out(m@)),
    );
    proof {
        assert(seq_then(po_prefix(emitted), seq_then(nodes_section_out(m@), rest1)) =~= po);
    }
    match doc_get(m, "nodes") {
        Some(DocValue::Mapping(nodes)) => {
            proof {
                assert(nodes@.skip(0) =~= nodes@);
            }
            let n = nodes.len();
            let mut i: usize = 0;
            while i < n
                invariant
                    n == nodes@.len(),
                    i <= n,
                    po == top_level_out(*doc_root),
                    calls_view(out@) == base + emitted,
                    seq_then(
                        po_prefix(emitted),
                        seq_then(top_nodes_out(nodes@.skip(i as int)), rest1),
                    ) == po,
                    calls_view(old(out)@) == base,
                decreases n - i,
            {
                proof {
                    assert(nodes@.skip(i as int)[0] == nodes@[i as int]);
                    assert(nodes@.skip(i as int).drop_first() =~= nodes@.skip(i as int + 1));
                }
                let ghost rest = seq_then(top_nodes_out(nodes@.skip(i as int + 1)), rest1);
                let p = &nodes[i];
                match &p.0 {
                    DocValue::Str(node_name) => {
                        let ghost item = node_out(node_name@, nodes@[i as int].1);
                        proof {
                            lemma_then_assoc(
                                item,
                                top_nodes_out(nodes@.skip(i as int + 1)),
                                rest1,
                            );
                        }
                        match parse_node(node_name.as_str(), &p.1, out) {
                            Ok(_) => {
                                proof {
                                    lemma_step(emitted, item, rest);
                                    emitted = emitted + item.calls;
                                    assert(calls_view(out@) =~= base + emitted);
                                }
                            },
                            Err(e) => {
                                proof {
                                    lemma_stop(emitted, item, rest);
                                    assert(calls_view(out@) =~= base + (emitted + item.calls));
                                }
                                return Err(e);
                            },
                        }
                    },
                    _ => {
                        proof {
                            lemma_then_assoc(
                                po_fail(ErrKind::InvalidType),
                                top_nodes_out(nodes@.skip(i as int + 1)),
                                rest1,
                            );
                            lemma_stop(emitted, po_fail(ErrKind::InvalidType), rest);
                            assert(emitted + Seq::<CallV>::empty() =~= emitted);
                        }
                        return Err(invalid_type("the name of a node has to be a string"));
                    },
                }
                i = i + 1;
            }
            proof {
                assert(nodes@.skip(n as int).len() == 0);
                lemma_then_empty(rest1);
                assert(seq_then(po_prefix(emitted), rest1) == po);
            }
        },
        _ => {
            proof {
                lemma_stop(
                    emitted,
                    nodes_section_out(m@),
                    rest1,
                );
                assert(emitted + Seq::<CallV>::empty() =~= emitted);
                assert(calls_view(out@) =~= base + po.calls);
            }
            return Err(invalid_type("nodes have to be defined as a map"));
        },
    }
    let ghost rest2 = seq_then(enums_section_out(m@), buses_section_out(m@));
    match doc_get(m, "struct_types") {
        Some(DocValue::Mapping(structs)) => {
            proof {
                assert(structs@.skip(0) =~= structs@);
            }
            let n = structs.len();
            let mut i: usize = 0;
            while i < n
                invariant
                    n == structs@.len(),
                    i <= n,
                    po == top_level_out(*doc_root),
                    calls_view(out@) == base + emitted,
                    seq_then(
                        po_prefix(emitted),
                        seq_then(top_structs_out(structs@.skip(i as int)), rest2),
                    ) == po,
                    calls_view(old(out)@) == base,
                decreases n - i,
            {
                proof {
                    assert(structs@.skip(i as int)[0] == structs@[i as int]);
                    assert(structs@.skip(i as int).drop_first() =~= structs@.skip(i as int + 1));
                }
                let ghost rest = seq_then(top_structs_out(structs@.skip(i as int + 1)), rest2);
                let p = &structs[i];
                match &p.0 {
                    DocValue::Str(struct_name) => {
                        let ghost item = seq_then(
                            po_one(CallV::DefineStruct(struct_name@)),
                            struct_type_out(structs@[i as int].1),
                        );
                        proof {
                            lemma_then_assoc(
                                item,
                                top_structs_out(structs@.skip(i as int + 1)),
                                rest2,
                            );
                        }
                        let ghost mid = emitted + seq![CallV::DefineStruct(struct_name@)];
                        emit(out, BuilderCall::DefineStruct(struct_name.clone()));
                        proof {
                            assert(calls_view(out@) =~= base + mid);
                        }
                        match parse_struct_type(&p.1, out) {
                            Ok(_) => {
                                proof {
                                    lemma_step(emitted, item, rest);
                                    emitted = emitted + item.calls;
                                    assert(calls_view(out@) =~= base + emitted);
                                }
                            },
                            Err(e) => {
                                proof {
                                    lemma_stop(emitted, item, rest);
                                    assert(calls_view(out@) =~= base + (emitted + item.calls));
                                }
                                return Err(e);
                            },
                        }
                    },
                    _ => {
                        proof {
                            lemma_then_assoc(
                                po_fail(ErrKind::InvalidType),
                                top_structs_out(structs@.skip(i as int + 1)),
                                rest2,
                            );
                            lemma_stop(emitted, po_fail(ErrKind::InvalidType), rest);
                            assert(emitted + Seq::<CallV>::empty() =~= emitted);
                        }
                        return Err(invalid_type("struct names must be primitive string keys"));
                    },
                }
                i = i + 1;
            }
            proof {
                assert(structs@.skip(n as int).len() == 0);
                lemma_then_empty(rest2);
                assert(seq_then(po_prefix(emitted), rest2) == po);
            }
        },
        _ => {
            proof {
                lemma_stop(emitted, structs_section_out(m@), rest2);
                assert(emitted + Seq::<CallV>::empty() =~= emitted);
                assert(calls_view(out@) =~= base + po.calls);
            }
            return Err(invalid_type("struct types must be given as a map"));
        },
    }
    let ghost rest3 = buses_section_out(m@);
    match doc_get(m, "enum_types") {
        Some(DocValue::Mapping(enums)) => {
            proof {
                assert(enums@.skip(0) =~= enums@);
            }
            let n = enums.len();
            let mut i: usize = 0;
            while i < n
                invariant
                    n == enums@.len(),
                    i <= n,
                    po == top_level_out(*doc_root),
                    calls_view(out@) == base + emitted,
                    seq_then(
                        po_prefix(emitted),
                        seq_then(top_enums_out(enums@.skip(i as int)), rest3),
                    ) == po,
                    calls_view(old(out)@) == base,
                decreases n - i,
            {
                proof {
                    assert(enums@.skip(i as int)[0] == enums@[i as int]);
                    assert(enums@.skip(i as int).drop_first() =~= enums@.skip(i as int + 1));
                }
                let ghost rest = seq_then(top_enums_out(enums@.skip(i as int + 1)), rest3);
                let p = &enums[i];
                match &p.0 {
                    DocValue::Str(enum_name) => {
                        let ghost item = seq_then(
                            po_one(CallV::DefineEnum(enum_name@)),
                            enum_type_out(enums@[i as int].1),
                        );
                        proof {
                            lemma_then_assoc(
                                item,
                                top_enums_out(enums@.skip(i as int + 1)),
                                rest3,
                            );
                        }
                        let ghost mid = emitted + seq![CallV::DefineEnum(enum_name@)];
                        emit(out, BuilderCall::DefineEnum(enum_name.clone()));
                        proof {
                            assert(calls_view(out@) =~= base + mid);
                        }
                        match parse_enum_type(&p.1, out) {
                            Ok(_) => {
                                proof {
                                    lemma_step(emitted, item, rest);
                                    emitted = emitted + item.calls;
                                    assert(calls_view(out@) =~= base + emitted);
                                }
                            },
                            Err(e) => {
                                proof {
                                    lemma_stop(emitted, item, rest);
                                    assert(calls_view(out@) =~= base + (emitted + item.calls));
                                }
                                return Err(e);
                            },
                        }
                    },
                    _ => {
                        proof {
                            lemma_then_assoc(
                                po_fail(ErrKind::InvalidType),
                                top_enums_out(enums@.skip(i as int + 1)),
                                rest3,
                            );
                            lemma_stop(emitted, po_fail(ErrKind::InvalidType), rest);
                            assert(emitted + Seq::<CallV>::empty() =~= emitted);
                        }
                        return Err(invalid_type("enum names must be primitive string keys"));
                    },
                }
                i = i + 1;
            }
            proof {
                assert(enums@.skip(n as int).len() == 0);
                lemma_then_empty(rest3);
                assert(seq_then(po_prefix(emitted), rest3) == po);
            }
        },
        _ => {
            proof {
                lemma_stop(emitted, enums_section_out(m@), rest3);
                assert(emitted + Seq::<CallV>::empty() =~= emitted);
                assert(calls_view(out@) =~= base + po.calls);
            }
            return Err(invalid_type("enum types must be given as a map"));
        },
    }
    match doc_get(m, "buses") {
        Some(DocValue::Mapping(buses)) => {
            proof {
                assert(buses@.skip(0) =~= buses@);
            }
            let n = buses.len();
            let mut i: usize = 0;
            while i < n
                invariant
                    n == buses@.len(),
                    i <= n,
                    po == top_level_out(*doc_root),
                    calls_view(out@) == base + emitted,
                    seq_then(po_prefix(emitted), top_buses_out(buses@.skip(i as int))) == po,
                    calls_view(old(out)@) == base,
                decreases n - i,
            {
                proof {
                    assert(buses@.skip(i as int)[0] == buses@[i as int]);
                    assert(buses@.skip(i as int).drop_first() =~= buses@.skip(i as int + 1));
                }
                let ghost rest = top_buses_out(buses@.skip(i as int + 1));
                let p = &buses[i];
                match &p.0 {
                    DocValue::Str(bus_name) => {
                        let ghost item = seq_then(
                            po_one(CallV::CreateBus(bus_name@)),
                            bus_out(buses@[i as int].1),
                        );
                        let ghost mid = emitted + seq![CallV::CreateBus(bus_name@)];
                        emit(out, BuilderCall::CreateBus(bus_name.clone()));
                        proof {
                            assert(calls_view(out@) =~= base + mid);
                        }
                        match parse_bus(&p.1, out) {
                            Ok(_) => {
                                proof {
                                    lemma_step(emitted, item, rest);
                                    emitted = emitted + item.calls;
                                    assert(calls_view(out@) =~= base + emitted);
                                }
                            },
                            Err(e) => {
                                proof {
                                    lemma_stop(emitted, item, rest);
                                    assert(calls_view(out@) =~= base + (emitted + item.calls));
                                }
                                return Err(e);
                            },
                        }
                    },
                    _ => {
                        proof {
                            lemma_stop(emitted, po_fail(ErrKind::InvalidType), rest);
                            assert(emitted + Seq::<CallV>::empty() =~= emitted);
                        }
                        return Err(invalid_type("bus names must be primitive string keys"));
                    },
                }
                i = i + 1;
            }
            proof {
                assert(buses@.skip(n as int).len() == 0);
                lemma_done(emitted, top_buses_out(buses@.skip(n as int)));
                assert(calls_view(out@) =~= base + po.calls);
            }
            Ok(())
        },
        _ => {
            proof {
                assert(emitted + Seq::<CallV>::empty() =~= emitted);
                assert(calls_view(out@) =~= base + po.calls);
            }
            Err(invalid_type("buses must be given as a map"))
        },
    }
}

/// Parses a whole network declaration into the builder-call sequence it
/// denotes: on success the returned calls are exactly those of the
/// document, in emission order; on failure the error of the first
/// violation is returned and the partial call sequence is discarded.
pub fn parse_network(doc_root: &DocValue) -> (r: Result<Vec<BuilderCall>, Error>)
    ensures
        ({
            let po = top_level_out(*doc_root);
            match r {
                Ok(calls) => po.err is None && calls_view(calls@) == po.calls,
                Err(e) => po.err == Some(e.kind()),
            }
        }),
{
    let mut out: Vec<BuilderCall> = Vec::new();
    proof {
        assert(calls_view(out@) =~= Seq::<CallV>::empty());
    }
    match parse_top_level(doc_root, &mut out) {
        Ok(_) => {
            proof {
                assert(Seq::<CallV>::empty() + top_level_out(*doc_root).calls =~= top_level_out(
                    *doc_root,
                ).calls);
            }
            Ok(out)
        },
        Err(e) => Err(e),
    }
}

} // verus!
