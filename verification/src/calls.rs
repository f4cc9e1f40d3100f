use vstd::prelude::*;
use crate::errors::ErrKind;

verus! {

/// The access level of an object entry.
#[derive(Clone, Copy, Debug, PartialEq, Eq, Structural)]
pub enum Access {
    Const,
    Local,
    Global,
}

/// One call against the external network-model builder.  A successful parse
/// is exactly a sequence of these, in emission order; attribute-setting calls
/// apply to the most recently created entity of the matching kind.
#[derive(Clone, Debug, PartialEq, Eq)]
pub enum BuilderCall {
    CreateNode(String),
    SetNodeDescription(String),
    CreateObjectEntry(String, String),
    SetObjectEntryDescription(String),
    SetObjectEntryUnit(String),
    SetObjectEntryAccess(Access),
    CreateStream(String),
    SetStreamDescription(String),
    AddStreamEntry(String),
    ReceiveStream(String, String),
    MapStreamField(String, String),
    CreateCommand(String),
    SetCommandDescription(String),
    AddCommandArgument(String, String),
    AddCommandCallee(String),
    DefineStruct(String),
    AddStructAttribute(String, String),
    DefineEnum(String),
    AddEnumVariant(String, Option<u64>),
    CreateBus(String),
    SetBusBaudrate(u64),
}

/// The mathematical value of a builder call: the same shape with every
/// string replaced by its character sequence.
#[verifier::ext_equal]
pub ghost enum CallV {
    CreateNode(Seq<char>),
    SetNodeDescription(Seq<char>),
    CreateObjectEntry(Seq<char>, Seq<char>),
    SetObjectEntryDescription(Seq<char>),
    SetObjectEntryUnit(Seq<char>),
    SetObjectEntryAccess(Access),
    CreateStream(Seq<char>),
    SetStreamDescription(Seq<char>),
    AddStreamEntry(Seq<char>),
    ReceiveStream(Seq<char>, Seq<char>),
    MapStreamField(Seq<char>, Seq<char>),
    CreateCommand(Seq<char>),
    SetCommandDescription(Seq<char>),
    AddCommandArgument(Seq<char>, Seq<char>),
    AddCommandCallee(Seq<char>),
    DefineStruct(Seq<char>),
    AddStructAttribute(Seq<char>, Seq<char>),
    DefineEnum(Seq<char>),
    AddEnumVariant(Seq<char>, Option<u64>),
    CreateBus(Seq<char>),
    SetBusBaudrate(u64),
}

impl View for BuilderCall {
    type V = CallV;

    open spec fn view(&self) -> CallV {
        match self {
            BuilderCall::CreateNode(n) => CallV::CreateNode(n@),
            BuilderCall::SetNodeDescription(d) => CallV::SetNodeDescription(d@),
            BuilderCall::CreateObjectEntry(n, t) => CallV::CreateObjectEntry(n@, t@),
            BuilderCall::SetObjectEntryDescription(d) => CallV::SetObjectEntryDescription(d@),
            BuilderCall::SetObjectEntryUnit(u) => CallV::SetObjectEntryUnit(u@),
            BuilderCall::SetObjectEntryAccess(a) => CallV::SetObjectEntryAccess(*a),
            BuilderCall::CreateStream(n) => CallV::CreateStream(n@),
            BuilderCall::SetStreamDescription(d) => CallV::SetStreamDescription(d@),
            BuilderCall::AddStreamEntry(e) => CallV::AddStreamEntry(e@),
            BuilderCall::ReceiveStream(s, t) => CallV::ReceiveStream(s@, t@),
            BuilderCall::MapStreamField(a, b) => CallV::MapStreamField(a@, b@),
            BuilderCall::CreateCommand(n) => CallV::CreateCommand(n@),
            BuilderCall::SetCommandDescription(d) => CallV::SetCommandDescription(d@),
            BuilderCall::AddCommandArgument(n, t) => CallV::AddCommandArgument(n@, t@),
            BuilderCall::AddCommandCallee(c) => CallV::AddCommandCallee(c@),
            BuilderCall::DefineStruct(n) => CallV::DefineStruct(n@),
            BuilderCall::AddStructAttribute(n, t) => CallV::AddStructAttribute(n@, t@),
            BuilderCall::DefineEnum(n) => CallV::DefineEnum(n@),
            BuilderCall::AddEnumVariant(n, v) => CallV::AddEnumVariant(n@, *v),
            BuilderCall::CreateBus(n) => CallV::CreateBus(n@),
            BuilderCall::SetBusBaudrate(b) => CallV::SetBusBaudrate(*b),
        }
    }
}

/// The mathematical value of an emitted call sequence.
pub open spec fn calls_view(s: Seq<BuilderCall>) -> Seq<CallV>
    decreases s.len(),
{
    if s.len() == 0 {
        Seq::empty()
    } else {
        calls_view(s.drop_last()).push(s.last()@)
    }
}

pub proof fn lemma_calls_view_push(s: Seq<BuilderCall>, c: BuilderCall)
    ensures
        calls_view(s.push(c)) == calls_view(s).push(c@),
{
    assert(s.push(c).drop_last() =~= s);
    assert(s.push(c).last() == c);
}

/// Appends one call to the emitted sequence.
pub fn emit(out: &mut Vec<BuilderCall>, c: BuilderCall)
    ensures
        calls_view(final(out)@) == calls_view(old(out)@).push(c@),
{
    proof {
        lemma_calls_view_push(out@, c);
    }
    out.push(c);
}

/// What one parser emits and whether it fails: the emitted calls (also on
/// failure: calls issued before the first violation stay issued) and the
/// kind of the first violation, if any.
#[verifier::ext_equal]
pub ghost struct ParseOut {
    pub calls: Seq<CallV>,
    pub err: Option<ErrKind>,
}

/// A parse outcome with the given calls and failure kind.
pub open spec fn po_make(calls: Seq<CallV>, err: Option<ErrKind>) -> ParseOut {
    ParseOut { calls, err }
}

/// A successful prefix: the given calls, no failure.
pub open spec fn po_prefix(calls: Seq<CallV>) -> ParseOut {
    ParseOut { calls, err: None }
}

/// Success with no calls.
pub open spec fn po_empty() -> ParseOut {
    ParseOut { calls: Seq::empty(), err: None }
}

/// Success with a single call.
pub open spec fn po_one(c: CallV) -> ParseOut {
    ParseOut { calls: seq![c], err: None }
}

/// Failure of kind `k` with no calls.
pub open spec fn po_fail(k: ErrKind) -> ParseOut {
    ParseOut { calls: Seq::empty(), err: Some(k) }
}

/// Sequential composition: `b` runs only when `a` succeeded; the first
/// failure wins and later calls are not emitted.
pub open spec fn seq_then(a: ParseOut, b: ParseOut) -> ParseOut {
    if a.err is Some {
        a
    } else {
        ParseOut { calls: a.calls + b.calls, err: b.err }
    }
}

} // verus!
