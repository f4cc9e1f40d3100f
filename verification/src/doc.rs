use vstd::prelude::*;

verus! {

/// A node of the parsed configuration document: the loosely-typed tree that
/// the parsers walk.  A mapping is an ordered list of key/value pairs (the
/// document loader is expected to hand in unique keys); a sequence is an
/// ordered list; scalars are strings, integers, or the null scalar.
#[derive(Debug, PartialEq, Eq)]
pub enum DocValue {
    Mapping(Vec<(DocValue, DocValue)>),
    Sequence(Vec<DocValue>),
    Str(String),
    Int(i64),
    Null,
}

/// Whether `k` is a string key whose characters are exactly `key`.
pub open spec fn is_str_key(k: DocValue, key: Seq<char>) -> bool {
    k matches DocValue::Str(s) && s@ == key
}

/// The value of the first pair of `pairs` whose key is the string `key`,
/// if any.  Non-string keys never match.
pub open spec fn spec_lookup(pairs: Seq<(DocValue, DocValue)>, key: Seq<char>) -> Option<DocValue>
    decreases pairs.len(),
{
    if pairs.len() == 0 {
        None
    } else if is_str_key(pairs[0].0, key) {
        Some(pairs[0].1)
    } else {
        spec_lookup(pairs.drop_first(), key)
    }
}

/// String equality by characters.
pub fn str_eq(a: &str, b: &str) -> (r: bool)
    ensures
        r == (a@ == b@),
{
    let x: String = a.to_owned();
    let y: String = b.to_owned();
    x == y
}

/// Looks `key` up among the pairs of a mapping: the typed accessor behind
/// every optional or required field read of the parsers.
pub fn doc_get<'a>(pairs: &'a Vec<(DocValue, DocValue)>, key: &str) -> (r: Option<&'a DocValue>)
    ensures
        match r {
            Some(v) => spec_lookup(pairs@, key@) == Some(*v),
            None => spec_lookup(pairs@, key@) is None,
        },
{
    let n = pairs.len();
    let mut i: usize = 0;
    proof {
        assert(pairs@.skip(0) =~= pairs@);
    }
    while i < n
        invariant
            n == pairs@.len(),
            i <= n,
            spec_lookup(pairs@, key@) == spec_lookup(pairs@.skip(i as int), key@),
        decreases n - i,
    {
        match &pairs[i].0 {
            DocValue::Str(s) => {
                if str_eq(s.as_str(), key) {
                    return Some(&pairs[i].1);
                }
            },
            _ => {},
        }
        proof {
            assert(pairs@.skip(i as int).drop_first() =~= pairs@.skip(i as int + 1));
        }
        i = i + 1;
    }
    proof {
        assert(pairs@.skip(n as int).len() == 0);
    }
    None
}

} // verus!
