use vstd::prelude::*;

use crate::registry::Registry;
use crate::text::{
    chars_of, find_delimiter, lemma_find_from_bounds, lemma_split_pair, split_parts, string_of, trim,
    trimmed,
};

verus! {

/// Why a directive could not be carried out.
#[derive(Debug, Clone, PartialEq, Eq)]
pub enum DirectiveError {
    /// A register directive is not of the shape `<key> <- <expression>`.
    InvalidSyntax,
    /// A resolve directive names a key that nothing has registered; the
    /// key is carried along.
    UnknownKey(String),
}

/// The key and the expression that a register directive's text declares:
/// the text must split on the delimiter into exactly two pieces, which are
/// then trimmed.
pub open spec fn declaration_of(text: Seq<char>) -> Option<(Seq<char>, Seq<char>)> {
    let parts = split_parts(text);
    if parts.len() == 2 {
        Some((trim(parts[0]), trim(parts[1])))
    } else {
        None
    }
}

/// The registry's mapping after a register directive with `text`, or `None`
/// where the text is malformed.
pub open spec fn provide_model(m: Map<Seq<char>, Seq<char>>, text: Seq<char>) -> Option<
    Map<Seq<char>, Seq<char>>,
> {
    match declaration_of(text) {
        Some((k, e)) => Some(m.insert(k, e)),
        None => None,
    }
}

/// The key that a resolve directive's text names.
pub open spec fn reference_key(text: Seq<char>) -> Seq<char> {
    trim(text)
}

/// The expression that a resolve directive with `text` yields, or `None`
/// where its key is not registered.
pub open spec fn inject_model(m: Map<Seq<char>, Seq<char>>, text: Seq<char>) -> Option<Seq<char>> {
    if m.contains_key(reference_key(text)) {
        Some(m[reference_key(text)])
    } else {
        None
    }
}

/// Splits a register directive's text into its trimmed key and expression.
pub fn parse_declaration(text: &str) -> (r: Option<(String, String)>)
    ensures
        match r {
            Some((k, e)) => declaration_of(text@) == Some((k@, e@)),
            None => declaration_of(text@) is None,
        },
{
    let v = chars_of(text);
    let n = v.len();
    proof {
        lemma_split_pair(v@);
    }
    match find_delimiter(&v, 0) {
        None => None,
        Some(i) => {
            proof {
                lemma_find_from_bounds(v@, 0);
                assert(i + 4 <= n);
            }
            match find_delimiter(&v, i + 4) {
                Some(_) => None,
                None => {
                    let key = trimmed(&v, 0, i);
                    let expr = trimmed(&v, i + 4, n);
                    proof {
                        assert(v@.subrange(0, i as int) =~= v@.take(i as int));
                        assert(v@.subrange(i + 4, v@.len() as int) =~= v@.skip(i + 4));
                    }
                    Some((string_of(&key), string_of(&expr)))
                },
            }
        },
    }
}

/// The register directive: binds the key that `text` declares to its
/// expression in `registry`. A malformed text leaves `registry` as it was.
pub fn provide(registry: &mut Registry, text: &str) -> (r: Result<(), DirectiveError>)
    requires
        old(registry).wf(),
    ensures
        final(registry).wf(),
        match provide_model(old(registry)@, text@) {
            Some(m) => r is Ok && final(registry)@ == m,
            None => r is Err && r->Err_0 is InvalidSyntax && final(registry)@ == old(registry)@,
        },
{
    match parse_declaration(text) {
        Some((key, expr)) => {
            registry.put(key, expr);
            Ok(())
        },
        None => Err(DirectiveError::InvalidSyntax),
    }
}

/// The resolve directive: the expression registered for the key that `text`
/// names, verbatim.
pub fn inject(registry: &Registry, text: &str) -> (r: Result<String, DirectiveError>)
    requires
        registry.wf(),
    ensures
        match inject_model(registry@, text@) {
            Some(e) => r is Ok && r->Ok_0@ == e,
            None => r is Err && r->Err_0 is UnknownKey && r->Err_0->UnknownKey_0@ == reference_key(
                text@,
            ),
        },
{
    let v = chars_of(text);
    let key = string_of(&trimmed(&v, 0, v.len()));
    proof {
        assert(v@.subrange(0, v@.len() as int) =~= text@);
    }
    match registry.get(&key) {
        Some(e) => Ok(e),
        None => Err(DirectiveError::UnknownKey(key)),
    }
}

} // verus!
